//! The preview of a batch: which images it lists, under which relative paths, and how the
//! listing is paged.
use vstd::prelude::*;
use crate::formats::{
    file_rel, file_rel_spec, is_supported_image, output_path, output_path_spec, supported_image,
    temp_marker,
};
use crate::order::{run_of, sort_by_rel, sorted_by_rel};
use crate::paths::{
    file_name, file_name_chars, has_hidden_segment, has_hidden_segment_chars, is_hidden,
    is_hidden_chars, join, join_chars, path_starts_with, path_starts_with_chars, segments,
    segments_chars, strip_prefix, strip_prefix_chars, views,
};
use crate::settings::BatchSettings;
use crate::sources::{
    input_sources, opt_view, same_file, same_file_path, source_view, sources_spec, InputSource,
    PathProbe, SourcePathKind,
};
use crate::text::{chars_of, contains_chars, contains_seq, extend_chars, owned, string_from_chars};
use crate::work::{
    collect_preview_directory_source, directory_preview_items, directory_prefix_spec,
    directory_source_prefix, entry_rel_spec, excluded_file_name, excluded_name,
    is_single_directory_source, name_or_empty,
    item_view, item_views, opt_seq, opt_str, preview_file_item_spec, push_preview_file_source,
    single_directory_spec, WalkEntry, WorkItem, WorkKind,
};

verus! {

/// The abstract input sources of a batch.
pub open spec fn source_views(v: Seq<InputSource>) -> Seq<(Seq<char>, SourcePathKind)> {
    v.map_values(|s: InputSource| source_view(s))
}

/// The message for a path outside every source.
pub open spec fn outside_sources_message() -> Seq<char> {
    "预览路径不在输入来源中"@
}

/// The message for a path with a hidden component inside a directory source.
pub open spec fn hidden_path_message() -> Seq<char> {
    "隐藏文件不参与预览"@
}

/// The relative path of `path` as the first matching source (from index `i` on) gives it: a
/// file source that is the same file gives its file name; a directory source that contains
/// it gives the path inside it, under the directory's name unless it is the only source.
pub open spec fn rel_search(
    srcs: Seq<(Seq<char>, SourcePathKind)>,
    probes: Seq<PathProbe>,
    path: Seq<char>,
    path_canon: Option<Seq<char>>,
    single: bool,
    i: int,
) -> Result<Seq<char>, Seq<char>>
    decreases srcs.len() - i,
{
    if i < 0 || i >= srcs.len() {
        Err(outside_sources_message())
    } else {
        let sp = srcs[i].0;
        match srcs[i].1 {
            SourcePathKind::File => if same_file(sp, opt_view(probes[i].canonical), path, path_canon) {
                Ok(file_rel_spec(sp))
            } else {
                rel_search(srcs, probes, path, path_canon, single, i + 1)
            },
            SourcePathKind::Directory => if path_starts_with(path, sp) {
                let inner = strip_prefix(path, sp)->0;
                if has_hidden_segment(inner) {
                    Err(hidden_path_message())
                } else if single {
                    Ok(inner)
                } else {
                    let head = match file_name(sp) {
                        Some(n) => n,
                        None => "source"@,
                    };
                    Ok(join(head, inner))
                }
            } else {
                rel_search(srcs, probes, path, path_canon, single, i + 1)
            },
        }
    }
}

/// The relative path under which a previewed path is shown.
pub open spec fn preview_rel_spec(
    settings: BatchSettings,
    probes: Seq<PathProbe>,
    path: Seq<char>,
    probe: PathProbe,
) -> Result<Seq<char>, Seq<char>> {
    match sources_spec(settings.input_sources@, probes) {
        Err(e) => Err(e),
        Ok(srcs) => rel_search(srcs, probes, path, opt_view(probe.canonical), single_directory_spec(srcs), 0),
    }
}

/// The relative path of a path inside the batch's sources.
pub fn preview_rel_for_path(
    settings: &BatchSettings,
    probes: &Vec<PathProbe>,
    path: &str,
    probe: &PathProbe,
) -> (r: Result<String, String>)
    requires
        probes@.len() == settings.input_sources@.len(),
    ensures
        match r {
            Ok(v) => preview_rel_spec(*settings, probes@, path@, *probe) == Ok::<Seq<char>, Seq<char>>(v@),
            Err(e) => preview_rel_spec(*settings, probes@, path@, *probe) == Err::<Seq<char>, Seq<char>>(e@),
        },
{
    let sources = input_sources(settings, probes)?;
    let ghost srcs = source_views(sources@);
    let single = is_single_directory_source(&sources);
    let pc = chars_of(path);
    let n = sources.len();
    for i in 0..n
        invariant
            n == sources@.len(),
            srcs == source_views(sources@),
            sources_spec(settings.input_sources@, probes@) == Ok::<
                Seq<(Seq<char>, SourcePathKind)>,
                Seq<char>,
            >(srcs),
            srcs.len() == probes@.len(),
            pc@ == path@,
            single == single_directory_spec(srcs),
            rel_search(srcs, probes@, path@, opt_view(probe.canonical), single, 0) == rel_search(
                srcs,
                probes@,
                path@,
                opt_view(probe.canonical),
                single,
                i as int,
            ),
    {
        let sp = sources[i].path.as_str();
        assert(srcs[i as int] == (sp@, sources@[i as int].kind));
        match sources[i].kind {
            SourcePathKind::File => {
                if same_file_path(sp, &probes[i], path, probe) {
                    return Ok(file_rel(sp));
                }
            },
            SourcePathKind::Directory => {
                let sc = chars_of(sp);
                if path_starts_with_chars(pc.as_slice(), sc.as_slice()) {
                    let inner = match strip_prefix_chars(pc.as_slice(), sc.as_slice()) {
                        Some(v) => v,
                        None => return Err(owned("无法计算预览相对路径")),
                    };
                    if has_hidden_segment_chars(inner.as_slice()) {
                        return Err(owned("隐藏文件不参与预览"));
                    }
                    if single {
                        return Ok(string_from_chars(inner.as_slice()));
                    }
                    let head = match file_name_chars(sc.as_slice()) {
                        Some(v) => v,
                        None => chars_of("source"),
                    };
                    return Ok(string_from_chars(join_chars(head.as_slice(), inner.as_slice()).as_slice()));
                }
            },
        }
    }
    Err(owned("预览路径不在输入来源中"))
}

/// Whether `dir` is one of the batch's directory sources or lies inside one.
pub open spec fn in_directory_source(srcs: Seq<(Seq<char>, SourcePathKind)>, dir: Seq<char>) -> bool {
    exists|i: int|
        0 <= i < srcs.len() && srcs[i].1 == SourcePathKind::Directory && path_starts_with(
            dir,
            #[trigger] srcs[i].0,
        )
}

/// Whether a directory may be listed in the preview.
pub fn directory_in_preview_sources(settings: &BatchSettings, probes: &Vec<PathProbe>, dir: &str) -> (r:
    Result<bool, String>)
    requires
        probes@.len() == settings.input_sources@.len(),
    ensures
        match r {
            Ok(b) => sources_spec(settings.input_sources@, probes@) matches Ok(srcs) && b
                == in_directory_source(srcs, dir@),
            Err(e) => sources_spec(settings.input_sources@, probes@) == Err::<
                Seq<(Seq<char>, SourcePathKind)>,
                Seq<char>,
            >(e@),
        },
{
    let sources = input_sources(settings, probes)?;
    let ghost srcs = source_views(sources@);
    let dc = chars_of(dir);
    let n = sources.len();
    for i in 0..n
        invariant
            n == sources@.len(),
            srcs == source_views(sources@),
            sources_spec(settings.input_sources@, probes@) == Ok::<
                Seq<(Seq<char>, SourcePathKind)>,
                Seq<char>,
            >(srcs),
            dc@ == dir@,
            forall|k: int|
                0 <= k < i ==> !(srcs[k].1 == SourcePathKind::Directory && path_starts_with(
                    dir@,
                    #[trigger] srcs[k].0,
                )),
    {
        if sources[i].kind == SourcePathKind::Directory {
            let sc = chars_of(sources[i].path.as_str());
            if path_starts_with_chars(dc.as_slice(), sc.as_slice()) {
                assert(srcs[i as int].1 == SourcePathKind::Directory && path_starts_with(
                    dir@,
                    srcs[i as int].0,
                ));
                return Ok(true);
            }
        }
    }
    Ok(false)
}

/// The preview work item of a path: a raster image file that is not hidden, not a temporary
/// output, has no hidden component, and lies in one of the sources.
pub open spec fn preview_item_spec(
    settings: BatchSettings,
    probes: Seq<PathProbe>,
    src: Seq<char>,
    probe: PathProbe,
) -> Option<(Seq<char>, Seq<char>, Seq<char>, WorkKind)> {
    if probe.kind != Some(SourcePathKind::File) || !supported_image(src) {
        None
    } else if excluded_name(src) || has_hidden_segment(src) {
        None
    } else {
        match preview_rel_spec(settings, probes, src, probe) {
            Err(_) => None,
            Ok(rel) => Some(
                (
                    src,
                    rel,
                    output_path_spec(settings.output_dir@, rel, settings.output_format),
                    WorkKind::RasterImage,
                ),
            ),
        }
    }
}

/// The work item a previewed path stands for, if any; never an error.
pub fn preview_work_item_for_path(
    settings: &BatchSettings,
    probes: &Vec<PathProbe>,
    src: &str,
    probe: &PathProbe,
) -> (r: Result<Option<WorkItem>, String>)
    requires
        probes@.len() == settings.input_sources@.len(),
    ensures
        match r {
            Ok(Some(w)) => preview_item_spec(*settings, probes@, src@, *probe) == Some(item_view(w)),
            Ok(None) => preview_item_spec(*settings, probes@, src@, *probe) is None,
            Err(_) => false,
        },
{
    if probe.kind != Some(SourcePathKind::File) || !is_supported_image(src) {
        return Ok(None);
    }
    if excluded_file_name(src) {
        return Ok(None);
    }
    let sc = chars_of(src);
    if has_hidden_segment_chars(sc.as_slice()) {
        return Ok(None);
    }
    let rel = match preview_rel_for_path(settings, probes, src, probe) {
        Ok(rel) => rel,
        Err(_) => return Ok(None),
    };
    let dst = output_path(settings.output_dir.as_str(), rel.as_str(), settings.output_format);
    Ok(Some(WorkItem { dst, src: string_from_chars(sc.as_slice()), rel, kind: WorkKind::RasterImage }))
}

// ---------------------------------------------------------------------------------------------
// The whole tree
// ---------------------------------------------------------------------------------------------

/// The preview items of the sources from index `i` on, unsorted: a file source's own item,
/// and the items walked under each directory source.
pub open spec fn source_preview_items(
    srcs: Seq<(Seq<char>, SourcePathKind)>,
    walks: Seq<Vec<WalkEntry>>,
    single: bool,
    output_dir: Seq<char>,
    format: crate::settings::OutputFormat,
    n: int,
) -> Seq<(Seq<char>, Seq<char>, Seq<char>, WorkKind)>
    decreases n,
{
    if n <= 0 {
        Seq::empty()
    } else {
        let i = n - 1;
        let sp = srcs[i].0;
        let found = match srcs[i].1 {
            SourcePathKind::File => opt_seq(
                preview_file_item_spec(sp, file_rel_spec(sp), output_dir, format),
            ),
            SourcePathKind::Directory => directory_preview_items(
                sp,
                directory_prefix_spec(single, sp),
                walks[i]@,
                output_dir,
                format,
            ),
        };
        source_preview_items(srcs, walks, single, output_dir, format, i) + found
    }
}

/// Every raster image the batch would process, sorted by relative path. `walks[i]` holds the
/// entries walked under the `i`-th source when it is a directory.
pub fn collect_preview_work_items(
    settings: &BatchSettings,
    probes: &Vec<PathProbe>,
    walks: &Vec<Vec<WalkEntry>>,
) -> (r: Result<Vec<WorkItem>, String>)
    requires
        probes@.len() == settings.input_sources@.len(),
        walks@.len() == settings.input_sources@.len(),
    ensures
        match r {
            Ok(items) => sources_spec(settings.input_sources@, probes@) matches Ok(srcs) && {
                &&& item_views(items@).to_multiset() == source_preview_items(
                    srcs,
                    walks@,
                    single_directory_spec(srcs),
                    settings.output_dir@,
                    settings.output_format,
                    srcs.len() as int,
                ).to_multiset()
                &&& sorted_by_rel(item_views(items@))
                &&& forall|k: Seq<Seq<char>>| #[trigger] run_of(item_views(items@), k) == run_of(
                    source_preview_items(
                        srcs,
                        walks@,
                        single_directory_spec(srcs),
                        settings.output_dir@,
                        settings.output_format,
                        srcs.len() as int,
                    ),
                    k,
                )
            },
            Err(e) => sources_spec(settings.input_sources@, probes@) == Err::<
                Seq<(Seq<char>, SourcePathKind)>,
                Seq<char>,
            >(e@),
        },
{
    let sources = input_sources(settings, probes)?;
    let ghost srcs = source_views(sources@);
    let single = is_single_directory_source(&sources);
    let output_dir = settings.output_dir.as_str();
    let mut items: Vec<WorkItem> = Vec::new();
    let n = sources.len();
    for i in 0..n
        invariant
            n == sources@.len(),
            srcs == source_views(sources@),
            srcs.len() == walks@.len(),
            single == single_directory_spec(srcs),
            output_dir@ == settings.output_dir@,
            item_views(items@) == source_preview_items(
                srcs,
                walks@,
                single,
                settings.output_dir@,
                settings.output_format,
                i as int,
            ),
    {
        let sp = sources[i].path.as_str();
        match sources[i].kind {
            SourcePathKind::File => {
                let rel = file_rel(sp);
                push_preview_file_source(&mut items, sp, rel, output_dir, settings);
            },
            SourcePathKind::Directory => {
                let prefix = directory_source_prefix(single, sp);
                collect_preview_directory_source(
                    &mut items,
                    sp,
                    &prefix,
                    output_dir,
                    settings,
                    &walks[i],
                );
            },
        }
    }
    let sorted = sort_by_rel(items);
    Ok(sorted)
}

/// One file of the preview tree.
#[derive(Clone, Debug)]
pub struct PreviewItem {
    pub path: String,
    pub rel: String,
    pub name: String,
    pub segments: Vec<String>,
}

/// The preview tree of a batch.
#[derive(Clone, Debug)]
pub struct PreviewTree {
    pub items: Vec<PreviewItem>,
}

/// The name shown for a relative path: its file name, or the whole path.
pub open spec fn display_name(rel: Seq<char>) -> Seq<char> {
    match file_name(rel) {
        Some(n) => n,
        None => rel,
    }
}

fn display_name_of(rel: &str) -> (r: String)
    ensures
        r@ == display_name(rel@),
{
    let rc = chars_of(rel);
    match file_name_chars(rc.as_slice()) {
        Some(n) => string_from_chars(n.as_slice()),
        None => string_from_chars(rc.as_slice()),
    }
}

/// The preview tree entry of a work item: its source path, relative path, display name and
/// the components of its relative path.
pub fn preview_item_of(item: &WorkItem) -> (p: PreviewItem)
    ensures
        p.path@ == item.src@,
        p.rel@ == item.rel@,
        p.name@ == display_name(item.rel@),
        p.segments@.map_values(|s: String| s@) == segments(item.rel@),
{
    let rc = chars_of(item.rel.as_str());
    let segs = segments_chars(rc.as_slice());
    let mut out: Vec<String> = Vec::new();
    let n = segs.len();
    for i in 0..n
        invariant
            n == segs@.len(),
            out@.map_values(|s: String| s@) == views(segs@).take(i as int),
    {
        let piece = string_from_chars(segs[i].as_slice());
        assert(piece@ == views(segs@)[i as int]);
        let ghost before = out@;
        out.push(piece);
        assert(out@.map_values(|s: String| s@) =~= before.map_values(|s: String| s@).push(piece@));
        assert(out@.map_values(|s: String| s@) =~= views(segs@).take(i + 1));
    }
    assert(views(segs@).take(n as int) == views(segs@));
    PreviewItem {
        path: string_from_chars(chars_of(item.src.as_str()).as_slice()),
        rel: string_from_chars(rc.as_slice()),
        name: display_name_of(item.rel.as_str()),
        segments: out,
    }
}

// ---------------------------------------------------------------------------------------------
// Paged directory listings
// ---------------------------------------------------------------------------------------------

/// One row of a directory listing in the preview.
#[derive(Clone, Debug)]
pub struct PreviewDirectoryEntry {
    pub kind: String,
    pub path: String,
    pub rel: String,
    pub name: String,
}

/// One page of a directory listing; `next_offset` is where the next page starts, if any.
#[derive(Clone, Debug)]
pub struct PreviewDirectoryPage {
    pub dir_path: Option<String>,
    pub entries: Vec<PreviewDirectoryEntry>,
    pub next_offset: Option<usize>,
}

/// An entry read from a directory: its path and name, whether it is itself a directory or a
/// regular file (links not followed), and the probe of its path.
#[derive(Clone, Debug)]
pub struct DirEntryProbe {
    pub path: String,
    pub name: String,
    pub is_dir: bool,
    pub is_file: bool,
    pub probe: PathProbe,
}

/// The abstract value of a listing row: kind, path, relative path, name.
pub open spec fn entry_view(e: PreviewDirectoryEntry) -> (Seq<char>, Seq<char>, Seq<char>, Seq<char>) {
    (e.kind@, e.path@, e.rel@, e.name@)
}

/// The abstract values of listing rows.
pub open spec fn entry_views(v: Seq<PreviewDirectoryEntry>) -> Seq<
    (Seq<char>, Seq<char>, Seq<char>, Seq<char>),
> {
    v.map_values(|e: PreviewDirectoryEntry| entry_view(e))
}

/// The listing row of a file work item.
pub open spec fn item_entry_spec(item: (Seq<char>, Seq<char>, Seq<char>, WorkKind)) -> (
    Seq<char>,
    Seq<char>,
    Seq<char>,
    Seq<char>,
) {
    ("file"@, item.0, item.1, display_name(item.1))
}

/// The listing row of a file work item: kind `file`, its source path and relative path, and
/// the name of its relative path.
pub fn preview_entry_from_work_item(item: WorkItem) -> (e: PreviewDirectoryEntry)
    ensures
        entry_view(e) == item_entry_spec(item_view(item)),
{
    let name = display_name_of(item.rel.as_str());
    PreviewDirectoryEntry { kind: owned("file"), path: item.src, rel: item.rel, name }
}

/// The row a directory entry contributes, if any: sub-directories with their relative path,
/// supported image files that belong to the batch; hidden and temporary names are skipped.
pub open spec fn child_candidate(
    settings: BatchSettings,
    probes: Seq<PathProbe>,
    e: DirEntryProbe,
) -> Result<Option<(Seq<char>, Seq<char>, Seq<char>, Seq<char>)>, Seq<char>> {
    if is_hidden(e.name@) || contains_seq(e.name@, temp_marker()) {
        Ok(None)
    } else if e.is_dir {
        match preview_rel_spec(settings, probes, e.path@, e.probe) {
            Err(m) => Err(m),
            Ok(rel) => Ok(Some(("directory"@, e.path@, rel, e.name@))),
        }
    } else if e.is_file && supported_image(e.path@) {
        match preview_item_spec(settings, probes, e.path@, e.probe) {
            Some(item) => Ok(Some(item_entry_spec(item))),
            None => Ok(None),
        }
    } else {
        Ok(None)
    }
}

/// The rows of `es` in order, up to `need` of them; an error stops the scan.
pub open spec fn collect_rows(
    settings: BatchSettings,
    probes: Seq<PathProbe>,
    es: Seq<DirEntryProbe>,
    need: nat,
) -> Result<Seq<(Seq<char>, Seq<char>, Seq<char>, Seq<char>)>, Seq<char>>
    decreases es.len(),
{
    if need == 0 || es.len() == 0 {
        Ok(Seq::empty())
    } else {
        match child_candidate(settings, probes, es[0]) {
            Err(m) => Err(m),
            Ok(None) => collect_rows(settings, probes, es.drop_first(), need),
            Ok(Some(v)) => match collect_rows(settings, probes, es.drop_first(), (need - 1) as nat) {
                Err(m) => Err(m),
                Ok(rest) => Ok(seq![v] + rest),
            },
        }
    }
}

/// Rows `offset..offset + limit` of `rows`.
pub open spec fn page_rows<A>(rows: Seq<A>, offset: int, limit: int) -> Seq<A> {
    if rows.len() <= offset {
        Seq::empty()
    } else if rows.len() <= offset + limit {
        rows.subrange(offset, rows.len() as int)
    } else {
        rows.subrange(offset, offset + limit)
    }
}

/// The page a directory listing yields: the rows `offset..offset + limit` of the directory,
/// and the next offset when more rows follow.
pub open spec fn children_page_spec(
    settings: BatchSettings,
    probes: Seq<PathProbe>,
    es: Seq<DirEntryProbe>,
    offset: int,
    limit: int,
) -> Result<(Seq<(Seq<char>, Seq<char>, Seq<char>, Seq<char>)>, Option<int>), Seq<char>> {
    match collect_rows(settings, probes, es, (offset + limit + 1) as nat) {
        Err(m) => Err(m),
        Ok(rows) => Ok(
            (
                page_rows(rows, offset, limit),
                if rows.len() > offset + limit {
                    Some(offset + limit)
                } else {
                    None
                },
            ),
        ),
    }
}

proof fn lemma_page_rows_len<A>(rows: Seq<A>, offset: int, limit: int)
    requires
        0 <= offset,
        0 <= limit,
    ensures
        page_rows(rows, offset, limit).len() == if rows.len() <= offset {
            0
        } else if rows.len() <= offset + limit {
            rows.len() - offset
        } else {
            limit
        },
{
}

/// Prepends `found` to a result.
pub open spec fn prepend_rows<A>(found: Seq<A>, r: Result<Seq<A>, Seq<char>>) -> Result<Seq<A>, Seq<char>> {
    match r {
        Ok(rest) => Ok(found + rest),
        Err(m) => Err(m),
    }
}

/// The abstract value of a page.
pub open spec fn page_view(p: PreviewDirectoryPage) -> (
    Option<Seq<char>>,
    Seq<(Seq<char>, Seq<char>, Seq<char>, Seq<char>)>,
    Option<int>,
) {
    (
        opt_str(p.dir_path),
        entry_views(p.entries@),
        match p.next_offset {
            Some(n) => Some(n as int),
            None => None,
        },
    )
}

/// The abstract value of a page result.
pub open spec fn page_result_view(r: Result<PreviewDirectoryPage, String>) -> Result<
    (Option<Seq<char>>, Seq<(Seq<char>, Seq<char>, Seq<char>, Seq<char>)>, Option<int>),
    Seq<char>,
> {
    match r {
        Ok(p) => Ok(page_view(p)),
        Err(e) => Err(e@),
    }
}

/// The abstract value of a directory read.
pub open spec fn listing_view(l: Result<Vec<DirEntryProbe>, String>) -> Result<
    Seq<DirEntryProbe>,
    Seq<char>,
> {
    match l {
        Ok(v) => Ok(v@),
        Err(e) => Err(e@),
    }
}

/// The page of a directory listing: refused when the directory does not exist, lies outside
/// every directory source, or cannot be read; else its rows from `offset` on.
pub open spec fn children_result(
    settings: BatchSettings,
    probes: Seq<PathProbe>,
    dir: Seq<char>,
    dir_kind: Option<SourcePathKind>,
    offset: int,
    limit: int,
    listing: Result<Seq<DirEntryProbe>, Seq<char>>,
) -> Result<(Option<Seq<char>>, Seq<(Seq<char>, Seq<char>, Seq<char>, Seq<char>)>, Option<int>), Seq<char>> {
    if dir_kind != Some(SourcePathKind::Directory) {
        Err("预览目录不存在"@)
    } else {
        match sources_spec(settings.input_sources@, probes) {
            Err(m) => Err(m),
            Ok(srcs) => if !in_directory_source(srcs, dir) {
                Err("预览目录不在输入来源中"@)
            } else {
                match listing {
                    Err(io) => Err("读取目录失败: "@ + io),
                    Ok(es) => match children_page_spec(settings, probes, es, offset, limit) {
                        Err(m) => Err(m),
                        Ok((rows, next)) => Ok((Some(dir), rows, next)),
                    },
                }
            },
        }
    }
}

/// The row a directory entry contributes.
fn child_row(settings: &BatchSettings, probes: &Vec<PathProbe>, e: &DirEntryProbe) -> (r: Result<
    Option<PreviewDirectoryEntry>,
    String,
>)
    requires
        probes@.len() == settings.input_sources@.len(),
    ensures
        match r {
            Ok(Some(v)) => child_candidate(*settings, probes@, *e) == Ok::<
                Option<(Seq<char>, Seq<char>, Seq<char>, Seq<char>)>,
                Seq<char>,
            >(Some(entry_view(v))),
            Ok(None) => child_candidate(*settings, probes@, *e) == Ok::<
                Option<(Seq<char>, Seq<char>, Seq<char>, Seq<char>)>,
                Seq<char>,
            >(None),
            Err(m) => child_candidate(*settings, probes@, *e) == Err::<
                Option<(Seq<char>, Seq<char>, Seq<char>, Seq<char>)>,
                Seq<char>,
            >(m@),
        },
{
    let name = chars_of(e.name.as_str());
    let marker = chars_of(".pictrim-tmp-");
    if is_hidden_chars(name.as_slice()) || contains_chars(name.as_slice(), marker.as_slice()) {
        return Ok(None);
    }
    if e.is_dir {
        let rel = preview_rel_for_path(settings, probes, e.path.as_str(), &e.probe)?;
        return Ok(
            Some(
                PreviewDirectoryEntry {
                    kind: owned("directory"),
                    path: string_from_chars(chars_of(e.path.as_str()).as_slice()),
                    rel,
                    name: string_from_chars(name.as_slice()),
                },
            ),
        );
    }
    if e.is_file && is_supported_image(e.path.as_str()) {
        let item = preview_work_item_for_path(settings, probes, e.path.as_str(), &e.probe)?;
        return match item {
            Some(w) => Ok(Some(preview_entry_from_work_item(w))),
            None => Ok(None),
        };
    }
    Ok(None)
}

proof fn lemma_collect_step(
    settings: BatchSettings,
    probes: Seq<PathProbe>,
    es: Seq<DirEntryProbe>,
    i: int,
    need: nat,
)
    requires
        0 <= i < es.len(),
        need > 0,
    ensures
        collect_rows(settings, probes, es.skip(i), need) == match child_candidate(
            settings,
            probes,
            es[i],
        ) {
            Err(m) => Err(m),
            Ok(None) => collect_rows(settings, probes, es.skip(i + 1), need),
            Ok(Some(v)) => prepend_rows(
                seq![v],
                collect_rows(settings, probes, es.skip(i + 1), (need - 1) as nat),
            ),
        },
{
    assert(es.skip(i).drop_first() =~= es.skip(i + 1));
    assert(es.skip(i)[0] == es[i]);
}

/// The page of a directory inside the sources: its entries one level deep, `limit` rows from
/// `offset` on. The directory must exist and lie in a directory source; `listing` is what
/// reading it gave.
pub fn load_preview_directory_children(
    settings: &BatchSettings,
    probes: &Vec<PathProbe>,
    dir: &str,
    dir_probe: &PathProbe,
    offset: usize,
    limit: usize,
    listing: Result<Vec<DirEntryProbe>, String>,
) -> (r: Result<PreviewDirectoryPage, String>)
    requires
        probes@.len() == settings.input_sources@.len(),
    ensures
        page_result_view(r) == children_result(
            *settings,
            probes@,
            dir@,
            dir_probe.kind,
            offset as int,
            limit as int,
            listing_view(listing),
        ),
{
    if dir_probe.kind != Some(SourcePathKind::Directory) {
        return Err(owned("预览目录不存在"));
    }
    if !directory_in_preview_sources(settings, probes, dir)? {
        return Err(owned("预览目录不在输入来源中"));
    }
    let es: &Vec<DirEntryProbe> = match &listing {
        Ok(es) => es,
        Err(io) => {
            let mut msg = chars_of("读取目录失败: ");
            extend_chars(&mut msg, chars_of(io.as_str()).as_slice());
            return Err(string_from_chars(msg.as_slice()));
        },
    };
    let ghost need = (offset + limit + 1) as nat;
    let ghost mut found: Seq<(Seq<char>, Seq<char>, Seq<char>, Seq<char>)> = Seq::empty();
    let mut entries: Vec<PreviewDirectoryEntry> = Vec::new();
    let mut accepted: usize = 0;
    let mut has_more = false;
    let n = es.len();
    let mut i: usize = 0;
    assert(es@.skip(0) =~= es@);
    while i < n
        invariant_except_break
            n == es@.len(),
            need == offset + limit + 1,
            dir_probe.kind == Some(SourcePathKind::Directory),
            sources_spec(settings.input_sources@, probes@) matches Ok(srcs) && in_directory_source(
                srcs,
                dir@,
            ),
            listing == Ok::<Vec<DirEntryProbe>, String>(*es),
            found.len() <= i,
            probes@.len() == settings.input_sources@.len(),
            i <= n,
            accepted == found.len(),
            found.len() <= offset + limit,
            !has_more,
            collect_rows(*settings, probes@, es@, need) == prepend_rows(
                found,
                collect_rows(*settings, probes@, es@.skip(i as int), (need - found.len()) as nat),
            ),
            entry_views(entries@) == page_rows(found, offset as int, limit as int),
        ensures
            collect_rows(*settings, probes@, es@, need) == Ok::<
                Seq<(Seq<char>, Seq<char>, Seq<char>, Seq<char>)>,
                Seq<char>,
            >(found),
            entry_views(entries@) == page_rows(found, offset as int, limit as int),
            has_more == (found.len() > offset + limit),
            has_more ==> accepted == offset + limit,
            has_more ==> offset + limit < n,
        decreases n - i,
    {
        proof {
            lemma_collect_step(*settings, probes@, es@, i as int, (need - found.len()) as nat);
        }
        let row = child_row(settings, probes, &es[i]);
        let next = match row {
            Err(m) => {
                proof {
                    let k = (need - found.len()) as nat;
                    assert(collect_rows(*settings, probes@, es@.skip(i as int), k) == Err::<
                        Seq<(Seq<char>, Seq<char>, Seq<char>, Seq<char>)>,
                        Seq<char>,
                    >(m@));
                    assert(collect_rows(*settings, probes@, es@, need) == Err::<
                        Seq<(Seq<char>, Seq<char>, Seq<char>, Seq<char>)>,
                        Seq<char>,
                    >(m@));
                    assert(need == (offset as int + limit as int + 1) as nat);
                }
                return Err(m);
            },
            Ok(next) => next,
        };
        i = i + 1;
        match next {
            None => {},
            Some(entry) => {
                let ghost v = entry_view(entry);
                let ghost found_old = found;
                proof {
                    found = found.push(v);
                    let k_old = (need - found_old.len()) as nat;
                    let r = collect_rows(*settings, probes@, es@.skip(i as int), (k_old - 1) as nat);
                    assert(found.drop_last() =~= found_old);
                    assert(prepend_rows(found_old, prepend_rows(seq![v], r)) == prepend_rows(found, r)) by {
                        match r {
                            Ok(rest) => {
                                assert(found_old + (seq![v] + rest) =~= found + rest);
                            },
                            Err(_) => {},
                        }
                    }
                    assert(collect_rows(*settings, probes@, es@, need) == prepend_rows(found, r));
                    assert((need - found.len()) as nat == (k_old - 1) as nat);
                }
                if accepted < offset {
                    accepted = accepted + 1;
                    assert(page_rows(found, offset as int, limit as int) =~= Seq::empty());
                } else if entries.len() >= limit {
                    proof {
                        lemma_page_rows_len(found_old, offset as int, limit as int);
                        assert(entries@.len() == entry_views(entries@).len());
                        assert(found.len() == offset + limit + 1);
                        assert(collect_rows(*settings, probes@, es@.skip(i as int), 0) == Ok::<
                            Seq<(Seq<char>, Seq<char>, Seq<char>, Seq<char>)>,
                            Seq<char>,
                        >(Seq::empty()));
                        assert(found + Seq::<(Seq<char>, Seq<char>, Seq<char>, Seq<char>)>::empty()
                            =~= found);
                    }
                    has_more = true;
                    break;
                } else {
                    proof {
                        lemma_page_rows_len(found_old, offset as int, limit as int);
                        assert(entries@.len() == entry_views(entries@).len());
                        assert(page_rows(found_old, offset as int, limit as int) =~= found_old.subrange(
                            offset as int,
                            found_old.len() as int,
                        ));
                        assert(page_rows(found, offset as int, limit as int) =~= found.subrange(
                            offset as int,
                            found.len() as int,
                        ));
                    }
                    let ghost before = entries@;
                    entries.push(entry);
                    accepted = accepted + 1;
                    assert(entry_views(entries@) =~= entry_views(before).push(v));
                    assert(entry_views(entries@) =~= page_rows(found, offset as int, limit as int));
                }
            },
        }
    }
    proof {
        if i == n && !has_more {
            assert(es@.skip(n as int) =~= Seq::<DirEntryProbe>::empty());
            assert(found + Seq::<(Seq<char>, Seq<char>, Seq<char>, Seq<char>)>::empty() =~= found);
        }
    }
    let next_offset = if has_more {
        Some(offset + limit)
    } else {
        None
    };
    Ok(
        PreviewDirectoryPage {
            dir_path: Some(string_from_chars(chars_of(dir).as_slice())),
            entries,
            next_offset,
        },
    )
}

/// The row a source contributes to the top level of the preview: a directory by its name, a
/// file by its work item when it has one.
pub open spec fn root_candidate(
    settings: BatchSettings,
    probes: Seq<PathProbe>,
    src: (Seq<char>, SourcePathKind),
    probe: PathProbe,
) -> Option<(Seq<char>, Seq<char>, Seq<char>, Seq<char>)> {
    match src.1 {
        SourcePathKind::Directory => Some(
            ("directory"@, src.0, display_name(src.0), display_name(src.0)),
        ),
        SourcePathKind::File => match preview_item_spec(settings, probes, src.0, probe) {
            Some(item) => Some(item_entry_spec(item)),
            None => None,
        },
    }
}

/// The rows of the sources from index `i` on, at most `room` of them, and whether a source
/// was left unexamined once they were full.
pub open spec fn root_fold(
    settings: BatchSettings,
    probes: Seq<PathProbe>,
    srcs: Seq<(Seq<char>, SourcePathKind)>,
    i: int,
    room: nat,
) -> (Seq<(Seq<char>, Seq<char>, Seq<char>, Seq<char>)>, bool)
    decreases srcs.len() - i,
{
    if i < 0 || i >= srcs.len() {
        (Seq::empty(), false)
    } else if room == 0 {
        (Seq::empty(), true)
    } else {
        match root_candidate(settings, probes, srcs[i], probes[i]) {
            Some(v) => {
                let (rest, more) = root_fold(settings, probes, srcs, i + 1, (room - 1) as nat);
                (seq![v] + rest, more)
            },
            None => root_fold(settings, probes, srcs, i + 1, room),
        }
    }
}

/// The top level of the preview: the single directory source's own listing, or one row per
/// source, `limit` of them from source `offset` on.
pub open spec fn root_result(
    settings: BatchSettings,
    probes: Seq<PathProbe>,
    offset: int,
    limit: int,
    listing: Result<Seq<DirEntryProbe>, Seq<char>>,
) -> Result<(Option<Seq<char>>, Seq<(Seq<char>, Seq<char>, Seq<char>, Seq<char>)>, Option<int>), Seq<char>> {
    match sources_spec(settings.input_sources@, probes) {
        Err(m) => Err(m),
        Ok(srcs) => if single_directory_spec(srcs) {
            children_result(settings, probes, srcs[0].0, probes[0].kind, offset, limit, listing)
        } else {
            let (rows, more) = root_fold(settings, probes, srcs, offset, limit as nat);
            Ok(
                (
                    None,
                    rows,
                    if more {
                        Some(offset + limit)
                    } else {
                        None
                    },
                ),
            )
        },
    }
}

/// The top-level page of the preview. `listing` is the read of the first source, used when it
/// is the only source and a directory.
pub fn load_preview_root_directory(
    settings: &BatchSettings,
    probes: &Vec<PathProbe>,
    offset: usize,
    limit: usize,
    listing: Result<Vec<DirEntryProbe>, String>,
) -> (r: Result<PreviewDirectoryPage, String>)
    requires
        probes@.len() == settings.input_sources@.len(),
    ensures
        page_result_view(r) == root_result(
            *settings,
            probes@,
            offset as int,
            limit as int,
            listing_view(listing),
        ),
{
    let sources = input_sources(settings, probes)?;
    let ghost srcs = source_views(sources@);
    if is_single_directory_source(&sources) {
        proof {
            assert(srcs[0] == source_view(sources@[0]));
        }
        return load_preview_directory_children(
            settings,
            probes,
            sources[0].path.as_str(),
            &probes[0],
            offset,
            limit,
            listing,
        );
    }
    let mut entries: Vec<PreviewDirectoryEntry> = Vec::new();
    let mut has_more = false;
    let n = sources.len();
    let mut i = offset;
    while i < n
        invariant_except_break
            n == sources@.len(),
            srcs == source_views(sources@),
            srcs.len() == probes@.len(),
            probes@.len() == settings.input_sources@.len(),
            offset <= i,
            entries@.len() <= limit,
            entries@.len() <= i - offset,
            !has_more,
            ({
                let (rows, more) = root_fold(*settings, probes@, srcs, i as int, (limit - entries@.len()) as nat);
                root_fold(*settings, probes@, srcs, offset as int, limit as nat) == (entry_views(entries@) + rows, more)
            }),
        ensures
            root_fold(*settings, probes@, srcs, offset as int, limit as nat) == (
                entry_views(entries@),
                has_more,
            ),
            has_more ==> offset + limit <= n,
        decreases n - i,
    {
        if entries.len() >= limit {
            proof {
                assert(entry_views(entries@) + Seq::<(Seq<char>, Seq<char>, Seq<char>, Seq<char>)>::empty()
                    =~= entry_views(entries@));
            }
            has_more = true;
            break;
        }
        let sp = sources[i].path.as_str();
        proof {
            assert(srcs[i as int] == (sp@, sources@[i as int].kind));
        }
        let ghost before = entries@;
        match sources[i].kind {
            SourcePathKind::Directory => {
                let name = display_name_of(sp);
                entries.push(
                    PreviewDirectoryEntry {
                        kind: owned("directory"),
                        path: string_from_chars(chars_of(sp).as_slice()),
                        rel: string_from_chars(chars_of(name.as_str()).as_slice()),
                        name,
                    },
                );
            },
            SourcePathKind::File => {
                match preview_work_item_for_path(settings, probes, sp, &probes[i]) {
                    Ok(Some(item)) => {
                        entries.push(preview_entry_from_work_item(item));
                    },
                    _ => {},
                }
            },
        }
        proof {
            let room = (limit - before.len()) as nat;
            let (rows, more) = root_fold(*settings, probes@, srcs, i + 1, (limit - entries@.len()) as nat);
            match root_candidate(*settings, probes@, srcs[i as int], probes@[i as int]) {
                Some(v) => {
                    assert(entry_views(entries@) =~= entry_views(before).push(v));
                    assert(entry_views(before) + (seq![v] + rows) =~= entry_views(entries@) + rows);
                },
                None => {
                    assert(entries@ == before);
                },
            }
        }
        i = i + 1;
    }
    proof {
        if !has_more {
            assert(entry_views(entries@) + Seq::<(Seq<char>, Seq<char>, Seq<char>, Seq<char>)>::empty()
                =~= entry_views(entries@));
        }
    }
    let next_offset = if has_more {
        Some(offset + limit)
    } else {
        None
    };
    Ok(PreviewDirectoryPage { dir_path: None, entries, next_offset })
}

/// `limit` clamped to `1..=500`.
pub open spec fn clamp_limit(limit: int) -> int {
    if limit < 1 {
        1
    } else if limit > 500 {
        500
    } else {
        limit
    }
}

/// A page of the preview: the listing of `dir_path` when given, else the top level, after the
/// settings are checked; the page size is clamped to `1..=500`.
pub fn load_preview_directory_blocking(
    settings: &BatchSettings,
    probes: &Vec<PathProbe>,
    dir_path: Option<String>,
    dir_probe: &PathProbe,
    offset: usize,
    limit: usize,
    listing: Result<Vec<DirEntryProbe>, String>,
) -> (r: Result<PreviewDirectoryPage, String>)
    requires
        probes@.len() == settings.input_sources@.len(),
    ensures
        page_result_view(r) == match crate::sources::preview_settings_error(*settings, probes@) {
            Some(m) => Err(m),
            None => match dir_path {
                Some(d) => children_result(
                    *settings,
                    probes@,
                    d@,
                    dir_probe.kind,
                    offset as int,
                    clamp_limit(limit as int),
                    listing_view(listing),
                ),
                None => root_result(
                    *settings,
                    probes@,
                    offset as int,
                    clamp_limit(limit as int),
                    listing_view(listing),
                ),
            },
        },
{
    crate::sources::validate_preview_settings(settings, probes)?;
    let limit = if limit < 1 {
        1
    } else if limit > 500 {
        500
    } else {
        limit
    };
    match dir_path {
        Some(d) => load_preview_directory_children(
            settings,
            probes,
            d.as_str(),
            dir_probe,
            offset,
            limit,
            listing,
        ),
        None => load_preview_root_directory(settings, probes, offset, limit, listing),
    }
}

/// The abstract value of a preview tree item.
pub open spec fn tree_item_view(p: PreviewItem) -> (Seq<char>, Seq<char>, Seq<char>, Seq<Seq<char>>) {
    (p.path@, p.rel@, p.name@, p.segments@.map_values(|s: String| s@))
}

/// The tree entry of a work item.
pub open spec fn tree_item_spec(item: (Seq<char>, Seq<char>, Seq<char>, WorkKind)) -> (
    Seq<char>,
    Seq<char>,
    Seq<char>,
    Seq<Seq<char>>,
) {
    (item.0, item.1, display_name(item.1), segments(item.1))
}

/// The whole preview tree: the settings are checked, then every image the batch would process
/// is listed in path order.
pub fn load_preview_tree_blocking(
    settings: &BatchSettings,
    probes: &Vec<PathProbe>,
    walks: &Vec<Vec<WalkEntry>>,
) -> (r: Result<PreviewTree, String>)
    requires
        probes@.len() == settings.input_sources@.len(),
        walks@.len() == settings.input_sources@.len(),
    ensures
        match r {
            Err(e) => crate::sources::preview_settings_error(*settings, probes@) == Some(e@),
            Ok(tree) => crate::sources::preview_settings_error(*settings, probes@) is None
                && (sources_spec(settings.input_sources@, probes@) matches Ok(srcs) && exists|
                items: Seq<(Seq<char>, Seq<char>, Seq<char>, WorkKind)>|
                {
                    &&& items.to_multiset() == source_preview_items(
                        srcs,
                        walks@,
                        single_directory_spec(srcs),
                        settings.output_dir@,
                        settings.output_format,
                        srcs.len() as int,
                    ).to_multiset()
                    &&& sorted_by_rel(items)
                    &&& forall|k: Seq<Seq<char>>| #[trigger] run_of(items, k) == run_of(
                        source_preview_items(
                            srcs,
                            walks@,
                            single_directory_spec(srcs),
                            settings.output_dir@,
                            settings.output_format,
                            srcs.len() as int,
                        ),
                        k,
                    )
                    &&& tree.items@.map_values(|p: PreviewItem| tree_item_view(p)) == items.map_values(
                        |it: (Seq<char>, Seq<char>, Seq<char>, WorkKind)| tree_item_spec(it),
                    )
                }),
        },
{
    crate::sources::validate_preview_settings(settings, probes)?;
    let items = match collect_preview_work_items(settings, probes, walks) {
        Ok(v) => v,
        Err(e) => {
            return Err(e);
        },
    };
    let mut out: Vec<PreviewItem> = Vec::new();
    let n = items.len();
    for i in 0..n
        invariant
            n == items@.len(),
            out@.map_values(|p: PreviewItem| tree_item_view(p)) == item_views(items@).take(i as int).map_values(
                |it: (Seq<char>, Seq<char>, Seq<char>, WorkKind)| tree_item_spec(it),
            ),
    {
        let p = preview_item_of(&items[i]);
        let ghost before = out@;
        assert(tree_item_view(p) == tree_item_spec(item_views(items@)[i as int]));
        out.push(p);
        assert(out@.map_values(|p: PreviewItem| tree_item_view(p)) =~= before.map_values(
            |p: PreviewItem| tree_item_view(p),
        ).push(tree_item_view(p)));
        assert(out@.map_values(|p: PreviewItem| tree_item_view(p)) =~= item_views(items@).take(i + 1).map_values(
            |it: (Seq<char>, Seq<char>, Seq<char>, WorkKind)| tree_item_spec(it),
        ));
    }
    assert(item_views(items@).take(n as int) == item_views(items@));
    Ok(PreviewTree { items: out })
}

proof fn lemma_collect_rows_len(
    settings: BatchSettings,
    probes: Seq<PathProbe>,
    es: Seq<DirEntryProbe>,
    m: nat,
)
    ensures
        collect_rows(settings, probes, es, m) matches Ok(b) ==> b.len() <= m,
    decreases es.len(),
{
    if m > 0 && es.len() > 0 {
        lemma_collect_rows_len(settings, probes, es.drop_first(), m);
        lemma_collect_rows_len(settings, probes, es.drop_first(), (m - 1) as nat);
    }
}

proof fn lemma_collect_rows_prefix(
    settings: BatchSettings,
    probes: Seq<PathProbe>,
    es: Seq<DirEntryProbe>,
    k: nat,
    m: nat,
)
    requires
        k <= m,
        collect_rows(settings, probes, es, m) is Ok,
    ensures
        collect_rows(settings, probes, es, m)->Ok_0.len() <= m,
        collect_rows(settings, probes, es, k) == Ok::<
            Seq<(Seq<char>, Seq<char>, Seq<char>, Seq<char>)>,
            Seq<char>,
        >(
            collect_rows(settings, probes, es, m)->Ok_0.take(
                if k <= collect_rows(settings, probes, es, m)->Ok_0.len() {
                    k as int
                } else {
                    collect_rows(settings, probes, es, m)->Ok_0.len() as int
                },
            ),
        ),
    decreases es.len(),
{
    let b = collect_rows(settings, probes, es, m)->Ok_0;
    lemma_collect_rows_len(settings, probes, es, m);
    if k == 0 {
        assert(b.take(0) =~= Seq::<(Seq<char>, Seq<char>, Seq<char>, Seq<char>)>::empty());
    } else if es.len() == 0 {
        assert(b.take(0) =~= b);
    } else {
        match child_candidate(settings, probes, es[0]) {
            Err(_) => {},
            Ok(None) => {
                lemma_collect_rows_prefix(settings, probes, es.drop_first(), k, m);
            },
            Ok(Some(v)) => {
                lemma_collect_rows_prefix(
                    settings,
                    probes,
                    es.drop_first(),
                    (k - 1) as nat,
                    (m - 1) as nat,
                );
                let rest = collect_rows(settings, probes, es.drop_first(), (m - 1) as nat)->Ok_0;
                let t = if k - 1 <= rest.len() {
                    (k - 1) as int
                } else {
                    rest.len() as int
                };
                assert(seq![v] + rest.take(t) =~= (seq![v] + rest).take(t + 1));
            },
        }
    }
}

/// Consecutive pages of a directory tile its listing: the page at `offset` followed by the page
/// right after it holds exactly the rows of one page covering both, with the same next offset.
pub proof fn lemma_directory_pages_tile(
    settings: BatchSettings,
    probes: Seq<PathProbe>,
    es: Seq<DirEntryProbe>,
    offset: int,
    limit: int,
    limit2: int,
    first: Seq<(Seq<char>, Seq<char>, Seq<char>, Seq<char>)>,
    second: Seq<(Seq<char>, Seq<char>, Seq<char>, Seq<char>)>,
    next2: Option<int>,
)
    requires
        0 <= offset,
        0 <= limit,
        0 <= limit2,
        children_page_spec(settings, probes, es, offset, limit) == Ok::<
            (Seq<(Seq<char>, Seq<char>, Seq<char>, Seq<char>)>, Option<int>),
            Seq<char>,
        >((first, Some(offset + limit))),
        children_page_spec(settings, probes, es, offset + limit, limit2) == Ok::<
            (Seq<(Seq<char>, Seq<char>, Seq<char>, Seq<char>)>, Option<int>),
            Seq<char>,
        >((second, next2)),
    ensures
        children_page_spec(settings, probes, es, offset, limit + limit2) == Ok::<
            (Seq<(Seq<char>, Seq<char>, Seq<char>, Seq<char>)>, Option<int>),
            Seq<char>,
        >((first + second, next2)),
{
    let k = (offset + limit + 1) as nat;
    let m = (offset + limit + limit2 + 1) as nat;
    lemma_collect_rows_prefix(settings, probes, es, k, m);
    let r1 = collect_rows(settings, probes, es, k)->Ok_0;
    let r2 = collect_rows(settings, probes, es, m)->Ok_0;
    assert(r1.len() > offset + limit);
    assert(r2.len() >= k);
    assert(r1 =~= r2.take(k as int));
    assert(first =~= r2.subrange(offset, offset + limit));
    assert(first + second =~= page_rows(r2, offset, limit + limit2));
}

/// The source claims a path: a file source that is the same file, or a directory source that
/// contains it.
pub open spec fn source_claims(
    src: (Seq<char>, SourcePathKind),
    probe: PathProbe,
    path: Seq<char>,
    path_canon: Option<Seq<char>>,
) -> bool {
    match src.1 {
        SourcePathKind::File => same_file(src.0, opt_view(probe.canonical), path, path_canon),
        SourcePathKind::Directory => path_starts_with(path, src.0),
    }
}

proof fn lemma_rel_search_skip(
    srcs: Seq<(Seq<char>, SourcePathKind)>,
    probes: Seq<PathProbe>,
    path: Seq<char>,
    path_canon: Option<Seq<char>>,
    single: bool,
    j: int,
    i: int,
)
    requires
        0 <= j <= i < srcs.len(),
        forall|m: int| j <= m < i ==> !source_claims(srcs[m], probes[m], path, path_canon),
    ensures
        rel_search(srcs, probes, path, path_canon, single, j) == rel_search(
            srcs,
            probes,
            path,
            path_canon,
            single,
            i,
        ),
    decreases i - j,
{
    if j < i {
        assert(!source_claims(srcs[j], probes[j], path, path_canon));
        lemma_rel_search_skip(srcs, probes, path, path_canon, single, j + 1, i);
    }
}

/// The relative path the preview gives a file inside a directory source is the one the batch
/// writes it under, when that directory is the first source claiming the file and has a name
/// (or is the only source); a file with a hidden component is refused by both.
pub proof fn lemma_preview_rel_agrees_with_batch(
    srcs: Seq<(Seq<char>, SourcePathKind)>,
    probes: Seq<PathProbe>,
    path: Seq<char>,
    path_canon: Option<Seq<char>>,
    single: bool,
    i: int,
)
    requires
        0 <= i < srcs.len(),
        srcs[i].1 == SourcePathKind::Directory,
        path_starts_with(path, srcs[i].0),
        forall|m: int| 0 <= m < i ==> !source_claims(srcs[m], probes[m], path, path_canon),
        !single ==> file_name(srcs[i].0) is Some,
        !contains_seq(name_or_empty(path), temp_marker()),
    ensures
        rel_search(srcs, probes, path, path_canon, single, 0) == match entry_rel_spec(
            srcs[i].0,
            directory_prefix_spec(single, srcs[i].0),
            path,
            true,
        ) {
            Some(rel) => Ok::<Seq<char>, Seq<char>>(rel),
            None => Err(hidden_path_message()),
        },
{
    lemma_rel_search_skip(srcs, probes, path, path_canon, single, 0, i);
}

} // verus!
