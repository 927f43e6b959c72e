//! Work items: which files of the sources are processed, under which relative path, and where
//! their output goes.
use vstd::prelude::*;
use crate::formats::{
    file_rel, file_rel_spec, is_pdf, is_supported_image, is_temp_output_name, output_path,
    output_path_spec, pdf_file, pdf_output_dir, pdf_output_dir_spec, supported_image,
    temp_marker,
};
use crate::paths::{
    file_name, file_name_chars, has_hidden_segment, has_hidden_segment_chars, is_hidden,
    is_hidden_chars, join, join_chars, segments, segments_chars, strip_prefix,
    strip_prefix_chars, views,
};
use crate::settings::{BatchSettings, OutputFormat};
use crate::sources::{InputSource, SourcePathKind};
use crate::text::{chars_of, contains_chars, contains_seq, string_from_chars};

verus! {

/// How a discovered file is processed.
#[derive(Clone, Copy, Debug, PartialEq, Eq, Structural)]
pub enum WorkKind {
    RasterImage,
    Pdf,
    Other,
}

/// One file to process: where it is, its path relative to the batch, and its output.
#[derive(Clone, Debug)]
pub struct WorkItem {
    pub src: String,
    pub rel: String,
    pub dst: String,
    pub kind: WorkKind,
}

/// The abstract value of a work item.
pub open spec fn item_view(w: WorkItem) -> (Seq<char>, Seq<char>, Seq<char>, WorkKind) {
    (w.src@, w.rel@, w.dst@, w.kind)
}

/// The abstract values of a sequence of work items.
pub open spec fn item_views(v: Seq<WorkItem>) -> Seq<(Seq<char>, Seq<char>, Seq<char>, WorkKind)> {
    v.map_values(|w: WorkItem| item_view(w))
}

/// A file or directory met while walking a directory source.
#[derive(Clone, Debug)]
pub struct WalkEntry {
    pub path: String,
    pub is_file: bool,
}

/// The file name of a path, or the empty name.
pub open spec fn name_or_empty(p: Seq<char>) -> Seq<char> {
    match file_name(p) {
        Some(n) => n,
        None => Seq::empty(),
    }
}

/// A file whose name is hidden or marks a temporary output is never processed.
pub open spec fn excluded_name(p: Seq<char>) -> bool {
    is_hidden(name_or_empty(p)) || contains_seq(name_or_empty(p), temp_marker())
}

/// Raster images by extension, then PDFs, then everything else.
pub open spec fn work_kind_spec(src: Seq<char>) -> WorkKind {
    if supported_image(src) {
        WorkKind::RasterImage
    } else if pdf_file(src) {
        WorkKind::Pdf
    } else {
        WorkKind::Other
    }
}

/// Where the output of a work item goes: images under their output name, PDFs kept in place or
/// extracted into a directory, other files copied as they are.
pub open spec fn work_dst_spec(
    output_dir: Seq<char>,
    rel: Seq<char>,
    kind: WorkKind,
    format: OutputFormat,
) -> Seq<char> {
    match kind {
        WorkKind::RasterImage => output_path_spec(output_dir, rel, format),
        WorkKind::Pdf => if format == OutputFormat::Keep {
            join(output_dir, rel)
        } else {
            pdf_output_dir_spec(output_dir, rel)
        },
        WorkKind::Other => join(output_dir, rel),
    }
}

/// The work item for a file of the batch, if it is processed at all.
pub open spec fn file_work_item_spec(
    src: Seq<char>,
    rel: Seq<char>,
    output_dir: Seq<char>,
    settings: BatchSettings,
) -> Option<(Seq<char>, Seq<char>, Seq<char>, WorkKind)> {
    let kind = work_kind_spec(src);
    if excluded_name(src) {
        None
    } else if kind == WorkKind::Other && !settings.copy_non_images {
        None
    } else {
        Some((src, rel, work_dst_spec(output_dir, rel, kind, settings.output_format), kind))
    }
}

fn name_or_empty_chars(p: &[char]) -> (r: Vec<char>)
    ensures
        r@ == name_or_empty(p@),
{
    match file_name_chars(p) {
        Some(n) => n,
        None => Vec::new(),
    }
}

/// Whether a path's name excludes it from processing.
pub fn excluded_file_name(path: &str) -> (r: bool)
    ensures
        r == excluded_name(path@),
{
    let p = chars_of(path);
    let name = name_or_empty_chars(p.as_slice());
    let marker = chars_of(".pictrim-tmp-");
    is_hidden_chars(name.as_slice()) || contains_chars(name.as_slice(), marker.as_slice())
}

/// The work item for a file of the batch: `None` for hidden and temporary files, and for
/// files that are neither images nor PDFs unless they are copied.
pub fn file_work_item(src: &str, rel: String, output_dir: &str, settings: &BatchSettings) -> (r:
    Option<WorkItem>)
    ensures
        match r {
            Some(w) => file_work_item_spec(src@, rel@, output_dir@, *settings) == Some(
                item_view(w),
            ),
            None => file_work_item_spec(src@, rel@, output_dir@, *settings) is None,
        },
{
    if excluded_file_name(src) {
        return None;
    }
    let kind = if is_supported_image(src) {
        WorkKind::RasterImage
    } else if is_pdf(src) {
        WorkKind::Pdf
    } else {
        WorkKind::Other
    };
    if kind == WorkKind::Other && !settings.copy_non_images {
        return None;
    }
    let dst = match kind {
        WorkKind::RasterImage => output_path(output_dir, rel.as_str(), settings.output_format),
        WorkKind::Pdf => if settings.output_format == OutputFormat::Keep {
            let d = chars_of(output_dir);
            let r = chars_of(rel.as_str());
            string_from_chars(join_chars(d.as_slice(), r.as_slice()).as_slice())
        } else {
            pdf_output_dir(output_dir, rel.as_str())
        },
        WorkKind::Other => {
            let d = chars_of(output_dir);
            let r = chars_of(rel.as_str());
            string_from_chars(join_chars(d.as_slice(), r.as_slice()).as_slice())
        },
    };
    let src_owned = string_from_chars(chars_of(src).as_slice());
    Some(WorkItem { src: src_owned, rel, dst, kind })
}

/// A batch of exactly one directory source keeps paths relative to that directory; otherwise
/// directory contents are placed under the directory's name.
pub open spec fn single_directory_spec(sources: Seq<(Seq<char>, SourcePathKind)>) -> bool {
    sources.len() == 1 && sources[0].1 == SourcePathKind::Directory
}

/// Whether the batch consists of exactly one directory source.
pub fn is_single_directory_source(sources: &Vec<InputSource>) -> (r: bool)
    ensures
        r == single_directory_spec(sources@.map_values(|s: InputSource| crate::sources::source_view(s))),
{
    sources.len() == 1 && sources[0].kind == SourcePathKind::Directory
}

/// The prefix placed before paths inside a directory source.
pub open spec fn directory_prefix_spec(single: bool, root: Seq<char>) -> Option<Seq<char>> {
    if single {
        None
    } else {
        file_name(root)
    }
}

/// The prefix for the contents of the directory source `root`.
pub fn directory_source_prefix(single: bool, root: &str) -> (r: Option<String>)
    ensures
        match r {
            Some(p) => directory_prefix_spec(single, root@) == Some(p@),
            None => directory_prefix_spec(single, root@) is None,
        },
{
    if single {
        return None;
    }
    let p = chars_of(root);
    match file_name_chars(p.as_slice()) {
        Some(n) => Some(string_from_chars(n.as_slice())),
        None => None,
    }
}

/// The relative path of a walked entry: files only, not temporary outputs, strictly inside
/// the root with no hidden component, under `prefix` when there is one.
pub open spec fn entry_rel_spec(
    root: Seq<char>,
    prefix: Option<Seq<char>>,
    entry: Seq<char>,
    is_file: bool,
) -> Option<Seq<char>> {
    if !is_file || contains_seq(name_or_empty(entry), temp_marker()) {
        None
    } else {
        match strip_prefix(entry, root) {
            None => None,
            Some(inner) => if has_hidden_segment(inner) {
                None
            } else {
                match prefix {
                    Some(p) => Some(join(p, inner)),
                    None => Some(inner),
                }
            },
        }
    }
}

/// The view of an optional string.
pub open spec fn opt_str(o: Option<String>) -> Option<Seq<char>> {
    match o {
        Some(s) => Some(s@),
        None => None,
    }
}

/// The relative path of a walked entry, if it is processed.
pub fn directory_entry_rel(root: &str, prefix: &Option<String>, entry: &WalkEntry) -> (r: Option<
    String,
>)
    ensures
        match r {
            Some(v) => entry_rel_spec(root@, opt_str(*prefix), entry.path@, entry.is_file) == Some(
                v@,
            ),
            None => entry_rel_spec(root@, opt_str(*prefix), entry.path@, entry.is_file) is None,
        },
{
    if !entry.is_file {
        return None;
    }
    let e = chars_of(entry.path.as_str());
    let name = name_or_empty_chars(e.as_slice());
    let marker = chars_of(".pictrim-tmp-");
    if contains_chars(name.as_slice(), marker.as_slice()) {
        return None;
    }
    let r = chars_of(root);
    let inner = match strip_prefix_chars(e.as_slice(), r.as_slice()) {
        Some(i) => i,
        None => return None,
    };
    if has_hidden_segment_chars(inner.as_slice()) {
        return None;
    }
    match prefix {
        Some(p) => {
            let pc = chars_of(p.as_str());
            Some(string_from_chars(join_chars(pc.as_slice(), inner.as_slice()).as_slice()))
        },
        None => Some(string_from_chars(inner.as_slice())),
    }
}

/// The preview item for a file: raster images only, hidden and temporary files excluded.
pub open spec fn preview_file_item_spec(
    src: Seq<char>,
    rel: Seq<char>,
    output_dir: Seq<char>,
    format: OutputFormat,
) -> Option<(Seq<char>, Seq<char>, Seq<char>, WorkKind)> {
    if excluded_name(src) || !supported_image(src) {
        None
    } else {
        Some((src, rel, output_path_spec(output_dir, rel, format), WorkKind::RasterImage))
    }
}

/// The option as a sequence of zero or one elements.
pub open spec fn opt_seq<A>(o: Option<A>) -> Seq<A> {
    match o {
        Some(a) => seq![a],
        None => Seq::empty(),
    }
}

/// Appends the preview item of a file, if it has one.
pub fn push_preview_file_source(
    items: &mut Vec<WorkItem>,
    src: &str,
    rel: String,
    output_dir: &str,
    settings: &BatchSettings,
)
    ensures
        item_views(final(items)@) == item_views(old(items)@) + opt_seq(
            preview_file_item_spec(src@, rel@, output_dir@, settings.output_format),
        ),
{
    if excluded_file_name(src) || !is_supported_image(src) {
        assert(item_views(items@) =~= item_views(items@) + Seq::empty());
        return;
    }
    let dst = output_path(output_dir, rel.as_str(), settings.output_format);
    let src_owned = string_from_chars(chars_of(src).as_slice());
    let ghost before = items@;
    items.push(WorkItem { src: src_owned, rel, dst, kind: WorkKind::RasterImage });
    assert(item_views(items@) =~= item_views(before) + opt_seq(
        preview_file_item_spec(src@, rel@, output_dir@, settings.output_format),
    ));
}

/// The preview items of the entries walked under a directory source, in walk order.
pub open spec fn directory_preview_items(
    root: Seq<char>,
    prefix: Option<Seq<char>>,
    entries: Seq<WalkEntry>,
    output_dir: Seq<char>,
    format: OutputFormat,
) -> Seq<(Seq<char>, Seq<char>, Seq<char>, WorkKind)>
    decreases entries.len(),
{
    if entries.len() == 0 {
        Seq::empty()
    } else {
        let last = entries.last();
        let found = match entry_rel_spec(root, prefix, last.path@, last.is_file) {
            Some(rel) => opt_seq(preview_file_item_spec(last.path@, rel, output_dir, format)),
            None => Seq::empty(),
        };
        directory_preview_items(root, prefix, entries.drop_last(), output_dir, format) + found
    }
}

/// Appends the preview items of the entries walked under a directory source.
pub fn collect_preview_directory_source(
    items: &mut Vec<WorkItem>,
    root: &str,
    prefix: &Option<String>,
    output_dir: &str,
    settings: &BatchSettings,
    entries: &Vec<WalkEntry>,
)
    ensures
        item_views(final(items)@) == item_views(old(items)@) + directory_preview_items(
            root@,
            opt_str(*prefix),
            entries@,
            output_dir@,
            settings.output_format,
        ),
{
    let ghost start = items@;
    let n = entries.len();
    for i in 0..n
        invariant
            n == entries@.len(),
            item_views(items@) == item_views(start) + directory_preview_items(
                root@,
                opt_str(*prefix),
                entries@.take(i as int),
                output_dir@,
                settings.output_format,
            ),
    {
        assert(entries@.take(i + 1).drop_last() == entries@.take(i as int));
        assert(entries@.take(i + 1).last() == entries@[i as int]);
        let ghost mid = items@;
        match directory_entry_rel(root, prefix, &entries[i]) {
            Some(rel) => {
                push_preview_file_source(items, entries[i].path.as_str(), rel, output_dir, settings);
            },
            None => {},
        }
        assert(item_views(items@) =~= item_views(start) + directory_preview_items(
            root@,
            opt_str(*prefix),
            entries@.take(i + 1),
            output_dir@,
            settings.output_format,
        ));
    }
    assert(entries@.take(n as int) == entries@);
}

/// A batch counts as a single directory source only when it has exactly one source and that
/// source is a directory: a lone file source is not one, and neither is any batch of two or
/// more sources.
pub proof fn lemma_single_directory_source(sources: Seq<(Seq<char>, SourcePathKind)>, p: Seq<char>)
    ensures
        single_directory_spec(sources) ==> sources.len() == 1 && sources[0].1
            == SourcePathKind::Directory,
        sources.len() != 1 ==> !single_directory_spec(sources),
        single_directory_spec(seq![(p, SourcePathKind::Directory)]),
        !single_directory_spec(seq![(p, SourcePathKind::File)]),
{
}

} // verus!
