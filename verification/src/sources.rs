//! Input sources as the file system reports them, and the validation of a batch's settings.
use vstd::prelude::*;
use crate::paths::{path_starts_with, path_starts_with_chars, same_path, same_path_chars};
use crate::settings::{
    blank, dimension_error, in_range, is_blank, max_side_message, validate_dimensions,
    BatchSettings,
};
use crate::text::{chars_of, extend_chars, owned, string_from_chars};

verus! {

/// What a path is on disk, following links.
#[derive(Clone, Copy, Debug, PartialEq, Eq, Structural)]
pub enum SourcePathKind {
    File,
    Directory,
}

/// What a source entry is reported as to the user.
#[derive(Clone, Copy, Debug, PartialEq, Eq, Structural)]
pub enum SourceKind {
    File,
    Directory,
    Missing,
}

/// A source path with the kind it was classified as.
#[derive(Clone, Debug)]
pub struct SourceEntry {
    pub path: String,
    pub kind: SourceKind,
}

/// What the file system reports about a path: its kind, if it exists as a file or directory,
/// and its canonical form, if it can be resolved.
#[derive(Clone, Debug)]
pub struct PathProbe {
    pub kind: Option<SourcePathKind>,
    pub canonical: Option<String>,
}

/// An input source that exists.
#[derive(Clone, Debug)]
pub struct InputSource {
    pub path: String,
    pub kind: SourcePathKind,
}

/// The user-facing kind of a probed path.
pub open spec fn source_kind_of(kind: Option<SourcePathKind>) -> SourceKind {
    match kind {
        Some(SourcePathKind::File) => SourceKind::File,
        Some(SourcePathKind::Directory) => SourceKind::Directory,
        None => SourceKind::Missing,
    }
}

/// Pairs each path with the kind its probe reports; missing paths are reported as such.
pub fn classify_sources(paths: Vec<String>, probes: &Vec<PathProbe>) -> (out: Vec<SourceEntry>)
    requires
        probes@.len() == paths@.len(),
    ensures
        out@.len() == paths@.len(),
        forall|i: int|
            0 <= i < paths@.len() ==> (#[trigger] out@[i]).path@ == paths@[i]@ && out@[i].kind
                == source_kind_of(probes@[i].kind),
{
    let mut out: Vec<SourceEntry> = Vec::new();
    let n = paths.len();
    for i in 0..n
        invariant
            n == paths@.len(),
            probes@.len() == n,
            out@.len() == i,
            forall|k: int|
                0 <= k < i ==> (#[trigger] out@[k]).path@ == paths@[k]@ && out@[k].kind
                    == source_kind_of(probes@[k].kind),
    {
        let kind = match probes[i].kind {
            Some(SourcePathKind::File) => SourceKind::File,
            Some(SourcePathKind::Directory) => SourceKind::Directory,
            None => SourceKind::Missing,
        };
        let path = paths[i].clone();
        out.push(SourceEntry { path, kind });
    }
    out
}

/// The message for a source that does not exist.
pub open spec fn missing_source_message(path: Seq<char>) -> Seq<char> {
    "输入来源不存在: "@ + path
}

/// Every probe reports an existing file or directory.
pub open spec fn all_present(probes: Seq<PathProbe>) -> bool {
    forall|i: int| 0 <= i < probes.len() ==> (#[trigger] probes[i]).kind is Some
}

/// `i` is the first probe that reports a missing path.
pub open spec fn is_first_missing(probes: Seq<PathProbe>, i: int) -> bool {
    0 <= i < probes.len() && probes[i].kind is None && forall|j: int|
        0 <= j < i ==> (#[trigger] probes[j]).kind is Some
}

/// The abstract value of an input source: its path and kind.
pub open spec fn source_view(s: InputSource) -> (Seq<char>, SourcePathKind) {
    (s.path@, s.kind)
}

/// The input sources of a batch: every configured path with its kind, or the message for the
/// first path that does not exist.
pub open spec fn sources_spec(paths: Seq<String>, probes: Seq<PathProbe>) -> Result<
    Seq<(Seq<char>, SourcePathKind)>,
    Seq<char>,
> {
    if all_present(probes) {
        Ok(Seq::new(paths.len(), |i: int| (paths[i]@, probes[i].kind->0)))
    } else {
        let i = choose|i: int| is_first_missing(probes, i);
        Err(missing_source_message(paths[i]@))
    }
}

proof fn lemma_first_missing_unique(probes: Seq<PathProbe>, i: int)
    requires
        is_first_missing(probes, i),
    ensures
        (choose|j: int| is_first_missing(probes, j)) == i,
        !all_present(probes),
{
    let j = choose|j: int| is_first_missing(probes, j);
    assert(is_first_missing(probes, j));
    if j < i {
        assert(probes[j].kind is Some);
    }
    if i < j {
        assert(probes[i].kind is Some);
    }
}

/// Resolves each configured source against its probe.
pub fn input_sources(settings: &BatchSettings, probes: &Vec<PathProbe>) -> (r: Result<
    Vec<InputSource>,
    String,
>)
    requires
        probes@.len() == settings.input_sources@.len(),
    ensures
        match r {
            Ok(v) => sources_spec(settings.input_sources@, probes@) == Ok::<
                Seq<(Seq<char>, SourcePathKind)>,
                Seq<char>,
            >(v@.map_values(|s: InputSource| source_view(s))),
            Err(e) => sources_spec(settings.input_sources@, probes@) == Err::<
                Seq<(Seq<char>, SourcePathKind)>,
                Seq<char>,
            >(e@),
        },
{
    let n = settings.input_sources.len();
    let mut sources: Vec<InputSource> = Vec::new();
    for i in 0..n
        invariant
            n == settings.input_sources@.len(),
            probes@.len() == n,
            sources@.len() == i,
            forall|k: int| 0 <= k < i ==> (#[trigger] probes@[k]).kind is Some,
            forall|k: int|
                0 <= k < i ==> source_view(#[trigger] sources@[k]) == (
                    settings.input_sources@[k]@,
                    probes@[k].kind->0,
                ),
    {
        match probes[i].kind {
            Some(kind) => {
                let path = settings.input_sources[i].clone();
                sources.push(InputSource { path, kind });
            },
            None => {
                let mut msg = chars_of("输入来源不存在: ");
                let p = chars_of(settings.input_sources[i].as_str());
                extend_chars(&mut msg, p.as_slice());
                proof {
                    assert(is_first_missing(probes@, i as int));
                    lemma_first_missing_unique(probes@, i as int);
                }
                return Err(string_from_chars(msg.as_slice()));
            },
        }
    }
    assert(sources@.map_values(|s: InputSource| source_view(s)) =~= Seq::new(
        n as nat,
        |i: int| (settings.input_sources@[i]@, probes@[i].kind->0),
    ));
    Ok(sources)
}

/// Two paths denote the same file: their canonical forms are equal when both resolve, else the
/// paths themselves are.
pub open spec fn same_file(
    left: Seq<char>,
    left_canon: Option<Seq<char>>,
    right: Seq<char>,
    right_canon: Option<Seq<char>>,
) -> bool {
    match (left_canon, right_canon) {
        (Some(a), Some(b)) => same_path(a, b),
        _ => same_path(left, right),
    }
}

/// The view of an optional string.
pub open spec fn opt_view(o: Option<String>) -> Option<Seq<char>> {
    match o {
        Some(s) => Some(s@),
        None => None,
    }
}

/// Whether two probed paths denote the same file.
pub fn same_file_path(left: &str, left_probe: &PathProbe, right: &str, right_probe: &PathProbe) -> (r:
    bool)
    ensures
        r == same_file(left@, opt_view(left_probe.canonical), right@, opt_view(right_probe.canonical)),
{
    match (&left_probe.canonical, &right_probe.canonical) {
        (Some(a), Some(b)) => {
            let ac = chars_of(a.as_str());
            let bc = chars_of(b.as_str());
            same_path_chars(ac.as_slice(), bc.as_slice())
        },
        _ => {
            let ac = chars_of(left);
            let bc = chars_of(right);
            same_path_chars(ac.as_slice(), bc.as_slice())
        },
    }
}

/// A resolved output path lies strictly inside a resolved input directory.
pub open spec fn inside(input: Seq<char>, output: Seq<char>) -> bool {
    !same_path(output, input) && path_starts_with(output, input)
}

/// Whether the resolved output path lies strictly inside the resolved input directory.
pub fn output_inside_input(input: &str, output: &str) -> (r: bool)
    ensures
        r == inside(input@, output@),
{
    let i = chars_of(input);
    let o = chars_of(output);
    !same_path_chars(o.as_slice(), i.as_slice()) && path_starts_with_chars(
        o.as_slice(),
        i.as_slice(),
    )
}

/// No input source was given.
pub open spec fn no_input_message() -> Seq<char> {
    "请选择输入来源"@
}

/// No output directory was given.
pub open spec fn no_output_message() -> Seq<char> {
    "请选择输出目录"@
}

/// Quality out of range.
pub open spec fn quality_message() -> Seq<char> {
    "质量必须在 1 到 100 之间"@
}

/// Concurrency out of range.
pub open spec fn concurrency_message() -> Seq<char> {
    "并发数必须在 1 到 128 之间"@
}

/// Output inside an input directory.
pub open spec fn output_inside_message() -> Seq<char> {
    "输出目录不能位于输入目录内部，请另选位置"@
}

/// Some directory source contains the resolved output path.
pub open spec fn output_in_some_directory(
    srcs: Seq<(Seq<char>, SourcePathKind)>,
    resolved_inputs: Seq<String>,
    resolved_output: Seq<char>,
) -> bool {
    exists|i: int|
        0 <= i < srcs.len() && srcs[i].1 == SourcePathKind::Directory && inside(
            (#[trigger] resolved_inputs[i])@,
            resolved_output,
        )
}

/// The first rule a batch breaks, in the order the checks run.
pub open spec fn settings_error(
    s: BatchSettings,
    probes: Seq<PathProbe>,
    resolved_inputs: Seq<String>,
    resolved_output: Seq<char>,
) -> Option<Seq<char>> {
    match sources_spec(s.input_sources@, probes) {
        Err(e) => Some(e),
        Ok(srcs) => if srcs.len() == 0 {
            Some(no_input_message())
        } else if is_blank(s.output_dir@) {
            Some(no_output_message())
        } else if dimension_error(s) is Some {
            dimension_error(s)
        } else if !in_range(s.max_side as int, 1, 50000) {
            Some(max_side_message())
        } else if !in_range(s.quality as int, 1, 100) {
            Some(quality_message())
        } else if !in_range(s.concurrency as int, 1, 128) {
            Some(concurrency_message())
        } else if output_in_some_directory(srcs, resolved_inputs, resolved_output) {
            Some(output_inside_message())
        } else {
            None
        },
    }
}

/// Checks a batch before it starts. `resolved_inputs[i]` is the canonical form of the `i`-th
/// source (or the source itself), `resolved_output` the output path resolved through its
/// nearest existing ancestor.
pub fn validate_settings(
    settings: &BatchSettings,
    probes: &Vec<PathProbe>,
    resolved_inputs: &Vec<String>,
    resolved_output: &str,
) -> (r: Result<(), String>)
    requires
        probes@.len() == settings.input_sources@.len(),
        resolved_inputs@.len() == settings.input_sources@.len(),
    ensures
        r is Ok <==> settings_error(*settings, probes@, resolved_inputs@, resolved_output@) is None,
        r matches Err(e) ==> settings_error(*settings, probes@, resolved_inputs@, resolved_output@)
            == Some(e@),
{
    let sources = input_sources(settings, probes)?;
    let ghost srcs = sources@.map_values(|s: InputSource| source_view(s));
    if sources.len() == 0 {
        return Err(owned("请选择输入来源"));
    }
    if blank(settings.output_dir.as_str()) {
        return Err(owned("请选择输出目录"));
    }
    validate_dimensions(settings)?;
    if settings.max_side < 1 || settings.max_side > 50000 {
        return Err(owned("最长边必须在 1 到 50000 之间"));
    }
    if settings.quality < 1 || settings.quality > 100 {
        return Err(owned("质量必须在 1 到 100 之间"));
    }
    if settings.concurrency < 1 || settings.concurrency > 128 {
        return Err(owned("并发数必须在 1 到 128 之间"));
    }
    let n = sources.len();
    #[verifier::loop_isolation(false)]
    for i in 0..n
        invariant
            n == sources@.len(),
            srcs == sources@.map_values(|s: InputSource| source_view(s)),
            srcs.len() == resolved_inputs@.len(),
            forall|k: int|
                0 <= k < i ==> !(srcs[k].1 == SourcePathKind::Directory && inside(
                    (#[trigger] resolved_inputs@[k])@,
                    resolved_output@,
                )),
    {
        if sources[i].kind == SourcePathKind::Directory && output_inside_input(
            resolved_inputs[i].as_str(),
            resolved_output,
        ) {
            assert(srcs[i as int].1 == SourcePathKind::Directory);
            assert(inside(resolved_inputs@[i as int]@, resolved_output@));
            return Err(owned("输出目录不能位于输入目录内部，请另选位置"));
        }
    }
    Ok(())
}

/// The first rule a preview request breaks, in the order the checks run.
pub open spec fn preview_settings_error(s: BatchSettings, probes: Seq<PathProbe>) -> Option<
    Seq<char>,
> {
    if is_blank(s.output_dir@) {
        Some(no_output_message())
    } else {
        match sources_spec(s.input_sources@, probes) {
            Err(e) => Some(e),
            Ok(srcs) => if srcs.len() == 0 {
                Some(no_input_message())
            } else if dimension_error(s) is Some {
                dimension_error(s)
            } else if !in_range(s.max_side as int, 1, 50000) {
                Some(max_side_message())
            } else if !in_range(s.quality as int, 1, 100) {
                Some(quality_message())
            } else {
                None
            },
        }
    }
}

/// Checks the settings a preview is rendered with.
pub fn validate_preview_settings(settings: &BatchSettings, probes: &Vec<PathProbe>) -> (r: Result<
    (),
    String,
>)
    requires
        probes@.len() == settings.input_sources@.len(),
    ensures
        r is Ok <==> preview_settings_error(*settings, probes@) is None,
        r matches Err(e) ==> preview_settings_error(*settings, probes@) == Some(e@),
{
    if blank(settings.output_dir.as_str()) {
        return Err(owned("请选择输出目录"));
    }
    let sources = input_sources(settings, probes)?;
    if sources.len() == 0 {
        return Err(owned("请选择输入来源"));
    }
    validate_dimensions(settings)?;
    if settings.max_side < 1 || settings.max_side > 50000 {
        return Err(owned("最长边必须在 1 到 50000 之间"));
    }
    if settings.quality < 1 || settings.quality > 100 {
        return Err(owned("质量必须在 1 到 100 之间"));
    }
    Ok(())
}

/// An output path never lies strictly inside itself: choosing the input directory itself as
/// the output is not refused as "inside the input".
pub proof fn lemma_not_inside_itself(p: Seq<char>)
    ensures
        !inside(p, p),
{
}

/// Settings accepted for a batch are accepted for a preview as well.
pub proof fn lemma_batch_settings_preview_ok(
    s: BatchSettings,
    probes: Seq<PathProbe>,
    resolved_inputs: Seq<String>,
    resolved_output: Seq<char>,
)
    requires
        settings_error(s, probes, resolved_inputs, resolved_output) is None,
    ensures
        preview_settings_error(s, probes) is None,
{
}

} // verus!
