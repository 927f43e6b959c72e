//! File classification by name and the names and encoder options of output files.
use vstd::prelude::*;
use crate::paths::{
    extension, extension_chars, file_name, file_name_chars, file_stem, file_stem_chars,
    is_hidden, is_hidden_chars, join, join_chars, last_dot, lemma_file_name_of_join,
    lemma_file_name_parts, lemma_last_dot_append, lemma_no_sep_concat, lemma_set_extension_result,
    name_extension, name_stem, no_sep,
    parent, parent_chars, set_extension, set_extension_chars,
};
use crate::settings::OutputFormat;
use crate::text::{
    ascii_lowercase, chars_of, contains_chars, contains_seq, extend_chars, int_decimal,
    is_lower_ascii_seq, lemma_nat_decimal_digits, lower_equals, nat_decimal, occurs_at,
    string_from_chars,
};

verus! {

// ---------------------------------------------------------------------------------------------
// Names
// ---------------------------------------------------------------------------------------------

/// `jpg`
pub open spec fn ext_jpg() -> Seq<char> {
    seq!['j', 'p', 'g']
}

/// `jpeg`
pub open spec fn ext_jpeg() -> Seq<char> {
    seq!['j', 'p', 'e', 'g']
}

/// `png`
pub open spec fn ext_png() -> Seq<char> {
    seq!['p', 'n', 'g']
}

/// `webp`
pub open spec fn ext_webp() -> Seq<char> {
    seq!['w', 'e', 'b', 'p']
}

/// `bmp`
pub open spec fn ext_bmp() -> Seq<char> {
    seq!['b', 'm', 'p']
}

/// `tif`
pub open spec fn ext_tif() -> Seq<char> {
    seq!['t', 'i', 'f']
}

/// `tiff`
pub open spec fn ext_tiff() -> Seq<char> {
    seq!['t', 'i', 'f', 'f']
}

/// `gif`
pub open spec fn ext_gif() -> Seq<char> {
    seq!['g', 'i', 'f']
}

/// `jfif`
pub open spec fn ext_jfif() -> Seq<char> {
    seq!['j', 'f', 'i', 'f']
}

/// `pdf`
pub open spec fn ext_pdf() -> Seq<char> {
    seq!['p', 'd', 'f']
}

/// The raster extensions the batch processes, lower-case.
pub open spec fn image_exts() -> Seq<Seq<char>> {
    seq![
        ext_jpg(),
        ext_jpeg(),
        ext_png(),
        ext_webp(),
        ext_bmp(),
        ext_tif(),
        ext_tiff(),
        ext_gif(),
        ext_jfif(),
    ]
}

/// The lower-cased extension of a path.
pub open spec fn lower_extension(p: Seq<char>) -> Option<Seq<char>> {
    match extension(p) {
        Some(e) => Some(ascii_lowercase(e)),
        None => None,
    }
}

/// The path names a raster image the batch can process.
pub open spec fn supported_image(p: Seq<char>) -> bool {
    match lower_extension(p) {
        Some(e) => image_exts().contains(e),
        None => false,
    }
}

/// The path names a PDF file.
pub open spec fn pdf_file(p: Seq<char>) -> bool {
    lower_extension(p) == Some(ext_pdf())
}

/// `.pictrim-tmp-`, the marker of temporary outputs.
pub open spec fn temp_marker() -> Seq<char> {
    ".pictrim-tmp-"@
}

fn lower_ext_is(ext: &Option<Vec<char>>, lit: Vec<char>) -> (r: bool)
    requires
        is_lower_ascii_seq(lit@),
    ensures
        r == (match ext {
            Some(e) => ascii_lowercase(e@) == lit@,
            None => false,
        }),
{
    match ext {
        Some(e) => lower_equals(e.as_slice(), lit.as_slice()),
        None => false,
    }
}

proof fn lemma_lower_literals()
    ensures
        is_lower_ascii_seq(ext_jpg()),
        is_lower_ascii_seq(ext_jpeg()),
        is_lower_ascii_seq(ext_png()),
        is_lower_ascii_seq(ext_webp()),
        is_lower_ascii_seq(ext_bmp()),
        is_lower_ascii_seq(ext_tif()),
        is_lower_ascii_seq(ext_tiff()),
        is_lower_ascii_seq(ext_gif()),
        is_lower_ascii_seq(ext_jfif()),
        is_lower_ascii_seq(ext_pdf()),
{
}

/// Whether the path's extension, compared without ASCII case, is a supported raster format.
pub fn is_supported_image(path: &str) -> (r: bool)
    ensures
        r == supported_image(path@),
{
    proof {
        lemma_lower_literals();
    }
    let p = chars_of(path);
    let ext = extension_chars(p.as_slice());
    let r = lower_ext_is(&ext, vec!['j', 'p', 'g']) || lower_ext_is(&ext, vec!['j', 'p', 'e', 'g'])
        || lower_ext_is(&ext, vec!['p', 'n', 'g']) || lower_ext_is(&ext, vec!['w', 'e', 'b', 'p'])
        || lower_ext_is(&ext, vec!['b', 'm', 'p']) || lower_ext_is(&ext, vec!['t', 'i', 'f'])
        || lower_ext_is(&ext, vec!['t', 'i', 'f', 'f']) || lower_ext_is(&ext, vec!['g', 'i', 'f'])
        || lower_ext_is(&ext, vec!['j', 'f', 'i', 'f']);
    proof {
        match lower_extension(path@) {
            Some(e) => {
                if image_exts().contains(e) {
                    let i = choose|i: int| 0 <= i < image_exts().len() && image_exts()[i] == e;
                    assert(r);
                }
                if r {
                    assert(image_exts().contains(e)) by {
                        if e == ext_jpg() {
                            assert(image_exts()[0] == e);
                        } else if e == ext_jpeg() {
                            assert(image_exts()[1] == e);
                        } else if e == ext_png() {
                            assert(image_exts()[2] == e);
                        } else if e == ext_webp() {
                            assert(image_exts()[3] == e);
                        } else if e == ext_bmp() {
                            assert(image_exts()[4] == e);
                        } else if e == ext_tif() {
                            assert(image_exts()[5] == e);
                        } else if e == ext_tiff() {
                            assert(image_exts()[6] == e);
                        } else if e == ext_gif() {
                            assert(image_exts()[7] == e);
                        } else {
                            assert(image_exts()[8] == e);
                        }
                    }
                }
            },
            None => {},
        }
    }
    r
}

/// Whether the path's extension is `pdf` without regard to ASCII case.
pub fn is_pdf(path: &str) -> (r: bool)
    ensures
        r == pdf_file(path@),
{
    proof {
        lemma_lower_literals();
    }
    let p = chars_of(path);
    let ext = extension_chars(p.as_slice());
    lower_ext_is(&ext, vec!['p', 'd', 'f'])
}

/// Whether a file name is hidden (starts with a dot).
pub fn is_hidden_name(name: &str) -> (r: bool)
    ensures
        r == is_hidden(name@),
{
    let n = chars_of(name);
    is_hidden_chars(n.as_slice())
}

/// Whether a file name carries the temporary-output marker.
pub fn is_temp_output_name(name: &str) -> (r: bool)
    ensures
        r == contains_seq(name@, temp_marker()),
{
    let n = chars_of(name);
    let marker = chars_of(".pictrim-tmp-");
    contains_chars(n.as_slice(), marker.as_slice())
}

// ---------------------------------------------------------------------------------------------
// Output formats
// ---------------------------------------------------------------------------------------------

/// The format actually written: the requested one, or for `Keep` the source's own format among
/// PNG and WebP, JPEG otherwise.
pub open spec fn effective_format(src: Seq<char>, requested: OutputFormat) -> OutputFormat {
    if requested != OutputFormat::Keep {
        requested
    } else if lower_extension(src) == Some(ext_png()) {
        OutputFormat::Png
    } else if lower_extension(src) == Some(ext_webp()) {
        OutputFormat::Webp
    } else {
        OutputFormat::Jpg
    }
}

/// The format written for a source file under the requested format.
pub fn effective_output_format(src: &str, requested: OutputFormat) -> (r: OutputFormat)
    ensures
        r == effective_format(src@, requested),
{
    if requested != OutputFormat::Keep {
        return requested;
    }
    proof {
        lemma_lower_literals();
    }
    let p = chars_of(src);
    let ext = extension_chars(p.as_slice());
    if lower_ext_is(&ext, vec!['p', 'n', 'g']) {
        OutputFormat::Png
    } else if lower_ext_is(&ext, vec!['w', 'e', 'b', 'p']) {
        OutputFormat::Webp
    } else {
        OutputFormat::Jpg
    }
}

/// Multi-page containers are loaded whole when the output can hold all pages: any of GIF, WebP
/// and TIFF under `Keep`, and WebP sources under WebP output.
pub open spec fn all_pages(src: Seq<char>, requested: OutputFormat) -> bool {
    match lower_extension(src) {
        None => false,
        Some(e) => {
            let animated = e == ext_gif() || e == ext_webp() || e == ext_tif() || e == ext_tiff();
            animated && match requested {
                OutputFormat::Keep => true,
                OutputFormat::Webp => e == ext_webp(),
                OutputFormat::Jpg | OutputFormat::Png => false,
            }
        },
    }
}

/// Whether all pages of a multi-page source are loaded.
pub fn loads_all_pages(src: &str, requested: OutputFormat) -> (r: bool)
    ensures
        r == all_pages(src@, requested),
{
    proof {
        lemma_lower_literals();
    }
    let p = chars_of(src);
    let ext = extension_chars(p.as_slice());
    if ext.is_none() {
        return false;
    }
    let is_webp = lower_ext_is(&ext, vec!['w', 'e', 'b', 'p']);
    let animated = lower_ext_is(&ext, vec!['g', 'i', 'f']) || is_webp || lower_ext_is(
        &ext,
        vec!['t', 'i', 'f'],
    ) || lower_ext_is(&ext, vec!['t', 'i', 'f', 'f']);
    if !animated {
        return false;
    }
    match requested {
        OutputFormat::Keep => true,
        OutputFormat::Webp => is_webp,
        OutputFormat::Jpg | OutputFormat::Png => false,
    }
}

/// The loader argument for a source: the path, with `[n=-1]` appended when all pages load.
pub fn thumbnail_load_source(src: &str, requested: OutputFormat) -> (r: String)
    ensures
        r@ == if all_pages(src@, requested) {
            src@ + "[n=-1]"@
        } else {
            src@
        },
{
    let mut out = chars_of(src);
    if loads_all_pages(src, requested) {
        let suffix = chars_of("[n=-1]");
        extend_chars(&mut out, suffix.as_slice());
    }
    string_from_chars(out.as_slice())
}

/// The save argument for a path: the path followed by the encoder options of the format.
pub open spec fn save_path_spec(dst: Seq<char>, format: OutputFormat, quality: int) -> Seq<
    char,
> {
    match format {
        OutputFormat::Jpg => dst + "[Q="@ + int_decimal(quality) + ",strip,interlace]"@,
        OutputFormat::Webp => dst + "[Q="@ + int_decimal(quality) + ",strip]"@,
        OutputFormat::Png => dst + "[compression=6,strip]"@,
        OutputFormat::Keep => dst,
    }
}

/// The in-memory encoder suffix of a format.
pub open spec fn buffer_suffix_spec(format: OutputFormat, quality: int) -> Seq<char> {
    match format {
        OutputFormat::Jpg => ".jpg"@ + "[Q="@ + int_decimal(quality) + ",strip,interlace]"@,
        OutputFormat::Webp => ".webp"@ + "[Q="@ + int_decimal(quality) + ",strip]"@,
        OutputFormat::Png => ".png[compression=6,strip]"@,
        OutputFormat::Keep => ".jpg"@,
    }
}

fn push_quality_options(out: &mut Vec<char>, quality: i32, tail: &str)
    ensures
        final(out)@ == old(out)@ + "[Q="@ + int_decimal(quality as int) + tail@,
{
    let open = chars_of("[Q=");
    extend_chars(out, open.as_slice());
    let digits = crate::text::decimal_chars(quality as i64);
    extend_chars(out, digits.as_slice());
    let rest = chars_of(tail);
    extend_chars(out, rest.as_slice());
}

/// The file name with encoder options that the image writer receives.
pub fn save_path_with_options(dst: &str, format: OutputFormat, quality: i32) -> (r: String)
    ensures
        r@ == save_path_spec(dst@, format, quality as int),
{
    let mut out = chars_of(dst);
    match format {
        OutputFormat::Jpg => push_quality_options(&mut out, quality, ",strip,interlace]"),
        OutputFormat::Webp => push_quality_options(&mut out, quality, ",strip]"),
        OutputFormat::Png => {
            let opts = chars_of("[compression=6,strip]");
            extend_chars(&mut out, opts.as_slice());
        },
        OutputFormat::Keep => {},
    }
    string_from_chars(out.as_slice())
}

/// The suffix with encoder options used to encode a preview in memory.
pub fn buffer_suffix_with_options(format: OutputFormat, quality: i32) -> (r: String)
    ensures
        r@ == buffer_suffix_spec(format, quality as int),
{
    let mut out: Vec<char> = Vec::new();
    match format {
        OutputFormat::Jpg => {
            let head = chars_of(".jpg");
            extend_chars(&mut out, head.as_slice());
            push_quality_options(&mut out, quality, ",strip,interlace]");
        },
        OutputFormat::Webp => {
            let head = chars_of(".webp");
            extend_chars(&mut out, head.as_slice());
            push_quality_options(&mut out, quality, ",strip]");
        },
        OutputFormat::Png => {
            let all = chars_of(".png[compression=6,strip]");
            extend_chars(&mut out, all.as_slice());
        },
        OutputFormat::Keep => {
            let all = chars_of(".jpg");
            extend_chars(&mut out, all.as_slice());
        },
    }
    assert(out@ =~= buffer_suffix_spec(format, quality as int));
    string_from_chars(out.as_slice())
}

/// The MIME type of an encoded format.
pub fn mime_for_output_format(format: OutputFormat) -> (r: &'static str)
    ensures
        r@ == match format {
            OutputFormat::Jpg | OutputFormat::Keep => "image/jpeg"@,
            OutputFormat::Png => "image/png"@,
            OutputFormat::Webp => "image/webp"@,
        },
{
    match format {
        OutputFormat::Jpg | OutputFormat::Keep => "image/jpeg",
        OutputFormat::Png => "image/png",
        OutputFormat::Webp => "image/webp",
    }
}

/// The extension text of a format; `pdf` for `Keep`.
pub open spec fn format_extension_text(format: OutputFormat) -> Seq<char> {
    match format {
        OutputFormat::Jpg => "jpg"@,
        OutputFormat::Png => "png"@,
        OutputFormat::Webp => "webp"@,
        OutputFormat::Keep => "pdf"@,
    }
}

/// The extension of files extracted in a format; `pdf` for `Keep`.
pub fn output_format_extension(format: OutputFormat) -> (r: &'static str)
    ensures
        r@ == format_extension_text(format),
{
    match format {
        OutputFormat::Jpg => "jpg",
        OutputFormat::Png => "png",
        OutputFormat::Webp => "webp",
        OutputFormat::Keep => "pdf",
    }
}

// ---------------------------------------------------------------------------------------------
// Output paths
// ---------------------------------------------------------------------------------------------

/// The extension an output format imposes, if any.
pub open spec fn format_extension(format: OutputFormat) -> Option<Seq<char>> {
    match format {
        OutputFormat::Jpg => Some(ext_jpg()),
        OutputFormat::Png => Some(ext_png()),
        OutputFormat::Webp => Some(ext_webp()),
        OutputFormat::Keep => None,
    }
}

/// Where a raster image with relative path `rel` is written.
pub open spec fn output_path_spec(output_dir: Seq<char>, rel: Seq<char>, format: OutputFormat) -> Seq<
    char,
> {
    let dst = join(output_dir, rel);
    match format_extension(format) {
        Some(e) => set_extension(dst, e),
        None => dst,
    }
}

/// The output path of a raster image: `rel` under the output directory, with the extension of
/// the output format unless the format is kept.
pub fn output_path(output_dir: &str, rel: &str, format: OutputFormat) -> (r: String)
    ensures
        r@ == output_path_spec(output_dir@, rel@, format),
{
    let d = chars_of(output_dir);
    let r = chars_of(rel);
    let dst = join_chars(d.as_slice(), r.as_slice());
    let out = match format {
        OutputFormat::Jpg => set_extension_chars(dst.as_slice(), vec!['j', 'p', 'g'].as_slice()),
        OutputFormat::Png => set_extension_chars(dst.as_slice(), vec!['p', 'n', 'g'].as_slice()),
        OutputFormat::Webp => set_extension_chars(
            dst.as_slice(),
            vec!['w', 'e', 'b', 'p'].as_slice(),
        ),
        OutputFormat::Keep => dst,
    };
    string_from_chars(out.as_slice())
}

/// The directory that receives the images extracted from the PDF at `rel`: the PDF's stem
/// (`pdf` when empty) inside its parent under the output directory.
pub open spec fn pdf_output_dir_spec(output_dir: Seq<char>, rel: Seq<char>) -> Seq<char> {
    let par = match parent(rel) {
        Some(q) => q,
        None => Seq::empty(),
    };
    let stem = match file_stem(rel) {
        Some(s) => if s.len() > 0 {
            s
        } else {
            ext_pdf()
        },
        None => ext_pdf(),
    };
    join(join(output_dir, par), stem)
}

/// The directory for images extracted from a PDF.
pub fn pdf_output_dir(output_dir: &str, rel: &str) -> (r: String)
    ensures
        r@ == pdf_output_dir_spec(output_dir@, rel@),
{
    let d = chars_of(output_dir);
    let r = chars_of(rel);
    let par = match parent_chars(r.as_slice()) {
        Some(q) => q,
        None => Vec::new(),
    };
    let stem = match file_stem_chars(r.as_slice()) {
        Some(s) => if s.len() > 0 {
            s
        } else {
            vec!['p', 'd', 'f']
        },
        None => vec!['p', 'd', 'f'],
    };
    let first = join_chars(d.as_slice(), par.as_slice());
    let out = join_chars(first.as_slice(), stem.as_slice());
    string_from_chars(out.as_slice())
}

/// The relative path of a file given directly as a source: its file name, or `file`.
pub open spec fn file_rel_spec(path: Seq<char>) -> Seq<char> {
    match file_name(path) {
        Some(n) => n,
        None => "file"@,
    }
}

/// The relative path under which a file source is written.
pub fn file_rel(path: &str) -> (r: String)
    ensures
        r@ == file_rel_spec(path@),
{
    let p = chars_of(path);
    match file_name_chars(p.as_slice()) {
        Some(n) => string_from_chars(n.as_slice()),
        None => crate::text::owned("file"),
    }
}

/// The temporary file beside `dst`: `<stem>.pictrim-tmp-<pid>-<count>[.<ext>]` in `dst`'s
/// parent (`.` when it has none); the stem is `pictrim` when empty.
pub open spec fn temp_output_path_spec(dst: Seq<char>, pid: int, count: int) -> Seq<char> {
    let par = match parent(dst) {
        Some(q) => q,
        None => seq!['.'],
    };
    let stem = match file_stem(dst) {
        Some(s) => if s.len() > 0 {
            s
        } else {
            "pictrim"@
        },
        None => "pictrim"@,
    };
    let base = stem + temp_marker() + int_decimal(pid) + seq!['-'] + int_decimal(count);
    let name = match extension(dst) {
        Some(e) => if e.len() > 0 {
            base + seq!['.'] + e
        } else {
            base
        },
        None => base,
    };
    join(par, name)
}

/// The temporary path an output is first written to, for process `pid` and sequence `count`.
pub fn temp_output_path(dst: &str, pid: u32, count: u64) -> (r: String)
    ensures
        r@ == temp_output_path_spec(dst@, pid as int, count as int),
{
    let d = chars_of(dst);
    let par = match parent_chars(d.as_slice()) {
        Some(q) => q,
        None => vec!['.'],
    };
    let mut name = match file_stem_chars(d.as_slice()) {
        Some(s) => if s.len() > 0 {
            s
        } else {
            chars_of("pictrim")
        },
        None => chars_of("pictrim"),
    };
    let marker = chars_of(".pictrim-tmp-");
    extend_chars(&mut name, marker.as_slice());
    crate::text::push_decimal(&mut name, pid as u64);
    name.push('-');
    crate::text::push_decimal(&mut name, count);
    match extension_chars(d.as_slice()) {
        Some(e) => if e.len() > 0 {
            name.push('.');
            extend_chars(&mut name, e.as_slice());
        },
        None => {},
    }
    let out = join_chars(par.as_slice(), name.as_slice());
    string_from_chars(out.as_slice())
}

proof fn lemma_digits_no_sep(n: nat)
    ensures
        no_sep(nat_decimal(n)),
        nat_decimal(n).len() >= 1,
{
    lemma_nat_decimal_digits(n);
    assert forall|i: int| 0 <= i < nat_decimal(n).len() implies nat_decimal(n)[i] != '/' by {
        assert('0' <= nat_decimal(n)[i] <= '9');
    }
}

/// A temporary output is always recognised as one, so scanning a directory never picks it up
/// as an input; and it keeps the extension of its destination, from which the encoder chooses
/// the format it writes.
pub proof fn lemma_temp_output_recognized(dst: Seq<char>, pid: nat, count: nat)
    ensures
        file_name(temp_output_path_spec(dst, pid as int, count as int)) matches Some(n)
            && contains_seq(n, temp_marker()),
        (extension(dst) matches Some(e) && e.len() > 0) ==> extension(
            temp_output_path_spec(dst, pid as int, count as int),
        ) == extension(dst),
{
    reveal_strlit(".pictrim-tmp-");
    reveal_strlit("pictrim");
    lemma_file_name_parts(dst);
    lemma_digits_no_sep(pid);
    lemma_digits_no_sep(count);
    let par = match parent(dst) {
        Some(q) => q,
        None => seq!['.'],
    };
    let stem = match file_stem(dst) {
        Some(s) => if s.len() > 0 {
            s
        } else {
            "pictrim"@
        },
        None => "pictrim"@,
    };
    let marker = temp_marker();
    let d1 = int_decimal(pid as int);
    let d2 = int_decimal(count as int);
    let base = stem + marker + d1 + seq!['-'] + d2;
    assert(no_sep(stem));
    assert(no_sep(marker));
    assert(no_sep(seq!['-']));
    lemma_no_sep_concat(stem, marker);
    lemma_no_sep_concat(stem + marker, d1);
    lemma_no_sep_concat(stem + marker + d1, seq!['-']);
    lemma_no_sep_concat(stem + marker + d1 + seq!['-'], d2);
    assert(stem.len() > 0);
    assert(base.subrange(stem.len() as int, (stem.len() + marker.len()) as int) =~= marker);
    let name = match extension(dst) {
        Some(e) => if e.len() > 0 {
            base + seq!['.'] + e
        } else {
            base
        },
        None => base,
    };
    match extension(dst) {
        Some(e) => if e.len() > 0 {
            assert(no_sep(seq!['.']));
            lemma_no_sep_concat(base, seq!['.']);
            lemma_no_sep_concat(base + seq!['.'], e);
            assert(name.subrange(stem.len() as int, (stem.len() + marker.len()) as int) =~= marker);
            lemma_last_dot_append(base, e);
            assert(last_dot(name) == base.len());
            assert(name.subrange(base.len() + 1int, name.len() as int) =~= e);
            assert(name_extension(name) == Some(e));
        },
        None => {},
    }
    assert(occurs_at(name, marker, stem.len() as int));
    assert(name.len() > 2);
    lemma_file_name_of_join(par, name);
}

/// A converted image keeps the file stem of its relative path and takes the extension of its
/// output format; under `Keep` it is written at its relative path under the output directory.
pub proof fn lemma_output_path_extension(output_dir: Seq<char>, rel: Seq<char>, format: OutputFormat)
    requires
        file_name(join(output_dir, rel)) is Some,
    ensures
        format == OutputFormat::Keep ==> output_path_spec(output_dir, rel, format) == join(
            output_dir,
            rel,
        ),
        format != OutputFormat::Keep ==> extension(output_path_spec(output_dir, rel, format))
            == format_extension(format) && file_stem(output_path_spec(output_dir, rel, format))
            == file_stem(join(output_dir, rel)),
{
    if format != OutputFormat::Keep {
        let e = format_extension(format)->0;
        assert(no_sep(e));
        assert(forall|i: int| 0 <= i < e.len() ==> e[i] != '.');
        lemma_set_extension_result(join(output_dir, rel), e);
    }
}

} // verus!
