//! Preview images as sent to the user interface: encoded bytes in Base64 with their size and
//! type, and the before/after pair of a previewed file.
use vstd::prelude::*;
use crate::formats::supported_image;
use crate::preview::{preview_item_spec, preview_work_item_for_path};
use crate::settings::BatchSettings;
use crate::sources::{preview_settings_error, validate_preview_settings, PathProbe, SourcePathKind};
use crate::text::{chars_of, owned, string_from_chars};

verus! {

/// What the standard padded Base64 engine produces for `data`.
pub uninterp spec fn base64_standard(data: Seq<u8>) -> Seq<char>;

/// `base64::engine::general_purpose::STANDARD.encode(data)`: the standard alphabet with `=`
/// padding. Its result is named by `base64_standard`; its length, four characters per started
/// group of three bytes, is what the crate's `encoded_len` computes. The crate panics when that
/// length overflows `usize`, which the precondition excludes.
#[verifier::external_body]
fn encode_base64(data: &[u8]) -> (s: String)
    requires
        4 * ((data@.len() + 2) / 3) <= usize::MAX,
    ensures
        s@ == base64_standard(data@),
        s@.len() == 4 * ((data@.len() + 2) / 3),
{
    base64::Engine::encode(&base64::engine::general_purpose::STANDARD, data)
}

/// An image of the preview, encoded for display.
#[derive(Clone, Debug)]
pub struct PreviewImage {
    pub data: String,
    pub mime: String,
    pub width: i32,
    pub height: i32,
    pub bytes: u64,
}

/// The preview image of encoded bytes: their Base64 text, the given type, the given size in
/// pixels, and the given byte count.
pub fn encoded_preview_image(encoded: &[u8], mime: &str, width: i32, height: i32, bytes: u64) -> (p:
    PreviewImage)
    requires
        4 * ((encoded@.len() + 2) / 3) <= usize::MAX,
    ensures
        p.data@ == base64_standard(encoded@),
        p.data@.len() == 4 * ((encoded@.len() + 2) / 3),
        p.mime@ == mime@,
        p.width == width,
        p.height == height,
        p.bytes == bytes,
{
    PreviewImage { data: encode_base64(encoded), mime: owned(mime), width, height, bytes }
}

/// A previewed file: its relative path, the rendering of the file as it is and of its processed
/// result.
#[derive(Clone, Debug)]
pub struct PreviewPair {
    pub rel: String,
    pub before: PreviewImage,
    pub after: PreviewImage,
}

/// The view of a unit result.
pub open spec fn unit_view(r: Result<(), String>) -> Result<(), Seq<char>> {
    match r {
        Ok(()) => Ok(()),
        Err(e) => Err(e@),
    }
}

/// The relative path a preview is rendered for, or why it is refused: invalid settings, the
/// image library not ready, a missing or unsupported file, or a file outside the sources.
pub open spec fn preview_request_spec(
    settings: BatchSettings,
    probes: Seq<PathProbe>,
    ready: Result<(), Seq<char>>,
    src: Seq<char>,
    probe: PathProbe,
) -> Result<Seq<char>, Seq<char>> {
    match preview_settings_error(settings, probes) {
        Some(m) => Err(m),
        None => match ready {
            Err(m) => Err(m),
            Ok(()) => if probe.kind != Some(SourcePathKind::File) {
                Err("预览文件不存在"@)
            } else if !supported_image(src) {
                Err("不支持的图片格式"@)
            } else {
                match preview_item_spec(settings, probes, src, probe) {
                    None => Err("预览文件不在输入来源中"@),
                    Some(item) => Ok(item.1),
                }
            },
        },
    }
}

/// Checks a preview request and returns the relative path of the file.
pub fn check_preview_request(
    settings: &BatchSettings,
    probes: &Vec<PathProbe>,
    ready: &Result<(), String>,
    src_path: &str,
    src_probe: &PathProbe,
) -> (r: Result<String, String>)
    requires
        probes@.len() == settings.input_sources@.len(),
    ensures
        match r {
            Ok(rel) => preview_request_spec(*settings, probes@, unit_view(*ready), src_path@, *src_probe)
                == Ok::<Seq<char>, Seq<char>>(rel@),
            Err(e) => preview_request_spec(*settings, probes@, unit_view(*ready), src_path@, *src_probe)
                == Err::<Seq<char>, Seq<char>>(e@),
        },
{
    validate_preview_settings(settings, probes)?;
    match ready {
        Ok(()) => {},
        Err(e) => {
            return Err(string_from_chars(chars_of(e.as_str()).as_slice()));
        },
    }
    if src_probe.kind != Some(SourcePathKind::File) {
        return Err(owned("预览文件不存在"));
    }
    if !crate::formats::is_supported_image(src_path) {
        return Err(owned("不支持的图片格式"));
    }
    match preview_work_item_for_path(settings, probes, src_path, src_probe) {
        Ok(Some(item)) => Ok(item.rel),
        _ => Err(owned("预览文件不在输入来源中")),
    }
}

/// The view of a rendering.
pub open spec fn image_result_view(r: Result<PreviewImage, String>) -> Result<PreviewImage, Seq<char>> {
    match r {
        Ok(p) => Ok(p),
        Err(e) => Err(e@),
    }
}

/// The preview pair of a file: the request is checked first, then the renderings of the
/// unprocessed and of the processed image, whose errors are passed on in that order.
pub fn render_preview_blocking(
    settings: &BatchSettings,
    probes: &Vec<PathProbe>,
    ready: &Result<(), String>,
    src_path: &str,
    src_probe: &PathProbe,
    before: Result<PreviewImage, String>,
    after: Result<PreviewImage, String>,
) -> (r: Result<PreviewPair, String>)
    requires
        probes@.len() == settings.input_sources@.len(),
    ensures
        match preview_request_spec(*settings, probes@, unit_view(*ready), src_path@, *src_probe) {
            Err(m) => r matches Err(e) && e@ == m,
            Ok(rel) => match (before, after) {
                (Err(m), _) => r matches Err(e) && e == m,
                (Ok(_), Err(m)) => r matches Err(e) && e == m,
                (Ok(b), Ok(a)) => r matches Ok(p) && p.rel@ == rel && p.before == b && p.after == a,
            },
        },
{
    let rel = check_preview_request(settings, probes, ready, src_path, src_probe)?;
    let before = before?;
    let after = after?;
    Ok(PreviewPair { rel, before, after })
}

} // verus!
