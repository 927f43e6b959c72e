//! Batch settings, their enumerations, and the arithmetic that turns them into resize and crop
//! parameters.
use vstd::prelude::*;
use vstd::string::*;
use crate::text::owned;

verus! {

/// The image format written for each processed file.
#[derive(Clone, Copy, Debug, PartialEq, Eq, Structural)]
pub enum OutputFormat {
    Jpg,
    Png,
    Webp,
    Keep,
}

/// How the target size is derived from the settings.
#[derive(Clone, Copy, Debug, PartialEq, Eq, Structural)]
pub enum ResizeMode {
    FitLongestSide,
    FitBox,
    FitWidth,
    FitHeight,
    FixedCrop,
}

/// Horizontal anchor of a fixed crop.
#[derive(Clone, Copy, Debug, PartialEq, Eq, Structural)]
pub enum CropHorizontal {
    Left,
    Center,
    Right,
}

/// Vertical anchor of a fixed crop.
#[derive(Clone, Copy, Debug, PartialEq, Eq, Structural)]
pub enum CropVertical {
    Top,
    Center,
    Bottom,
}

/// Rotation applied before resizing; `Auto` follows the EXIF orientation.
#[derive(Clone, Copy, Debug, PartialEq, Eq, Structural)]
pub enum Rotation {
    Auto,
    Rotate0,
    Rotate90,
    Rotate180,
    Rotate270,
}

/// Everything the user configures for a batch.
#[derive(Clone, Debug)]
pub struct BatchSettings {
    pub input_sources: Vec<String>,
    pub output_dir: String,
    pub resize_mode: ResizeMode,
    pub max_side: i32,
    pub width: i32,
    pub height: i32,
    pub allow_upscale: bool,
    pub crop_horizontal: CropHorizontal,
    pub crop_vertical: CropVertical,
    pub rotation: Rotation,
    pub thumbnail: bool,
    pub quality: i32,
    pub concurrency: usize,
    pub output_format: OutputFormat,
    pub copy_non_images: bool,
    pub skip_existing: bool,
}

/// Largest accepted side length, width or height.
pub const MAX_DIMENSION: i32 = 50000;

/// `lo <= v <= hi`.
pub open spec fn in_range(v: int, lo: int, hi: int) -> bool {
    lo <= v <= hi
}

/// The message for a longest side out of range.
pub open spec fn max_side_message() -> Seq<char> {
    "最长边必须在 1 到 50000 之间"@
}

/// The message for a width out of range.
pub open spec fn width_message() -> Seq<char> {
    "宽度必须在 1 到 50000 之间"@
}

/// The message for a height out of range.
pub open spec fn height_message() -> Seq<char> {
    "高度必须在 1 到 50000 之间"@
}

/// The first dimension that the resize mode uses and that lies outside `1..=50000`.
pub open spec fn dimension_error(s: BatchSettings) -> Option<Seq<char>> {
    match s.resize_mode {
        ResizeMode::FitLongestSide => if !in_range(s.max_side as int, 1, 50000) {
            Some(max_side_message())
        } else {
            None
        },
        ResizeMode::FitBox | ResizeMode::FixedCrop => if !in_range(s.width as int, 1, 50000) {
            Some(width_message())
        } else if !in_range(s.height as int, 1, 50000) {
            Some(height_message())
        } else {
            None
        },
        ResizeMode::FitWidth => if !in_range(s.width as int, 1, 50000) {
            Some(width_message())
        } else {
            None
        },
        ResizeMode::FitHeight => if !in_range(s.height as int, 1, 50000) {
            Some(height_message())
        } else {
            None
        },
    }
}

/// Checks the dimensions that the resize mode uses.
pub fn validate_dimensions(settings: &BatchSettings) -> (r: Result<(), String>)
    ensures
        r is Ok <==> dimension_error(*settings) is None,
        r matches Err(e) ==> dimension_error(*settings) == Some(e@),
{
    match settings.resize_mode {
        ResizeMode::FitLongestSide => {
            if settings.max_side < 1 || settings.max_side > MAX_DIMENSION {
                return Err(owned("最长边必须在 1 到 50000 之间"));
            }
        },
        ResizeMode::FitBox | ResizeMode::FixedCrop => {
            if settings.width < 1 || settings.width > MAX_DIMENSION {
                return Err(owned("宽度必须在 1 到 50000 之间"));
            }
            if settings.height < 1 || settings.height > MAX_DIMENSION {
                return Err(owned("高度必须在 1 到 50000 之间"));
            }
        },
        ResizeMode::FitWidth => {
            if settings.width < 1 || settings.width > MAX_DIMENSION {
                return Err(owned("宽度必须在 1 到 50000 之间"));
            }
        },
        ResizeMode::FitHeight => {
            if settings.height < 1 || settings.height > MAX_DIMENSION {
                return Err(owned("高度必须在 1 到 50000 之间"));
            }
        },
    }
    Ok(())
}

/// Target box and size policy handed to the thumbnail loader.
#[derive(Clone, Copy, Debug)]
pub struct ResizeTarget {
    pub width: i32,
    pub height: i32,
    pub size: &'static str,
}

/// The target box for the thumbnail loader: a square of the longest side, or the configured
/// width and height; `"both"` lets it enlarge, `"down"` only shrinks.
pub fn resize_target(settings: &BatchSettings) -> (t: ResizeTarget)
    ensures
        settings.resize_mode == ResizeMode::FitLongestSide ==> t.width == settings.max_side
            && t.height == settings.max_side,
        settings.resize_mode != ResizeMode::FitLongestSide ==> t.width == settings.width
            && t.height == settings.height,
        t.size@ == (if settings.allow_upscale {
            "both"@
        } else {
            "down"@
        }),
{
    let (width, height) = match settings.resize_mode {
        ResizeMode::FitLongestSide => (settings.max_side, settings.max_side),
        ResizeMode::FitBox | ResizeMode::FitWidth | ResizeMode::FitHeight | ResizeMode::FixedCrop => (
            settings.width,
            settings.height,
        ),
    };
    ResizeTarget {
        width,
        height,
        size: if settings.allow_upscale {
            "both"
        } else {
            "down"
        },
    }
}

/// Where a crop window sits along one axis.
#[derive(Clone, Copy, Debug, PartialEq, Eq, Structural)]
pub enum CropAnchor {
    Start,
    Center,
    End,
}

/// The anchor of a horizontal crop position.
pub open spec fn horizontal_anchor(h: CropHorizontal) -> CropAnchor {
    match h {
        CropHorizontal::Left => CropAnchor::Start,
        CropHorizontal::Center => CropAnchor::Center,
        CropHorizontal::Right => CropAnchor::End,
    }
}

/// The anchor of a vertical crop position.
pub open spec fn vertical_anchor(v: CropVertical) -> CropAnchor {
    match v {
        CropVertical::Top => CropAnchor::Start,
        CropVertical::Center => CropAnchor::Center,
        CropVertical::Bottom => CropAnchor::End,
    }
}

impl CropHorizontal {
    /// Left maps to the start, right to the end.
    pub fn anchor(self) -> (a: CropAnchor)
        ensures
            a == horizontal_anchor(self),
    {
        match self {
            CropHorizontal::Left => CropAnchor::Start,
            CropHorizontal::Center => CropAnchor::Center,
            CropHorizontal::Right => CropAnchor::End,
        }
    }
}

impl CropVertical {
    /// Top maps to the start, bottom to the end.
    pub fn anchor(self) -> (a: CropAnchor)
        ensures
            a == vertical_anchor(self),
    {
        match self {
            CropVertical::Top => CropAnchor::Start,
            CropVertical::Center => CropAnchor::Center,
            CropVertical::Bottom => CropAnchor::End,
        }
    }
}

/// The offset of the crop window for `extra` surplus pixels, never negative.
pub open spec fn crop_offset_spec(extra: int, anchor: CropAnchor) -> int {
    let raw = match anchor {
        CropAnchor::Start => 0,
        CropAnchor::Center => extra / 2,
        CropAnchor::End => extra,
    };
    if raw < 0 {
        0
    } else {
        raw
    }
}

/// Offset of a crop window: 0, half the surplus (rounded down), or the whole surplus.
pub fn crop_offset(extra: i32, anchor: CropAnchor) -> (r: i32)
    ensures
        r as int == crop_offset_spec(extra as int, anchor),
{
    let raw = match anchor {
        CropAnchor::Start => 0,
        CropAnchor::Center => if extra >= 0 {
            extra / 2
        } else {
            0
        },
        CropAnchor::End => extra,
    };
    if raw < 0 {
        0
    } else {
        raw
    }
}

/// A crop rectangle: offsets and size.
#[derive(Clone, Copy, Debug, PartialEq, Eq, Structural)]
pub struct CropWindow {
    pub left: i32,
    pub top: i32,
    pub width: i32,
    pub height: i32,
}

/// `min(a, b)` then `max(.., 1)`, as the crop target size is clamped.
pub open spec fn clamp_target(want: int, have: int) -> int {
    let m = if want < have {
        want
    } else {
        have
    };
    if m < 1 {
        1
    } else {
        m
    }
}

/// The window that crops an image of `width` x `height` to the configured size, placed by the
/// configured anchors.
pub fn crop_window(width: i32, height: i32, settings: &BatchSettings) -> (w: CropWindow)
    requires
        width >= 0,
        height >= 0,
    ensures
        w.width as int == clamp_target(settings.width as int, width as int),
        w.height as int == clamp_target(settings.height as int, height as int),
        w.left as int == crop_offset_spec(
            width - w.width,
            horizontal_anchor(settings.crop_horizontal),
        ),
        w.top as int == crop_offset_spec(
            height - w.height,
            vertical_anchor(settings.crop_vertical),
        ),
{
    let tw0 = if settings.width < width {
        settings.width
    } else {
        width
    };
    let target_width = if tw0 < 1 {
        1
    } else {
        tw0
    };
    let th0 = if settings.height < height {
        settings.height
    } else {
        height
    };
    let target_height = if th0 < 1 {
        1
    } else {
        th0
    };
    let left = crop_offset(width - target_width, settings.crop_horizontal.anchor());
    let top = crop_offset(height - target_height, settings.crop_vertical.anchor());
    CropWindow { left, top, width: target_width, height: target_height }
}

/// The angle name of a fixed rotation; `None` when nothing is rotated here.
pub fn rotation_angle(rotation: Rotation) -> (r: Option<&'static str>)
    ensures
        rotation == Rotation::Auto || rotation == Rotation::Rotate0 ==> r is None,
        rotation == Rotation::Rotate90 ==> (r matches Some(a) && a@ == "d90"@),
        rotation == Rotation::Rotate180 ==> (r matches Some(a) && a@ == "d180"@),
        rotation == Rotation::Rotate270 ==> (r matches Some(a) && a@ == "d270"@),
{
    match rotation {
        Rotation::Auto | Rotation::Rotate0 => None,
        Rotation::Rotate90 => Some("d90"),
        Rotation::Rotate180 => Some("d180"),
        Rotation::Rotate270 => Some("d270"),
    }
}

/// A Unicode white-space character (`char::is_whitespace`).
pub open spec fn is_unicode_whitespace(c: char) -> bool {
    let u = c as u32;
    (0x09 <= u <= 0x0D) || u == 0x20 || u == 0x85 || u == 0xA0 || u == 0x1680 || (0x2000 <= u
        <= 0x200A) || u == 0x2028 || u == 0x2029 || u == 0x202F || u == 0x205F || u == 0x3000
}

/// A string whose `trim()` is empty: only white space.
pub open spec fn is_blank(s: Seq<char>) -> bool {
    forall|i: int| 0 <= i < s.len() ==> is_unicode_whitespace(#[trigger] s[i])
}

/// Whether `s.trim().is_empty()`.
pub fn blank(s: &str) -> (r: bool)
    ensures
        r == is_blank(s@),
{
    let v = crate::text::chars_of(s);
    let n = v.len();
    for i in 0..n
        invariant
            n == v@.len(),
            v@ == s@,
            forall|k: int| 0 <= k < i ==> is_unicode_whitespace(#[trigger] s@[k]),
    {
        let u = v[i] as u32;
        let ws = (0x09 <= u && u <= 0x0D) || u == 0x20 || u == 0x85 || u == 0xA0 || u == 0x1680
            || (0x2000 <= u && u <= 0x200A) || u == 0x2028 || u == 0x2029 || u == 0x202F || u
            == 0x205F || u == 0x3000;
        if !ws {
            assert(!is_unicode_whitespace(s@[i as int]));
            return false;
        }
    }
    true
}

/// Where a crop window starts along an axis with `extra` spare pixels: a left or top anchor
/// keeps the first pixels (offset 0), a right or bottom anchor keeps the last ones (offset
/// `extra`), a centred anchor splits the spare pixels (offset `extra / 2`).
pub proof fn lemma_crop_anchors(extra: int)
    requires
        extra >= 0,
    ensures
        crop_offset_spec(extra, horizontal_anchor(CropHorizontal::Left)) == 0,
        crop_offset_spec(extra, horizontal_anchor(CropHorizontal::Right)) == extra,
        crop_offset_spec(extra, horizontal_anchor(CropHorizontal::Center)) == extra / 2,
        crop_offset_spec(extra, vertical_anchor(CropVertical::Top)) == 0,
        crop_offset_spec(extra, vertical_anchor(CropVertical::Bottom)) == extra,
        crop_offset_spec(extra, vertical_anchor(CropVertical::Center)) == extra / 2,
{
}

/// The dimensions a resize mode uses must each lie in `1..=50000`: the longest side for
/// `FitLongestSide`, width and height for `FitBox` and `FixedCrop`, the width for `FitWidth`
/// and the height for `FitHeight`; the others are not checked.
pub proof fn lemma_dimension_checks(s: BatchSettings)
    ensures
        s.resize_mode == ResizeMode::FitLongestSide ==> (dimension_error(s) is None <==> 1
            <= s.max_side <= 50000),
        s.resize_mode == ResizeMode::FitBox || s.resize_mode == ResizeMode::FixedCrop ==> (
        dimension_error(s) is None <==> 1 <= s.width <= 50000 && 1 <= s.height <= 50000),
        s.resize_mode == ResizeMode::FitWidth ==> (dimension_error(s) is None <==> 1 <= s.width
            <= 50000),
        s.resize_mode == ResizeMode::FitHeight ==> (dimension_error(s) is None <==> 1 <= s.height
            <= 50000),
        (s.resize_mode == ResizeMode::FitBox || s.resize_mode == ResizeMode::FixedCrop) && 1
            <= s.width <= 50000 && !(1 <= s.height <= 50000) ==> dimension_error(s)
            == Some("高度必须在 1 到 50000 之间"@),
        (s.resize_mode == ResizeMode::FitBox || s.resize_mode == ResizeMode::FixedCrop) && !(1
            <= s.width <= 50000) ==> dimension_error(s) == Some("宽度必须在 1 到 50000 之间"@),
{
}

} // verus!
