//! The rules for images embedded in PDF documents: which ones can be handled, how much memory
//! they may take, and how their raw samples become 8-bit pixels.
use vstd::prelude::*;
use crate::settings::OutputFormat;
use crate::text::{
    chars_of, extend_chars, int_decimal, nat_decimal, owned, push_decimal, string_from_chars,
    zero_pad, zero_padded_chars, digits_value, lemma_zero_pad_decimal,
};

verus! {

/// JPEG (`DCTDecode`) stream.
pub const FILTER_DCT: i32 = 1;

/// JPEG 2000 (`JPXDecode`) stream.
pub const FILTER_JPX: i32 = 2;

/// `FlateDecode` stream.
pub const FILTER_FLATE: i32 = 3;

/// `LZWDecode` stream.
pub const FILTER_LZW: i32 = 4;

/// `DeviceGray`.
pub const COLOR_GRAY: i32 = 1;

/// `DeviceRGB`.
pub const COLOR_RGB: i32 = 2;

/// `DeviceCMYK`.
pub const COLOR_CMYK: i32 = 3;

/// `Indexed` over a device space.
pub const COLOR_INDEXED: i32 = 4;

/// `ICCBased`.
pub const COLOR_ICC: i32 = 5;

/// Most bytes an embedded image may take once decoded (512 MiB).
pub const PDF_IMAGE_MEMORY_LIMIT: usize = 536870912;

/// What the PDF reader reports about one image XObject.
#[derive(Clone, Copy, Debug, PartialEq, Eq, Structural)]
pub struct ImageInfo {
    pub object_id: i32,
    pub generation: i32,
    pub first_page: u32,
    pub image_index: u32,
    pub width: u32,
    pub height: u32,
    pub bits_per_component: u32,
    pub components: u32,
    pub filter: i32,
    pub color_space: i32,
    pub indexed_base_color_space: i32,
    pub indexed_high_value: u32,
    pub smask_object_id: i32,
    pub smask_generation: i32,
    pub mask_object_id: i32,
    pub mask_generation: i32,
    pub has_color_key_mask: u8,
    pub image_mask: u8,
    pub decode_mode: u8,
}

/// The colour interpretation given to decoded pixels.
#[derive(Clone, Copy, Debug, PartialEq, Eq, Structural)]
pub enum Interpretation {
    BW,
    Srgb,
    Cmyk,
}

// ---------------------------------------------------------------------------------------------
// Acceptance
// ---------------------------------------------------------------------------------------------

/// The first reason an image cannot be processed, in the order the checks run.
pub open spec fn image_info_error(info: ImageInfo) -> Option<Seq<char>> {
    if info.width == 0 || info.height == 0 {
        Some("PDF 图片尺寸无效"@)
    } else if !(info.filter == FILTER_DCT || info.filter == FILTER_JPX || info.filter
        == FILTER_FLATE || info.filter == FILTER_LZW) {
        Some("不支持的 PDF 图片编码（仅支持 JPEG/JPX/Flate/LZW）"@)
    } else if !(info.color_space == COLOR_GRAY || info.color_space == COLOR_RGB
        || info.color_space == COLOR_CMYK || info.color_space == COLOR_INDEXED
        || info.color_space == COLOR_ICC) && info.image_mask == 0 {
        Some("不支持的 PDF 图片色彩空间"@)
    } else if info.has_color_key_mask != 0 {
        Some("暂不支持 PDF 颜色键 Mask"@)
    } else if info.decode_mode == 2 {
        Some("暂不支持 PDF 图片的非标准 Decode 数组"@)
    } else {
        None
    }
}

/// Accepts images with a size, a supported filter and colour space (or a stencil mask), no
/// colour-key mask and a standard or inverted decode array.
pub fn validate_pdf_image_info(info: &ImageInfo) -> (r: Result<(), String>)
    ensures
        r is Ok <==> image_info_error(*info) is None,
        r matches Err(e) ==> image_info_error(*info) == Some(e@),
{
    if info.width == 0 || info.height == 0 {
        return Err(owned("PDF 图片尺寸无效"));
    }
    if !(info.filter == FILTER_DCT || info.filter == FILTER_JPX || info.filter == FILTER_FLATE
        || info.filter == FILTER_LZW) {
        return Err(owned("不支持的 PDF 图片编码（仅支持 JPEG/JPX/Flate/LZW）"));
    }
    if !(info.color_space == COLOR_GRAY || info.color_space == COLOR_RGB || info.color_space
        == COLOR_CMYK || info.color_space == COLOR_INDEXED || info.color_space == COLOR_ICC)
        && info.image_mask == 0 {
        return Err(owned("不支持的 PDF 图片色彩空间"));
    }
    if info.has_color_key_mask != 0 {
        return Err(owned("暂不支持 PDF 颜色键 Mask"));
    }
    if info.decode_mode == 2 {
        return Err(owned("暂不支持 PDF 图片的非标准 Decode 数组"));
    }
    Ok(())
}

/// The message for overflowing size arithmetic.
pub open spec fn size_overflow_message() -> Seq<char> {
    "PDF 图片尺寸乘法溢出"@
}

/// The message for images above the memory limit.
pub open spec fn memory_message() -> Seq<char> {
    "PDF 图片解码内存超过 512 MiB"@
}

/// The byte size of an image with the given geometry: bytes of packed samples, or one byte
/// per sample for 8-bit images; or why it is refused.
pub open spec fn image_size_spec(width: int, height: int, components: int, bits: int) -> Result<
    int,
    Seq<char>,
> {
    let samples = width * height * components;
    let total_bits = samples * bits;
    let bytes = (total_bits + 7) / 8;
    if width == 0 || height == 0 || components == 0 || bits == 0 {
        Err("PDF 图片参数无效"@)
    } else if total_bits > usize::MAX || total_bits + 7 > usize::MAX {
        Err(size_overflow_message())
    } else if bytes > PDF_IMAGE_MEMORY_LIMIT || samples > PDF_IMAGE_MEMORY_LIMIT {
        Err(memory_message())
    } else if bits == 8 {
        Ok(samples)
    } else {
        Ok(bytes)
    }
}

proof fn lemma_product_bounds(w: u32, h: u32, c: u32, b: u32)
    ensures
        0 <= (w as int) * (h as int) <= 0xffff_ffff * 0xffff_ffff,
        0 <= (w as int) * (h as int) * (c as int) <= 0xffff_ffff * 0xffff_ffff * 0xffff_ffff,
        0 <= (w as int) * (h as int) * (c as int) * (b as int) <= 0xffff_ffff * 0xffff_ffff
            * 0xffff_ffff * 0xffff_ffff,
        b >= 1 ==> (w as int) * (h as int) * (c as int) <= (w as int) * (h as int) * (c as int)
            * (b as int),
{
    let x = (w as int) * (h as int);
    let y = x * (c as int);
    assert(0 <= x <= 0xffff_ffff * 0xffff_ffff) by (nonlinear_arith)
        requires
            0 <= w <= 0xffff_ffff,
            0 <= h <= 0xffff_ffff,
            x == (w as int) * (h as int),
    ;
    assert(0 <= y <= 0xffff_ffff * 0xffff_ffff * 0xffff_ffff) by (nonlinear_arith)
        requires
            0 <= x <= 0xffff_ffff * 0xffff_ffff,
            0 <= c <= 0xffff_ffff,
            y == x * (c as int),
    ;
    assert(0 <= y * (b as int) <= 0xffff_ffff * 0xffff_ffff * 0xffff_ffff * 0xffff_ffff)
        by (nonlinear_arith)
        requires
            0 <= y <= 0xffff_ffff * 0xffff_ffff * 0xffff_ffff,
            0 <= b <= 0xffff_ffff,
    ;
    assert(b >= 1 ==> y <= y * (b as int)) by (nonlinear_arith)
        requires
            0 <= y,
    ;
}

/// Checks the geometry of an image and returns its decoded size in bytes.
pub fn checked_pdf_image_size(
    width: u32,
    height: u32,
    components: u32,
    bits_per_component: u32,
) -> (r: Result<usize, String>)
    ensures
        match r {
            Ok(n) => image_size_spec(width as int, height as int, components as int, bits_per_component as int)
                == Ok::<int, Seq<char>>(n as int),
            Err(e) => image_size_spec(width as int, height as int, components as int, bits_per_component as int)
                == Err::<int, Seq<char>>(e@),
        },
{
    if width == 0 || height == 0 || components == 0 || bits_per_component == 0 {
        return Err(owned("PDF 图片参数无效"));
    }
    proof {
        lemma_product_bounds(width, height, components, bits_per_component);
    }
    let samples: u128 = (width as u128) * (height as u128) * (components as u128);
    let bits: u128 = samples * (bits_per_component as u128);
    if bits > usize::MAX as u128 || bits + 7 > usize::MAX as u128 {
        return Err(owned("PDF 图片尺寸乘法溢出"));
    }
    let bytes: u128 = (bits + 7) / 8;
    if bytes > PDF_IMAGE_MEMORY_LIMIT as u128 || samples > PDF_IMAGE_MEMORY_LIMIT as u128 {
        return Err(owned("PDF 图片解码内存超过 512 MiB"));
    }
    if bits_per_component == 8 {
        Ok(samples as usize)
    } else {
        Ok(bytes as usize)
    }
}

// ---------------------------------------------------------------------------------------------
// Decoded sample streams
// ---------------------------------------------------------------------------------------------

/// `u8::is_ascii_whitespace`.
pub open spec fn is_ascii_ws(b: u8) -> bool {
    b == 0x20 || b == 0x09 || b == 0x0A || b == 0x0C || b == 0x0D
}

/// The message for a stream of unexpected length.
pub open spec fn length_mismatch_message(expected: nat, actual: nat) -> Seq<char> {
    "PDF 图片解码数据长度不匹配: 期望 "@ + nat_decimal(expected) + "，实际 "@ + nat_decimal(actual)
}

/// A stream may be exactly as long as expected, or carry up to two extra bytes of trailing
/// ASCII white space, which are dropped.
pub open spec fn normalized_spec(data: Seq<u8>, expected: int) -> Result<Seq<u8>, Seq<char>> {
    if data.len() == expected {
        Ok(data)
    } else if data.len() > expected && data.len() - expected <= 2 && forall|i: int|
        expected <= i < data.len() ==> is_ascii_ws(#[trigger] data[i]) {
        Ok(data.take(expected))
    } else {
        Err(length_mismatch_message(expected as nat, data.len()))
    }
}

/// Normalizes the length of a decoded stream.
pub fn normalize_pdf_decoded_length(data: Vec<u8>, expected: usize) -> (r: Result<Vec<u8>, String>)
    ensures
        match r {
            Ok(v) => normalized_spec(data@, expected as int) == Ok::<Seq<u8>, Seq<char>>(v@),
            Err(e) => normalized_spec(data@, expected as int) == Err::<Seq<u8>, Seq<char>>(e@),
        },
{
    let mut data = data;
    let len = data.len();
    if len == expected {
        return Ok(data);
    }
    if len > expected && len - expected <= 2 {
        let mut all_ws = true;
        let mut i = expected;
        while i < len
            invariant
                expected <= i <= len,
                len == data@.len(),
                all_ws == forall|k: int| expected <= k < i ==> is_ascii_ws(#[trigger] data@[k]),
            decreases len - i,
        {
            let b = data[i];
            all_ws = all_ws && (b == 0x20 || b == 0x09 || b == 0x0A || b == 0x0C || b == 0x0D);
            i = i + 1;
        }
        if all_ws {
            data.truncate(expected);
            return Ok(data);
        }
    }
    let mut msg = chars_of("PDF 图片解码数据长度不匹配: 期望 ");
    push_decimal(&mut msg, expected as u64);
    extend_chars(&mut msg, chars_of("，实际 ").as_slice());
    push_decimal(&mut msg, len as u64);
    Err(string_from_chars(msg.as_slice()))
}

/// Largest sample value for a bit depth.
pub open spec fn max_sample(bits: int) -> int {
    if bits == 1 {
        1
    } else if bits == 2 {
        3
    } else {
        15
    }
}

/// The bytes of one packed row of `width` samples.
pub open spec fn packed_row_len(width: int, bits: int) -> int {
    (width * bits + 7) / 8
}

/// The `x`-th sample of the row starting at byte `row_start`, unscaled: samples are packed
/// most significant bit first.
pub open spec fn raw_sample(input: Seq<u8>, row_start: int, x: int, bits: int) -> int {
    let bit = x * bits;
    let byte = input[row_start + bit / 8];
    let shift = (8 - bits - bit % 8) as u8;
    ((byte >> shift) & (max_sample(bits) as u8)) as int
}

/// A sample scaled to the full 8-bit range (rounding down).
pub open spec fn scaled_sample(v: int, bits: int) -> int {
    (v * 255) / max_sample(bits)
}

/// The pixels of a packed stencil: one byte per sample, rows in order.
pub open spec fn unpacked_spec(input: Seq<u8>, width: int, height: int, bits: int) -> Seq<u8> {
    Seq::new(
        (width * height) as nat,
        |i: int|
            scaled_sample(
                raw_sample(input, (i / width) * packed_row_len(width, bits), i % width, bits),
                bits,
            ) as u8,
    )
}

/// The samples of a packed mask, or why its stream is refused.
pub open spec fn unpack_spec(input: Seq<u8>, width: int, height: int, bits: int) -> Result<
    Seq<u8>,
    Seq<char>,
> {
    let row = packed_row_len(width, bits);
    if row * height > usize::MAX {
        Err("PDF 蒙版尺寸溢出"@)
    } else if input.len() != row * height {
        Err("PDF 蒙版解码数据长度不匹配"@)
    } else {
        Ok(unpacked_spec(input, width, height, bits))
    }
}

fn extract_sample(byte: u8, bit: usize, bits: u32) -> (r: u8)
    requires
        bits == 1 || bits == 2 || bits == 4,
        (bit as int) % (bits as int) == 0,
    ensures
        r as int == scaled_sample(
            ((byte >> ((8 - bits - bit % 8) as u8)) & (max_sample(bits as int) as u8)) as int,
            bits as int,
        ),
{
    let off = bit % 8;
    assert(off + bits <= 8) by (nonlinear_arith)
        requires
            bits == 1 || bits == 2 || bits == 4,
            off == bit % 8,
            (bit as int) % (bits as int) == 0,
    {
    }
    let shift = (8 - bits as usize - off) as u8;
    let max: u8 = if bits == 1 {
        1
    } else if bits == 2 {
        3
    } else {
        15
    };
    let value: u8 = (byte >> shift) & max;
    assert(value <= max) by (bit_vector)
        requires
            value == (byte >> shift) & max,
    ;
    let wide: u16 = value as u16;
    ((wide * 255) / (max as u16)) as u8
}

/// Expands a packed 1-, 2- or 4-bit stencil into one byte per sample scaled to 0..=255.
pub fn unpack_pdf_samples(input: &[u8], width: u32, height: u32, bits_per_component: u32) -> (r:
    Result<Vec<u8>, String>)
    requires
        bits_per_component == 1 || bits_per_component == 2 || bits_per_component == 4,
        width > 0,
        (width as int) * (height as int) <= usize::MAX,
        (width as int) * (bits_per_component as int) <= usize::MAX,
    ensures
        match r {
            Ok(v) => unpack_spec(input@, width as int, height as int, bits_per_component as int)
                == Ok::<Seq<u8>, Seq<char>>(v@),
            Err(e) => unpack_spec(input@, width as int, height as int, bits_per_component as int)
                == Err::<Seq<u8>, Seq<char>>(e@),
        },
{
    let w = width as usize;
    let bits = bits_per_component as usize;
    assert((w as int) * (bits as int) <= 4 * 0xffff_ffff) by (nonlinear_arith)
        requires
            w <= 0xffff_ffff,
            bits <= 4,
    ;
    let packed_row: u64 = (w as u64 * bits as u64 + 7) / 8;
    assert(packed_row < 0x1_0000_0000);
    assert((packed_row as int) * (height as int) < 0x1_0000_0000 * 0x1_0000_0000) by (
    nonlinear_arith)
        requires
            packed_row < 0x1_0000_0000,
            height < 0x1_0000_0000,
    ;
    let expected_wide: u128 = packed_row as u128 * height as u128;
    if expected_wide > usize::MAX as u128 {
        return Err(owned("PDF 蒙版尺寸溢出"));
    }
    let expected = expected_wide as usize;
    if input.len() != expected {
        return Err(owned("PDF 蒙版解码数据长度不匹配"));
    }
    let row = packed_row as usize;
    let ilen = input.len();
    let mut output: Vec<u8> = Vec::new();
    let h = height as usize;
    assert(0 * (w as int) == 0);
    for y in 0..h
        invariant
            w == width,
            bits == bits_per_component,
            bits == 1 || bits == 2 || bits == 4,
            w > 0,
            row as int == packed_row_len(w as int, bits as int),
            input@.len() == (row as int) * (h as int),
            ilen == input@.len(),
            (w as int) * (bits as int) <= usize::MAX,
            h == height,
            (w as int) * (h as int) <= usize::MAX,
            output@.len() == (y as int) * (w as int),
            forall|i: int|
                0 <= i < output@.len() ==> output@[i] == unpacked_spec(
                    input@,
                    w as int,
                    h as int,
                    bits as int,
                )[i],
    {
        assert((y as int) * (row as int) <= (row as int) * (h as int)) by (nonlinear_arith)
            requires
                y < h,
                row >= 0,
        ;
        let row_start = y * row;
        let mut bit: usize = 0;
        for x in 0..w
            invariant
                w == width,
                bits == bits_per_component,
                bits == 1 || bits == 2 || bits == 4,
                bit as int == (x as int) * (bits as int),
                y < h,
                row_start as int == (y as int) * (row as int),
                row as int == packed_row_len(w as int, bits as int),
                input@.len() == (row as int) * (h as int),
                ilen == input@.len(),
                (w as int) * (h as int) <= usize::MAX,
                (w as int) * (bits as int) <= usize::MAX,
                output@.len() == (y as int) * (w as int) + x,
                forall|i: int|
                    0 <= i < output@.len() ==> output@[i] == unpacked_spec(
                        input@,
                        w as int,
                        h as int,
                        bits as int,
                    )[i],
        {
            assert(bit / 8 < row) by (nonlinear_arith)
                requires
                    bit as int == (x as int) * (bits as int),
                    x < w,
                    bits >= 1,
                    row as int == ((w as int) * (bits as int) + 7) / 8,
            {
                assert((x as int) * (bits as int) <= (w as int) * (bits as int) - 1);
            }
            assert((row_start as int) + ((bit / 8) as int) < (row as int) * (h as int)) by (
            nonlinear_arith)
                requires
                    row_start as int == (y as int) * (row as int),
                    bit / 8 < row,
                    y < h,
            ;
            let byte = input[row_start + bit / 8];
            assert((bit as int) % (bits as int) == 0) by (nonlinear_arith)
                requires
                    bit as int == (x as int) * (bits as int),
                    bits > 0,
            ;
            let sample = extract_sample(byte, bit, bits_per_component);
            proof {
                let i = (y as int) * (w as int) + x;
                assert(i / (w as int) == y && i % (w as int) == x) by (nonlinear_arith)
                    requires
                        i == (y as int) * (w as int) + x,
                        x < w,
                ;
                assert(i < (w as int) * (h as int)) by (nonlinear_arith)
                    requires
                        i == (y as int) * (w as int) + x,
                        x < w,
                        y < h,
                ;
            }
            output.push(sample);
            assert((x as int) * (bits as int) + (bits as int) <= (w as int) * (bits as int)) by (
            nonlinear_arith)
                requires
                    x < w,
                    bits >= 1,
            ;
            assert(((x + 1) as int) * (bits as int) == (x as int) * (bits as int) + (bits as int))
                by (nonlinear_arith);
            bit = bit + bits;
        }
        assert((y as int) * (w as int) + (w as int) == ((y + 1) as int) * (w as int)) by (
        nonlinear_arith);
    }
    assert((h as int) * (w as int) == (w as int) * (h as int)) by (nonlinear_arith);
    assert(output@ =~= unpacked_spec(input@, w as int, h as int, bits as int));
    Ok(output)
}

// ---------------------------------------------------------------------------------------------
// Colour
// ---------------------------------------------------------------------------------------------

/// The interpretation of pixels with the given number of components.
pub open spec fn interpretation_spec(components: int) -> Interpretation {
    if components == 1 {
        Interpretation::BW
    } else if components == 4 {
        Interpretation::Cmyk
    } else {
        Interpretation::Srgb
    }
}

/// One component is grey, four are CMYK, anything else is sRGB.
pub fn interpretation_for_components(components: u32) -> (r: Interpretation)
    ensures
        r == interpretation_spec(components as int),
{
    match components {
        1 => Interpretation::BW,
        4 => Interpretation::Cmyk,
        _ => Interpretation::Srgb,
    }
}

/// The interpretation of an encoded (JPEG or JPX) image: from the component count for ICC
/// based images, from the device colour space otherwise.
pub open spec fn encoded_interpretation_spec(info: ImageInfo) -> Result<Interpretation, Seq<char>> {
    if info.color_space == COLOR_ICC {
        Ok(interpretation_spec(info.components as int))
    } else if info.color_space == COLOR_GRAY {
        Ok(Interpretation::BW)
    } else if info.color_space == COLOR_RGB || info.color_space == COLOR_INDEXED {
        Ok(Interpretation::Srgb)
    } else if info.color_space == COLOR_CMYK {
        Ok(Interpretation::Cmyk)
    } else {
        Err("不支持的 PDF 图片色彩空间"@)
    }
}

/// The interpretation set on a decoded JPEG or JPX image.
pub fn pdf_interpretation(info: &ImageInfo) -> (r: Result<Interpretation, String>)
    ensures
        match r {
            Ok(i) => encoded_interpretation_spec(*info) == Ok::<Interpretation, Seq<char>>(i),
            Err(e) => encoded_interpretation_spec(*info) == Err::<Interpretation, Seq<char>>(e@),
        },
{
    if info.color_space == COLOR_ICC {
        Ok(interpretation_for_components(info.components))
    } else if info.color_space == COLOR_GRAY {
        Ok(Interpretation::BW)
    } else if info.color_space == COLOR_RGB || info.color_space == COLOR_INDEXED {
        Ok(Interpretation::Srgb)
    } else if info.color_space == COLOR_CMYK {
        Ok(Interpretation::Cmyk)
    } else {
        Err(owned("不支持的 PDF 图片色彩空间"))
    }
}

/// The colour space a re-encoded image is stored with, by its number of channels.
pub open spec fn replacement_color_space_spec(components: u32) -> Result<i32, Seq<char>> {
    if components == 1 {
        Ok(COLOR_GRAY)
    } else if components == 3 {
        Ok(COLOR_RGB)
    } else if components == 4 {
        Ok(COLOR_CMYK)
    } else {
        Err("不支持的 PDF 输出通道数: "@ + nat_decimal(components as nat))
    }
}

/// Grey for one channel, RGB for three, CMYK for four; other channel counts are refused.
pub fn replacement_color_space(components: u32) -> (r: Result<i32, String>)
    ensures
        match r {
            Ok(c) => replacement_color_space_spec(components) == Ok::<i32, Seq<char>>(c),
            Err(e) => replacement_color_space_spec(components) == Err::<i32, Seq<char>>(e@),
        },
{
    match components {
        1 => Ok(COLOR_GRAY),
        3 => Ok(COLOR_RGB),
        4 => Ok(COLOR_CMYK),
        _ => {
            let mut msg = chars_of("不支持的 PDF 输出通道数: ");
            push_decimal(&mut msg, components as u64);
            Err(string_from_chars(msg.as_slice()))
        },
    }
}

// ---------------------------------------------------------------------------------------------
// Indexed images
// ---------------------------------------------------------------------------------------------

/// The palette index a sample selects; an inverted decode array counts down from the highest
/// index, stopping at zero.
pub open spec fn palette_index(b: u8, high: u32, invert: bool) -> int {
    if invert {
        if (high as int) >= (b as int) {
            high - b
        } else {
            0
        }
    } else {
        b as int
    }
}

/// Each sample replaced by its palette entry of `base` bytes; refused when some sample selects
/// an index beyond the highest one.
pub open spec fn expanded_spec(
    samples: Seq<u8>,
    palette: Seq<u8>,
    high: u32,
    base: int,
    invert: bool,
) -> Result<Seq<u8>, Seq<char>> {
    if exists|i: int| 0 <= i < samples.len() && palette_index(#[trigger] samples[i], high, invert) > high {
        Err("PDF Indexed 图片包含越界索引"@)
    } else {
        Ok(Seq::new(
            (samples.len() * base) as nat,
            |j: int| palette[palette_index(samples[j / base], high, invert) * base + j % base],
        ))
    }
}

/// Replaces every sample by its palette entry.
pub fn expand_indexed_samples(
    samples: &[u8],
    palette: &[u8],
    high: u32,
    base: usize,
    invert: bool,
) -> (r: Result<Vec<u8>, String>)
    requires
        base == 1 || base == 3 || base == 4,
        ((high as int) + 1) * (base as int) <= palette@.len(),
        (samples@.len() as int) * (base as int) <= usize::MAX,
    ensures
        match r {
            Ok(v) => expanded_spec(samples@, palette@, high, base as int, invert) == Ok::<
                Seq<u8>,
                Seq<char>,
            >(v@),
            Err(e) => expanded_spec(samples@, palette@, high, base as int, invert) == Err::<
                Seq<u8>,
                Seq<char>,
            >(e@),
        },
{
    let n = samples.len();
    let plen = palette.len();
    let mut pixels: Vec<u8> = Vec::new();
    let ghost expected = Seq::new(
        (n * base) as nat,
        |j: int| palette@[palette_index(samples@[j / (base as int)], high, invert) * (base as int) + j
            % (base as int)],
    );
    for i in 0..n
        invariant
            n == samples@.len(),
            plen == palette@.len(),
            base == 1 || base == 3 || base == 4,
            ((high as int) + 1) * (base as int) <= palette@.len(),
            (n as int) * (base as int) <= usize::MAX,
            expected == Seq::new(
                (n * base) as nat,
                |j: int| palette@[palette_index(samples@[j / (base as int)], high, invert) * (
                base as int) + j % (base as int)],
            ),
            pixels@.len() == (i as int) * (base as int),
            forall|k: int| 0 <= k < i ==> palette_index(#[trigger] samples@[k], high, invert) <= high,
            forall|j: int| 0 <= j < pixels@.len() ==> pixels@[j] == expected[j],
    {
        let b = samples[i];
        let index: u32 = if invert {
            high.saturating_sub(b as u32)
        } else {
            b as u32
        };
        if index > high {
            assert(palette_index(samples@[i as int], high, invert) > high);
            return Err(owned("PDF Indexed 图片包含越界索引"));
        }
        assert((index as int) * (base as int) + (base as int) <= palette@.len()) by (nonlinear_arith)
            requires
                index <= high,
                ((high as int) + 1) * (base as int) <= palette@.len(),
                base >= 1,
        ;
        let offset = index as usize * base;
        let ghost before = pixels@.len();
        for k in 0..base
            invariant
                pixels@.len() == before + k,
                before == (i as int) * (base as int),
                i < n,
                offset as int == (index as int) * (base as int),
                offset + base <= palette@.len(),
                plen == palette@.len(),
                index as int == palette_index(samples@[i as int], high, invert),
                base == 1 || base == 3 || base == 4,
                expected == Seq::new(
                    (n * base) as nat,
                    |j: int| palette@[palette_index(samples@[j / (base as int)], high, invert) * (
                    base as int) + j % (base as int)],
                ),
                forall|j: int| 0 <= j < pixels@.len() ==> pixels@[j] == expected[j],
        {
            proof {
                let j = before + k;
                assert(j / (base as int) == i && j % (base as int) == k) by (nonlinear_arith)
                    requires
                        j == (i as int) * (base as int) + k,
                        k < base,
                ;
                assert(j < (n as int) * (base as int)) by (nonlinear_arith)
                    requires
                        j == (i as int) * (base as int) + k,
                        k < base,
                        i < n,
                ;
            }
            pixels.push(palette[offset + k]);
        }
        assert((i as int) * (base as int) + (base as int) == ((i + 1) as int) * (base as int)) by (
        nonlinear_arith);
    }
    assert(pixels@ =~= expected);
    Ok(pixels)
}

// ---------------------------------------------------------------------------------------------
// Raw sample streams
// ---------------------------------------------------------------------------------------------

/// Decoded pixels ready to be wrapped as an image.
#[derive(Debug)]
pub struct DecodedPixels {
    pub pixels: Vec<u8>,
    pub components: i32,
    pub interpretation: Interpretation,
}

/// The number of palette bytes per entry of an indexed image's base space.
pub open spec fn indexed_base_components(space: i32) -> Option<int> {
    if space == COLOR_GRAY {
        Some(1)
    } else if space == COLOR_RGB {
        Some(3)
    } else if space == COLOR_CMYK {
        Some(4)
    } else {
        None
    }
}

/// Every byte inverted (`255 - b`) when `invert` holds.
pub open spec fn maybe_inverted(pixels: Seq<u8>, invert: bool) -> Seq<u8> {
    if invert {
        pixels.map_values(|b: u8| (255 - b) as u8)
    } else {
        pixels
    }
}

/// `Ok(v)` keeps `v`; errors pass through.
pub open spec fn then_pixels(
    r: Result<Seq<u8>, Seq<char>>,
    components: int,
    interpretation: Interpretation,
) -> Result<(Seq<u8>, int, Interpretation), Seq<char>> {
    match r {
        Ok(v) => Ok((v, components, interpretation)),
        Err(e) => Err(e),
    }
}

/// The pixels of an indexed image, or why it is refused, in the order the checks run.
pub open spec fn indexed_pixels_spec(
    info: ImageInfo,
    decoded: Seq<u8>,
    palette: Result<Seq<u8>, Seq<char>>,
) -> Result<(Seq<u8>, int, Interpretation), Seq<char>> {
    let w = info.width as int;
    let h = info.height as int;
    let high = info.indexed_high_value as int;
    if info.bits_per_component != 8 {
        Err("暂不支持非 8-bit Indexed PDF 图片"@)
    } else if indexed_base_components(info.indexed_base_color_space) is None {
        Err("不支持的 Indexed PDF 基础色彩空间"@)
    } else {
        let base = indexed_base_components(info.indexed_base_color_space)->0;
        match image_size_spec(w, h, 1, 8) {
            Err(e) => Err(e),
            Ok(_) => match palette {
                Err(e) => Err(e),
                Ok(pal) => if (high + 1) * base > usize::MAX {
                    Err("PDF Indexed 调色板尺寸溢出"@)
                } else if pal.len() < (high + 1) * base {
                    Err("PDF Indexed 调色板数据不足"@)
                } else if w * h > usize::MAX {
                    Err("PDF 图片尺寸溢出"@)
                } else {
                    match normalized_spec(decoded, w * h) {
                        Err(e) => Err(e),
                        Ok(samples) => if samples.len() != w * h {
                            Err("PDF Indexed 解码数据长度不匹配"@)
                        } else if w * h * base > usize::MAX {
                            Err("PDF 图片尺寸溢出"@)
                        } else if w * h * base > PDF_IMAGE_MEMORY_LIMIT {
                            Err(memory_message())
                        } else {
                            then_pixels(
                                expanded_spec(
                                    samples,
                                    pal,
                                    info.indexed_high_value,
                                    base,
                                    info.decode_mode == 1,
                                ),
                                base,
                                interpretation_spec(base),
                            )
                        },
                    }
                },
            },
        }
    }
}

/// The pixels of a device-space image or stencil mask, or why it is refused.
pub open spec fn device_pixels_spec(info: ImageInfo, decoded: Seq<u8>) -> Result<
    (Seq<u8>, int, Interpretation),
    Seq<char>,
> {
    let w = info.width as int;
    let h = info.height as int;
    let c = info.components as int;
    let bits = info.bits_per_component as int;
    match image_size_spec(w, h, c, bits) {
        Err(e) => Err(e),
        Ok(expected) => {
            let raw = if bits == 8 {
                normalized_spec(decoded, expected)
            } else if info.image_mask != 0 && (bits == 1 || bits == 2 || bits == 4) {
                unpack_spec(decoded, w, h, bits)
            } else {
                Err("暂不支持 "@ + nat_decimal(bits as nat) + "-bit PDF 图片"@)
            };
            match raw {
                Err(e) => Err(e),
                Ok(p) => Ok((maybe_inverted(p, info.decode_mode == 1), c, interpretation_spec(c))),
            }
        },
    }
}

/// The pixels of a non-JPEG image from its decoded stream (and, for indexed images, its
/// palette as read from the document).
pub open spec fn decoded_pixels_spec(
    info: ImageInfo,
    decoded: Seq<u8>,
    palette: Result<Seq<u8>, Seq<char>>,
) -> Result<(Seq<u8>, int, Interpretation), Seq<char>> {
    if info.color_space == COLOR_INDEXED {
        indexed_pixels_spec(info, decoded, palette)
    } else {
        device_pixels_spec(info, decoded)
    }
}

/// The abstract value of decoded pixels.
pub open spec fn decoded_view(d: DecodedPixels) -> (Seq<u8>, int, Interpretation) {
    (d.pixels@, d.components as int, d.interpretation)
}

/// The view of a read result.
pub open spec fn read_view(r: Result<Vec<u8>, String>) -> Result<Seq<u8>, Seq<char>> {
    match r {
        Ok(v) => Ok(v@),
        Err(e) => Err(e@),
    }
}

fn invert_all(pixels: &mut Vec<u8>)
    ensures
        final(pixels)@ == old(pixels)@.map_values(|b: u8| (255 - b) as u8),
{
    let n = pixels.len();
    let ghost start = pixels@;
    for i in 0..n
        invariant
            n == pixels@.len(),
            start.len() == n,
            forall|k: int| 0 <= k < i ==> pixels@[k] == (255 - start[k]) as u8,
            forall|k: int| i <= k < n ==> pixels@[k] == start[k],
    {
        let b = pixels[i];
        pixels.set(i, 255 - b);
    }
    assert(pixels@ =~= start.map_values(|b: u8| (255 - b) as u8));
}

/// Turns the decoded stream of a non-JPEG image into 8-bit pixels: indexed images through
/// their palette, packed stencils unpacked, inverted decode arrays applied.
pub fn decode_pdf_image_pixels(
    info: &ImageInfo,
    decoded: Vec<u8>,
    palette: Result<Vec<u8>, String>,
) -> (r: Result<DecodedPixels, String>)
    requires
        info.color_space == COLOR_INDEXED ==> (info.indexed_high_value as int) + 1 <= usize::MAX,
    ensures
        match r {
            Ok(d) => decoded_pixels_spec(*info, decoded@, read_view(palette)) == Ok::<
                (Seq<u8>, int, Interpretation),
                Seq<char>,
            >(decoded_view(d)),
            Err(e) => decoded_pixels_spec(*info, decoded@, read_view(palette)) == Err::<
                (Seq<u8>, int, Interpretation),
                Seq<char>,
            >(e@),
        },
{
    if info.color_space == COLOR_INDEXED {
        if info.bits_per_component != 8 {
            return Err(owned("暂不支持非 8-bit Indexed PDF 图片"));
        }
        let base: usize = if info.indexed_base_color_space == COLOR_GRAY {
            1
        } else if info.indexed_base_color_space == COLOR_RGB {
            3
        } else if info.indexed_base_color_space == COLOR_CMYK {
            4
        } else {
            return Err(owned("不支持的 Indexed PDF 基础色彩空间"));
        };
        checked_pdf_image_size(info.width, info.height, 1, 8)?;
        let palette = palette?;
        let entries: u128 = info.indexed_high_value as u128 + 1;
        let required_wide: u128 = entries * base as u128;
        if required_wide > usize::MAX as u128 {
            return Err(owned("PDF Indexed 调色板尺寸溢出"));
        }
        let required = required_wide as usize;
        if palette.len() < required {
            return Err(owned("PDF Indexed 调色板数据不足"));
        }
        proof {
            lemma_product_bounds(info.width, info.height, 1, 8);
        }
        let count_wide: u128 = info.width as u128 * info.height as u128;
        if count_wide > usize::MAX as u128 {
            return Err(owned("PDF 图片尺寸溢出"));
        }
        let pixel_count = count_wide as usize;
        let samples = normalize_pdf_decoded_length(decoded, pixel_count)?;
        if samples.len() != pixel_count {
            return Err(owned("PDF Indexed 解码数据长度不匹配"));
        }
        let output_wide: u128 = count_wide * base as u128;
        if output_wide > usize::MAX as u128 {
            return Err(owned("PDF 图片尺寸溢出"));
        }
        if output_wide > PDF_IMAGE_MEMORY_LIMIT as u128 {
            return Err(owned("PDF 图片解码内存超过 512 MiB"));
        }
        let pixels = expand_indexed_samples(
            samples.as_slice(),
            palette.as_slice(),
            info.indexed_high_value,
            base,
            info.decode_mode == 1,
        )?;
        let interpretation = interpretation_for_components(base as u32);
        Ok(DecodedPixels { pixels, components: base as i32, interpretation })
    } else {
        let components = info.components;
        let bits = info.bits_per_component;
        let expected = checked_pdf_image_size(info.width, info.height, components, bits)?;
        proof {
            lemma_product_bounds(info.width, info.height, components, bits);
            assert((info.width as int) * (info.height as int) <= (info.width as int) * (
            info.height as int) * (components as int)) by (nonlinear_arith)
                requires
                    components >= 1,
                    info.width >= 0,
                    info.height >= 0,
            ;
            assert((info.width as int) * (bits as int) <= (info.width as int) * (
            info.height as int) * (components as int) * (bits as int)) by (nonlinear_arith)
                requires
                    components >= 1,
                    info.height >= 1,
                    info.width >= 0,
                    bits >= 0,
            ;
        }
        let mut pixels = if bits == 8 {
            normalize_pdf_decoded_length(decoded, expected)?
        } else if info.image_mask != 0 && (bits == 1 || bits == 2 || bits == 4) {
            unpack_pdf_samples(decoded.as_slice(), info.width, info.height, bits)?
        } else {
            let mut msg = chars_of("暂不支持 ");
            push_decimal(&mut msg, bits as u64);
            extend_chars(&mut msg, chars_of("-bit PDF 图片").as_slice());
            return Err(string_from_chars(msg.as_slice()));
        };
        if info.decode_mode == 1 {
            invert_all(&mut pixels);
        }
        let interpretation = interpretation_for_components(components);
        assert(components as int <= (info.width as int) * (info.height as int) * (components as int))
            by (nonlinear_arith)
            requires
                info.width >= 1,
                info.height >= 1,
                components >= 0,
        ;
        assert(components < 0x8000_0000);
        Ok(DecodedPixels { pixels, components: components as i32, interpretation })
    }
}

// ---------------------------------------------------------------------------------------------
// Encoded (JPEG / JPX) images
// ---------------------------------------------------------------------------------------------

/// Why an encoded image is refused before its stream is read.
pub open spec fn encoded_image_error(info: ImageInfo) -> Option<Seq<char>> {
    let mc: int = if info.color_space == COLOR_INDEXED {
        4
    } else if info.components == 0 {
        1
    } else {
        info.components as int
    };
    if info.bits_per_component != 8 {
        Some("暂不支持 "@ + nat_decimal(info.bits_per_component as nat) + "-bit PDF 图片"@)
    } else {
        match image_size_spec(info.width as int, info.height as int, mc, 8) {
            Err(e) => Some(e),
            Ok(_) => None,
        }
    }
}

/// Checks an encoded image before its stream is read: 8-bit samples only, and its decoded
/// size (four bytes per pixel for indexed images) within the memory limit.
pub fn check_encoded_pdf_image(info: &ImageInfo) -> (r: Result<(), String>)
    ensures
        r is Ok <==> encoded_image_error(*info) is None,
        r matches Err(e) ==> encoded_image_error(*info) == Some(e@),
{
    if info.bits_per_component != 8 {
        let mut msg = chars_of("暂不支持 ");
        push_decimal(&mut msg, info.bits_per_component as u64);
        extend_chars(&mut msg, chars_of("-bit PDF 图片").as_slice());
        return Err(string_from_chars(msg.as_slice()));
    }
    let memory_components: u32 = if info.color_space == COLOR_INDEXED {
        4
    } else if info.components == 0 {
        1
    } else {
        info.components
    };
    checked_pdf_image_size(info.width, info.height, memory_components, 8)?;
    Ok(())
}

/// Refuses an encoded stream above the memory limit.
pub fn check_encoded_pdf_length(len: usize) -> (r: Result<(), String>)
    ensures
        r is Ok <==> len <= PDF_IMAGE_MEMORY_LIMIT,
        r matches Err(e) ==> e@ == "PDF 内嵌图片编码数据超过 512 MiB"@,
{
    if len > PDF_IMAGE_MEMORY_LIMIT {
        return Err(owned("PDF 内嵌图片编码数据超过 512 MiB"));
    }
    Ok(())
}

/// Why a decoded JPEG or JPX image is refused: too large, or not the size its dictionary
/// declares.
pub open spec fn decoded_geometry_error(info: ImageInfo, width: u32, height: u32, bands: u32) -> Option<
    Seq<char>,
> {
    match image_size_spec(width as int, height as int, bands as int, 8) {
        Err(e) => Some(e),
        Ok(_) => if width != info.width || height != info.height {
            Some("PDF 图片字典尺寸与编码数据不一致"@)
        } else {
            None
        },
    }
}

/// Checks a decoded JPEG or JPX image against the memory limit and its declared size.
pub fn check_decoded_pdf_image(info: &ImageInfo, width: u32, height: u32, bands: u32) -> (r: Result<
    (),
    String,
>)
    ensures
        r is Ok <==> decoded_geometry_error(*info, width, height, bands) is None,
        r matches Err(e) ==> decoded_geometry_error(*info, width, height, bands) == Some(e@),
{
    checked_pdf_image_size(width, height, bands, 8)?;
    if width != info.width || height != info.height {
        return Err(owned("PDF 图片字典尺寸与编码数据不一致"));
    }
    Ok(())
}

// ---------------------------------------------------------------------------------------------
// Replacing images in place
// ---------------------------------------------------------------------------------------------

/// A new stream for an image object.
#[derive(Debug)]
pub struct PdfReplacement {
    pub data: Vec<u8>,
    pub width: u32,
    pub height: u32,
    pub components: u32,
    pub color_space: i32,
    pub filter: i32,
}

/// The replacement for a soft mask once processed: refused unless it has one channel and fits
/// the memory limit; stored as raw grey samples under Flate.
pub fn replace_pdf_mask(bands: i32, width: u32, height: u32, raw: Vec<u8>) -> (r: Result<
    PdfReplacement,
    String,
>)
    ensures
        bands != 1 ==> (r matches Err(e) && e@ == "PDF 透明蒙版不是单通道图片"@),
        bands == 1 ==> match image_size_spec(width as int, height as int, 1, 8) {
            Err(m) => r matches Err(e) && e@ == m,
            Ok(_) => r matches Ok(rep) && rep.data@ == raw@ && rep.width == width && rep.height
                == height && rep.components == 1 && rep.color_space == COLOR_GRAY && rep.filter
                == FILTER_FLATE,
        },
{
    if bands != 1 {
        return Err(owned("PDF 透明蒙版不是单通道图片"));
    }
    checked_pdf_image_size(width, height, 1, 8)?;
    Ok(
        PdfReplacement {
            data: raw,
            width,
            height,
            components: 1,
            color_space: COLOR_GRAY,
            filter: FILTER_FLATE,
        },
    )
}

/// The mask objects already rewritten while keeping a PDF.
pub struct MaskSet {
    pub seen: Vec<(i32, i32)>,
}

impl MaskSet {
    /// No mask rewritten yet.
    pub fn new() -> (m: MaskSet)
        ensures
            m.seen@ == Seq::<(i32, i32)>::empty(),
    {
        MaskSet { seen: Vec::new() }
    }

    /// Records `key`; true when it had not been recorded before (`HashSet::insert`).
    pub fn insert(&mut self, key: (i32, i32)) -> (fresh: bool)
        ensures
            fresh == !old(self).seen@.contains(key),
            fresh ==> final(self).seen@ == old(self).seen@.push(key),
            !fresh ==> final(self).seen@ == old(self).seen@,
    {
        let n = self.seen.len();
        for i in 0..n
            invariant
                n == self.seen@.len(),
                forall|k: int| 0 <= k < i ==> self.seen@[k] != key,
        {
            if self.seen[i].0 == key.0 && self.seen[i].1 == key.1 {
                assert(self.seen@[i as int] == key);
                return false;
            }
        }
        self.seen.push(key);
        true
    }
}

/// The recorded masks after offering `key` when `present`.
pub open spec fn offer(seen: Seq<(i32, i32)>, key: (i32, i32), present: bool) -> Seq<(i32, i32)> {
    if present && !seen.contains(key) {
        seen.push(key)
    } else {
        seen
    }
}

/// The soft-mask and stencil-mask references of an image.
pub open spec fn soft_mask(info: ImageInfo) -> (i32, i32) {
    (info.smask_object_id, info.smask_generation)
}

/// The stencil-mask reference of an image.
pub open spec fn stencil_mask(info: ImageInfo) -> (i32, i32) {
    (info.mask_object_id, info.mask_generation)
}

/// The masks recorded after the masks of `info` are offered to `seen`.
pub open spec fn masks_after(seen: Seq<(i32, i32)>, info: ImageInfo) -> Seq<(i32, i32)> {
    offer(
        offer(seen, soft_mask(info), info.smask_object_id > 0),
        stencil_mask(info),
        info.mask_object_id > 0,
    )
}

/// The masks of `info` that still need rewriting after `seen`: its soft mask, then its stencil
/// mask, each when present (positive object id) and not recorded before.
pub open spec fn masks_due(seen: Seq<(i32, i32)>, info: ImageInfo) -> Seq<(i32, i32)> {
    let mid = offer(seen, soft_mask(info), info.smask_object_id > 0);
    (if info.smask_object_id > 0 && !seen.contains(soft_mask(info)) {
        seq![soft_mask(info)]
    } else {
        Seq::empty()
    }) + (if info.mask_object_id > 0 && !mid.contains(stencil_mask(info)) {
        seq![stencil_mask(info)]
    } else {
        Seq::empty()
    })
}

/// The masks of an image that still need rewriting; both are then recorded.
pub fn masks_to_replace(info: &ImageInfo, masks: &mut MaskSet) -> (out: Vec<(i32, i32)>)
    ensures
        final(masks).seen@ == masks_after(old(masks).seen@, *info),
        out@ == masks_due(old(masks).seen@, *info),
{
    let mut out: Vec<(i32, i32)> = Vec::new();
    if info.smask_object_id > 0 && masks.insert((info.smask_object_id, info.smask_generation)) {
        out.push((info.smask_object_id, info.smask_generation));
    }
    if info.mask_object_id > 0 && masks.insert((info.mask_object_id, info.mask_generation)) {
        out.push((info.mask_object_id, info.mask_generation));
    }
    assert(out@ =~= masks_due(old(masks).seen@, *info));
    out
}

/// Each mask of a kept PDF is rewritten at most once: a mask due for rewriting was not
/// recorded before, is recorded afterwards, is not due twice for the same image, and whatever
/// was recorded stays recorded.
pub proof fn lemma_masks_rewritten_once(seen: Seq<(i32, i32)>, info: ImageInfo)
    ensures
        forall|k: (i32, i32)|
            #[trigger] masks_due(seen, info).contains(k) ==> !seen.contains(k) && masks_after(
                seen,
                info,
            ).contains(k),
        forall|k: (i32, i32)| #[trigger] seen.contains(k) ==> masks_after(seen, info).contains(k),
        masks_due(seen, info).no_duplicates(),
{
    let s = soft_mask(info);
    let m = stencil_mask(info);
    let mid = offer(seen, s, info.smask_object_id > 0);
    let after = masks_after(seen, info);
    let due = masks_due(seen, info);
    assert forall|k: (i32, i32)| #[trigger] seen.contains(k) implies mid.contains(k) by {
        if info.smask_object_id > 0 && !seen.contains(s) {
            let i = choose|i: int| 0 <= i < seen.len() && seen[i] == k;
            assert(mid[i] == k);
        }
    }
    assert forall|k: (i32, i32)| #[trigger] mid.contains(k) implies after.contains(k) by {
        if info.mask_object_id > 0 && !mid.contains(m) {
            let i = choose|i: int| 0 <= i < mid.len() && mid[i] == k;
            assert(after[i] == k);
        }
    }
    if info.smask_object_id > 0 && !seen.contains(s) {
        assert(mid[mid.len() - 1] == s);
        assert(mid.contains(s));
    }
    if info.mask_object_id > 0 && !mid.contains(m) {
        assert(after[after.len() - 1] == m);
        assert(after.contains(m));
    }
    assert forall|k: (i32, i32)| #[trigger] due.contains(k) implies !seen.contains(k)
        && after.contains(k) by {
        let i = choose|i: int| 0 <= i < due.len() && due[i] == k;
        if k == s && info.smask_object_id > 0 && !seen.contains(s) {
        } else {
            assert(k == m);
            if seen.contains(m) {
                assert(mid.contains(m));
            }
        }
    }
}

// ---------------------------------------------------------------------------------------------
// Extracting images to files
// ---------------------------------------------------------------------------------------------

/// The mask merged as alpha into an extracted image: the soft mask if present, else the
/// stencil mask if present.
pub open spec fn extraction_mask_spec(info: ImageInfo) -> Option<(i32, i32)> {
    if info.smask_object_id > 0 {
        Some((info.smask_object_id, info.smask_generation))
    } else if info.mask_object_id > 0 {
        Some((info.mask_object_id, info.mask_generation))
    } else {
        None
    }
}

/// The mask whose samples become the alpha channel of an extracted image.
pub fn extraction_mask_ref(info: &ImageInfo) -> (r: Option<(i32, i32)>)
    ensures
        r == extraction_mask_spec(*info),
{
    if info.smask_object_id > 0 {
        Some((info.smask_object_id, info.smask_generation))
    } else if info.mask_object_id > 0 {
        Some((info.mask_object_id, info.mask_generation))
    } else {
        None
    }
}

/// The alpha mask merged into an extracted image must have the processed image's size.
pub fn check_mask_matches_image(image_width: i32, image_height: i32, mask_width: i32, mask_height: i32) -> (r:
    Result<(), String>)
    ensures
        r is Ok <==> (image_width == mask_width && image_height == mask_height),
        r matches Err(e) ==> e@ == "PDF 主图与透明蒙版处理后的尺寸不一致"@,
{
    if mask_width != image_width || mask_height != image_height {
        return Err(owned("PDF 主图与透明蒙版处理后的尺寸不一致"));
    }
    Ok(())
}

/// The warnings raised for a processed PDF: signing it again is up to the user, since the
/// signatures it carries no longer match.
pub fn pdf_warnings(has_signatures: bool) -> (w: Vec<String>)
    ensures
        has_signatures ==> w@.len() == 1 && w@[0]@ == "PDF 包含数字签名；处理后签名字段会保留，但原签名将失效"@,
        !has_signatures ==> w@.len() == 0,
{
    let mut w: Vec<String> = Vec::new();
    if has_signatures {
        w.push(owned("PDF 包含数字签名；处理后签名字段会保留，但原签名将失效"));
    }
    w
}

/// How many images of each page have been extracted.
pub struct PageCounter {
    pub counts: Vec<(u32, usize)>,
}

/// The count recorded for `page` (0 when none).
pub open spec fn count_of(counts: Seq<(u32, usize)>, page: u32) -> int
    decreases counts.len(),
{
    if counts.len() == 0 {
        0
    } else if counts.last().0 == page {
        counts.last().1 as int
    } else {
        count_of(counts.drop_last(), page)
    }
}

/// Pages appear at most once in the counter.
pub open spec fn distinct_pages(counts: Seq<(u32, usize)>) -> bool {
    forall|i: int, j: int|
        0 <= i < counts.len() && 0 <= j < counts.len() && i != j ==> counts[i].0 != counts[j].0
}

proof fn lemma_count_of_at(counts: Seq<(u32, usize)>, i: int)
    requires
        distinct_pages(counts),
        0 <= i < counts.len(),
    ensures
        count_of(counts, counts[i].0) == counts[i].1 as int,
    decreases counts.len(),
{
    if i != counts.len() - 1 {
        let d = counts.drop_last();
        assert(distinct_pages(d));
        assert(counts.last().0 != counts[i].0);
        assert(d[i] == counts[i]);
        lemma_count_of_at(d, i);
    }
}

proof fn lemma_count_of_absent(counts: Seq<(u32, usize)>, page: u32)
    requires
        forall|i: int| 0 <= i < counts.len() ==> counts[i].0 != page,
    ensures
        count_of(counts, page) == 0,
    decreases counts.len(),
{
    if counts.len() > 0 {
        let d = counts.drop_last();
        assert forall|i: int| 0 <= i < d.len() implies d[i].0 != page by {
            assert(d[i] == counts[i]);
        }
        lemma_count_of_absent(d, page);
    }
}

proof fn lemma_count_of_update(counts: Seq<(u32, usize)>, i: int, v: usize, page: u32)
    requires
        distinct_pages(counts),
        0 <= i < counts.len(),
    ensures
        distinct_pages(counts.update(i, (counts[i].0, v))),
        count_of(counts.update(i, (counts[i].0, v)), page) == if page == counts[i].0 {
            v as int
        } else {
            count_of(counts, page)
        },
    decreases counts.len(),
{
    let u = counts.update(i, (counts[i].0, v));
    assert(distinct_pages(u)) by {
        assert forall|a: int, b: int|
            0 <= a < u.len() && 0 <= b < u.len() && a != b implies u[a].0 != u[b].0 by {
            assert(u[a].0 == counts[a].0 && u[b].0 == counts[b].0);
        }
    }
    if page == counts[i].0 {
        assert(u[i] == (counts[i].0, v));
        lemma_count_of_at(u, i);
    } else if exists|k: int| 0 <= k < counts.len() && counts[k].0 == page {
        let k = choose|k: int| 0 <= k < counts.len() && counts[k].0 == page;
        assert(k != i);
        assert(u[k] == counts[k]);
        lemma_count_of_at(u, k);
        lemma_count_of_at(counts, k);
    } else {
        assert forall|k: int| 0 <= k < u.len() implies u[k].0 != page by {
            assert(u[k].0 == counts[k].0);
        }
        lemma_count_of_absent(u, page);
        lemma_count_of_absent(counts, page);
    }
}

impl PageCounter {
    /// The well-formedness of a counter: each page at most once.
    pub open spec fn wf(&self) -> bool {
        distinct_pages(self.counts@)
    }

    /// The number of images counted on `page`.
    pub open spec fn count(&self, page: u32) -> int {
        count_of(self.counts@, page)
    }

    /// No page counted yet.
    pub fn new() -> (c: PageCounter)
        ensures
            c.wf(),
            forall|p: u32| c.count(p) == 0,
    {
        PageCounter { counts: Vec::new() }
    }

    /// Counts one more image on `page` and returns its 1-based index on that page.
    pub fn next_index(&mut self, page: u32) -> (index: usize)
        requires
            old(self).wf(),
            old(self).count(page) < usize::MAX,
        ensures
            final(self).wf(),
            index as int == old(self).count(page) + 1,
            final(self).count(page) == index as int,
            forall|p: u32| p != page ==> final(self).count(p) == old(self).count(p),
    {
        let n = self.counts.len();
        for i in 0..n
            invariant
                n == self.counts@.len(),
                self.counts@ == old(self).counts@,
                distinct_pages(self.counts@),
                count_of(self.counts@, page) < usize::MAX,
                forall|k: int| 0 <= k < i ==> self.counts@[k].0 != page,
        {
            if self.counts[i].0 == page {
                proof {
                    lemma_count_of_at(self.counts@, i as int);
                }
                let next = self.counts[i].1 + 1;
                let ghost before = self.counts@;
                self.counts.set(i, (page, next));
                proof {
                    lemma_count_of_update(before, i as int, next, page);
                    assert forall|p: u32| p != page implies self.count(p) == count_of(before, p) by {
                        lemma_count_of_update(before, i as int, next, p);
                    }
                }
                return next;
            }
        }
        let ghost before = self.counts@;
        proof {
            lemma_count_of_absent(before, page);
        }
        self.counts.push((page, 1));
        proof {
            let after = self.counts@;
            assert(after.drop_last() == before);
            assert(distinct_pages(after)) by {
                assert forall|a: int, b: int|
                    0 <= a < after.len() && 0 <= b < after.len() && a != b implies after[a].0
                    != after[b].0 by {
                    if a == before.len() {
                        assert(after[a].0 == page);
                        assert(after[b] == before[b]);
                    }
                    if b == before.len() {
                        assert(after[b].0 == page);
                        assert(after[a] == before[a]);
                    }
                    if a < before.len() {
                        assert(after[a] == before[a]);
                    }
                    if b < before.len() {
                        assert(after[b] == before[b]);
                    }
                }
            }
            assert forall|p: u32| p != page implies count_of(after, p) == count_of(before, p) by {
                assert(after.last().0 == page);
            }
            assert(after.last() == (page, 1usize));
        }
        1
    }
}

/// `page-<page>-image-<index>.<ext>`, both numbers zero-padded to four digits.
pub open spec fn image_file_name_spec(page: nat, index: nat, ext: Seq<char>) -> Seq<char> {
    "page-"@ + zero_pad(nat_decimal(page), 4) + "-image-"@ + zero_pad(nat_decimal(index), 4)
        + seq!['.'] + ext
}

/// The file name of the `index`-th image extracted from `page`.
pub fn pdf_image_file_name(page: u32, index: usize, format: OutputFormat) -> (r: String)
    ensures
        r@ == image_file_name_spec(
            page as nat,
            index as nat,
            crate::formats::format_extension_text(format),
        ),
{
    let mut out = chars_of("page-");
    extend_chars(&mut out, zero_padded_chars(page as u64, 4).as_slice());
    extend_chars(&mut out, chars_of("-image-").as_slice());
    extend_chars(&mut out, zero_padded_chars(index as u64, 4).as_slice());
    out.push('.');
    extend_chars(&mut out, chars_of(crate::formats::output_format_extension(format)).as_slice());
    string_from_chars(out.as_slice())
}

/// Distinct (page, index) pairs give distinct file names, so no image extracted from a PDF
/// overwrites another.
pub proof fn lemma_image_file_names_distinct(p1: nat, i1: nat, p2: nat, i2: nat, ext: Seq<char>)
    requires
        image_file_name_spec(p1, i1, ext) == image_file_name_spec(p2, i2, ext),
    ensures
        p1 == p2,
        i1 == i2,
{
    reveal_strlit("page-");
    reveal_strlit("-image-");
    lemma_zero_pad_decimal(p1, 4);
    lemma_zero_pad_decimal(p2, 4);
    lemma_zero_pad_decimal(i1, 4);
    lemma_zero_pad_decimal(i2, 4);
    let a1 = zero_pad(nat_decimal(p1), 4);
    let a2 = zero_pad(nat_decimal(p2), 4);
    let b1 = zero_pad(nat_decimal(i1), 4);
    let b2 = zero_pad(nat_decimal(i2), 4);
    let pre = "page-"@;
    let mid = "-image-"@;
    let n1 = pre + a1 + mid + b1 + seq!['.'] + ext;
    let n2 = pre + a2 + mid + b2 + seq!['.'] + ext;
    assert(n1 == image_file_name_spec(p1, i1, ext));
    assert(n2 == image_file_name_spec(p2, i2, ext));
    assert forall|k: int| 0 <= k < a1.len() implies n1[5 + k] == a1[k] by {}
    assert forall|k: int| 0 <= k < a2.len() implies n2[5 + k] == a2[k] by {}
    assert(n1[5 + a1.len() as int] == '-');
    assert(n2[5 + a2.len() as int] == '-');
    if a1.len() < a2.len() {
        assert(n2[5 + a1.len() as int] == a2[a1.len() as int]);
        assert(false);
    }
    if a2.len() < a1.len() {
        assert(n1[5 + a2.len() as int] == a1[a2.len() as int]);
        assert(false);
    }
    assert(a1 =~= a2) by {
        assert forall|k: int| 0 <= k < a1.len() implies a1[k] == a2[k] by {
            assert(n1[5 + k] == n2[5 + k]);
        }
    }
    let o: int = 5 + a1.len() as int + 7;
    assert forall|k: int| 0 <= k < b1.len() implies n1[o + k] == b1[k] by {}
    assert forall|k: int| 0 <= k < b2.len() implies n2[o + k] == b2[k] by {}
    assert(n1[o + b1.len() as int] == '.');
    assert(n2[o + b2.len() as int] == '.');
    if b1.len() < b2.len() {
        assert(n2[o + b1.len() as int] == b2[b1.len() as int]);
        assert(false);
    }
    if b2.len() < b1.len() {
        assert(n1[o + b2.len() as int] == b1[b2.len() as int]);
        assert(false);
    }
    assert(b1 =~= b2) by {
        assert forall|k: int| 0 <= k < b1.len() implies b1[k] == b2[k] by {
            assert(n1[o + k] == n2[o + k]);
        }
    }
}

/// An accepted image size never exceeds the decode memory limit of 512 MiB.
pub proof fn lemma_image_size_within_limit(width: int, height: int, components: int, bits: int)
    requires
        image_size_spec(width, height, components, bits) is Ok,
    ensures
        image_size_spec(width, height, components, bits)->Ok_0 <= PDF_IMAGE_MEMORY_LIMIT,
{
}

/// The pixels decoded from an embedded image never take more than the decode memory limit of
/// 512 MiB, whichever path (device samples, packed stencil, palette) produced them.
pub proof fn lemma_decoded_pixels_within_limit(
    info: ImageInfo,
    decoded: Seq<u8>,
    palette: Result<Seq<u8>, Seq<char>>,
)
    requires
        decoded_pixels_spec(info, decoded, palette) is Ok,
    ensures
        decoded_pixels_spec(info, decoded, palette)->Ok_0.0.len() <= PDF_IMAGE_MEMORY_LIMIT,
{
    let w = info.width as int;
    let h = info.height as int;
    if info.color_space == COLOR_INDEXED {
        let base = indexed_base_components(info.indexed_base_color_space)->0;
        let samples = normalized_spec(decoded, w * h)->Ok_0;
        let high = info.indexed_high_value;
        let pal = palette->Ok_0;
        let out = expanded_spec(samples, pal, high, base, info.decode_mode == 1)->Ok_0;
        assert(out.len() == samples.len() * base);
    } else {
        let c = info.components as int;
        let bits = info.bits_per_component as int;
        let expected = image_size_spec(w, h, c, bits)->Ok_0;
        if bits == 8 {
            let v = normalized_spec(decoded, expected)->Ok_0;
            assert(v.len() == expected);
            assert(maybe_inverted(v, info.decode_mode == 1).len() == v.len());
        } else {
            let v = unpack_spec(decoded, w, h, bits)->Ok_0;
            assert(v.len() == w * h);
            assert(w * h <= w * h * c) by (nonlinear_arith)
                requires
                    w >= 0,
                    h >= 0,
                    c >= 1,
            ;
            assert(maybe_inverted(v, info.decode_mode == 1).len() == v.len());
        }
    }
}

/// An embedded image is accepted exactly when it has a size, a supported filter (JPEG, JPEG 2000,
/// Flate or LZW), a supported colour space (grey, RGB, CMYK, indexed or ICC based) or is a
/// stencil mask, has no colour-key mask and a standard or inverted decode array; in particular
/// ICC-based images are accepted.
pub proof fn lemma_image_acceptance(info: ImageInfo)
    ensures
        image_info_error(info) is None <==> {
            &&& info.width > 0 && info.height > 0
            &&& info.filter == 1 || info.filter == 2 || info.filter == 3 || info.filter == 4
            &&& (info.color_space == 1 || info.color_space == 2 || info.color_space == 3
                || info.color_space == 4 || info.color_space == 5 || info.image_mask != 0)
            &&& info.has_color_key_mask == 0
            &&& info.decode_mode != 2
        },
        info.width > 0 && info.height > 0 && info.filter == FILTER_DCT && info.color_space
            == COLOR_ICC && info.has_color_key_mask == 0 && info.decode_mode == 0
            ==> image_info_error(info) is None,
{
}

} // verus!
