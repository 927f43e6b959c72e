use pictrim::pdf::{
    check_decoded_pdf_image, check_encoded_pdf_image, check_encoded_pdf_length,
    check_mask_matches_image, checked_pdf_image_size, decode_pdf_image_pixels, pdf_warnings, expand_indexed_samples, extraction_mask_ref,
    interpretation_for_components, masks_to_replace, normalize_pdf_decoded_length,
    pdf_image_file_name, pdf_interpretation, replace_pdf_mask, replacement_color_space,
    unpack_pdf_samples, validate_pdf_image_info, ImageInfo, Interpretation, MaskSet, PageCounter,
    COLOR_CMYK, COLOR_GRAY, COLOR_ICC, COLOR_INDEXED, COLOR_RGB, FILTER_DCT, FILTER_FLATE,
    PDF_IMAGE_MEMORY_LIMIT,
};
use pictrim::settings::OutputFormat;

fn info() -> ImageInfo {
    ImageInfo {
        object_id: 5,
        generation: 0,
        first_page: 1,
        image_index: 1,
        width: 2,
        height: 2,
        bits_per_component: 8,
        components: 3,
        filter: FILTER_FLATE,
        color_space: COLOR_RGB,
        indexed_base_color_space: 0,
        indexed_high_value: 0,
        smask_object_id: 0,
        smask_generation: 0,
        mask_object_id: 0,
        mask_generation: 0,
        has_color_key_mask: 0,
        image_mask: 0,
        decode_mode: 0,
    }
}

#[test]
fn image_info_checks_in_order() {
    assert!(validate_pdf_image_info(&info()).is_ok());
    let mut i = info();
    i.width = 0;
    assert_eq!(validate_pdf_image_info(&i), Err("PDF 图片尺寸无效".to_string()));
    let mut i = info();
    i.filter = 9;
    assert_eq!(
        validate_pdf_image_info(&i),
        Err("不支持的 PDF 图片编码（仅支持 JPEG/JPX/Flate/LZW）".to_string())
    );
    let mut i = info();
    i.color_space = 0;
    assert_eq!(validate_pdf_image_info(&i), Err("不支持的 PDF 图片色彩空间".to_string()));
    i.image_mask = 1;
    assert!(validate_pdf_image_info(&i).is_ok());
    let mut i = info();
    i.has_color_key_mask = 1;
    assert_eq!(validate_pdf_image_info(&i), Err("暂不支持 PDF 颜色键 Mask".to_string()));
    let mut i = info();
    i.decode_mode = 2;
    assert_eq!(
        validate_pdf_image_info(&i),
        Err("暂不支持 PDF 图片的非标准 Decode 数组".to_string())
    );
}

#[test]
fn image_sizes_and_the_memory_limit() {
    assert_eq!(checked_pdf_image_size(2, 3, 3, 8), Ok(18));
    assert_eq!(checked_pdf_image_size(10, 1, 1, 1), Ok(2));
    assert_eq!(checked_pdf_image_size(3, 3, 1, 4), Ok(5));
    assert_eq!(checked_pdf_image_size(0, 3, 1, 8), Err("PDF 图片参数无效".to_string()));
    assert_eq!(
        checked_pdf_image_size(16384, 16384, 3, 8),
        Err("PDF 图片解码内存超过 512 MiB".to_string())
    );
    assert_eq!(checked_pdf_image_size(16384, 8192, 4, 8), Ok(PDF_IMAGE_MEMORY_LIMIT));
    assert_eq!(
        checked_pdf_image_size(u32::MAX, u32::MAX, u32::MAX, u32::MAX),
        Err("PDF 图片尺寸乘法溢出".to_string())
    );
}

#[test]
fn decoded_lengths_tolerate_two_trailing_spaces() {
    assert_eq!(normalize_pdf_decoded_length(vec![1, 2, 3], 3), Ok(vec![1, 2, 3]));
    assert_eq!(normalize_pdf_decoded_length(vec![1, 2, 3, b'\n', b' '], 3), Ok(vec![1, 2, 3]));
    assert_eq!(
        normalize_pdf_decoded_length(vec![1, 2, 3, b' ', b' ', b' '], 3),
        Err("PDF 图片解码数据长度不匹配: 期望 3，实际 6".to_string())
    );
    assert_eq!(
        normalize_pdf_decoded_length(vec![1, 2, 3, 7], 3),
        Err("PDF 图片解码数据长度不匹配: 期望 3，实际 4".to_string())
    );
    assert_eq!(
        normalize_pdf_decoded_length(vec![1], 3),
        Err("PDF 图片解码数据长度不匹配: 期望 3，实际 1".to_string())
    );
}

#[test]
fn packed_masks_unpack_to_full_range_samples() {
    assert_eq!(unpack_pdf_samples(&[0b1010_0000], 3, 1, 1), Ok(vec![255, 0, 255]));
    assert_eq!(
        unpack_pdf_samples(&[0b1110_0100, 0b0100_0000], 3, 2, 2),
        Ok(vec![255, 170, 85, 85, 0, 0])
    );
    assert_eq!(unpack_pdf_samples(&[0xF0, 0x7F], 1, 2, 4), Ok(vec![255, 119]));
    assert_eq!(
        unpack_pdf_samples(&[0xFF], 3, 2, 1),
        Err("PDF 蒙版解码数据长度不匹配".to_string())
    );
}

#[test]
fn indexed_samples_expand_through_the_palette() {
    let palette = [10, 11, 12, 20, 21, 22];
    assert_eq!(
        expand_indexed_samples(&[1, 0], &palette, 1, 3, false),
        Ok(vec![20, 21, 22, 10, 11, 12])
    );
    assert_eq!(
        expand_indexed_samples(&[1, 0, 5], &palette, 1, 3, true),
        Ok(vec![10, 11, 12, 20, 21, 22, 10, 11, 12])
    );
    assert_eq!(
        expand_indexed_samples(&[2], &palette, 1, 3, false),
        Err("PDF Indexed 图片包含越界索引".to_string())
    );
}

#[test]
fn decoded_pixels_of_device_and_indexed_images() {
    let d = decode_pdf_image_pixels(&info(), vec![1; 12], Err("unused".to_string())).unwrap();
    assert_eq!(d.pixels, vec![1; 12]);
    assert_eq!(d.components, 3);
    assert_eq!(d.interpretation, Interpretation::Srgb);

    let mut inverted = info();
    inverted.components = 1;
    inverted.color_space = COLOR_GRAY;
    inverted.decode_mode = 1;
    let d = decode_pdf_image_pixels(&inverted, vec![0, 5, 250, 255], Err("unused".to_string()))
        .unwrap();
    assert_eq!(d.pixels, vec![255, 250, 5, 0]);
    assert_eq!(d.interpretation, Interpretation::BW);

    let mut indexed = info();
    indexed.color_space = COLOR_INDEXED;
    indexed.indexed_base_color_space = COLOR_GRAY;
    indexed.indexed_high_value = 1;
    let d = decode_pdf_image_pixels(&indexed, vec![0, 1, 1, 0], Ok(vec![7, 9])).unwrap();
    assert_eq!(d.pixels, vec![7, 9, 9, 7]);
    assert_eq!(d.components, 1);
    assert_eq!(
        decode_pdf_image_pixels(&indexed, vec![0, 1, 1, 0], Ok(vec![7])).err(),
        Some("PDF Indexed 调色板数据不足".to_string())
    );
    assert_eq!(
        decode_pdf_image_pixels(&indexed, vec![0, 1, 1, 0], Err("读取调色板失败".to_string()))
            .err(),
        Some("读取调色板失败".to_string())
    );
    indexed.indexed_base_color_space = COLOR_ICC;
    assert_eq!(
        decode_pdf_image_pixels(&indexed, vec![0, 1, 1, 0], Ok(vec![7, 9])).err(),
        Some("不支持的 Indexed PDF 基础色彩空间".to_string())
    );

    let mut odd = info();
    odd.bits_per_component = 4;
    assert_eq!(
        decode_pdf_image_pixels(&odd, vec![0; 6], Err("unused".to_string())).err(),
        Some("暂不支持 4-bit PDF 图片".to_string())
    );
}

#[test]
fn encoded_images_are_checked_before_and_after_decoding() {
    let mut jpeg = info();
    jpeg.filter = FILTER_DCT;
    assert!(check_encoded_pdf_image(&jpeg).is_ok());
    jpeg.bits_per_component = 16;
    assert_eq!(check_encoded_pdf_image(&jpeg), Err("暂不支持 16-bit PDF 图片".to_string()));
    assert!(check_encoded_pdf_length(PDF_IMAGE_MEMORY_LIMIT).is_ok());
    assert_eq!(
        check_encoded_pdf_length(PDF_IMAGE_MEMORY_LIMIT + 1),
        Err("PDF 内嵌图片编码数据超过 512 MiB".to_string())
    );
    assert!(check_decoded_pdf_image(&info(), 2, 2, 3).is_ok());
    assert_eq!(
        check_decoded_pdf_image(&info(), 3, 2, 3),
        Err("PDF 图片字典尺寸与编码数据不一致".to_string())
    );
}

#[test]
fn interpretations_and_replacement_spaces() {
    assert_eq!(interpretation_for_components(1), Interpretation::BW);
    assert_eq!(interpretation_for_components(4), Interpretation::Cmyk);
    assert_eq!(interpretation_for_components(3), Interpretation::Srgb);
    assert_eq!(interpretation_for_components(2), Interpretation::Srgb);
    let mut icc = info();
    icc.color_space = COLOR_ICC;
    icc.components = 4;
    assert_eq!(pdf_interpretation(&icc), Ok(Interpretation::Cmyk));
    icc.color_space = COLOR_INDEXED;
    assert_eq!(pdf_interpretation(&icc), Ok(Interpretation::Srgb));
    icc.color_space = COLOR_CMYK;
    assert_eq!(pdf_interpretation(&icc), Ok(Interpretation::Cmyk));
    icc.color_space = 0;
    assert_eq!(pdf_interpretation(&icc), Err("不支持的 PDF 图片色彩空间".to_string()));
    assert_eq!(replacement_color_space(1), Ok(COLOR_GRAY));
    assert_eq!(replacement_color_space(3), Ok(COLOR_RGB));
    assert_eq!(replacement_color_space(4), Ok(COLOR_CMYK));
    assert_eq!(replacement_color_space(2), Err("不支持的 PDF 输出通道数: 2".to_string()));
}

#[test]
fn masks_are_replaced_once_as_flate_grey() {
    let rep = replace_pdf_mask(1, 2, 1, vec![0, 255]).unwrap();
    assert_eq!((rep.width, rep.height, rep.components), (2, 1, 1));
    assert_eq!((rep.color_space, rep.filter), (COLOR_GRAY, FILTER_FLATE));
    assert_eq!(rep.data, vec![0, 255]);
    assert_eq!(
        replace_pdf_mask(3, 2, 1, vec![0; 6]).err(),
        Some("PDF 透明蒙版不是单通道图片".to_string())
    );

    let mut shared = info();
    shared.smask_object_id = 9;
    shared.mask_object_id = 11;
    shared.mask_generation = 2;
    let mut masks = MaskSet::new();
    assert_eq!(masks_to_replace(&shared, &mut masks), vec![(9, 0), (11, 2)]);
    assert_eq!(masks_to_replace(&shared, &mut masks), vec![]);
    let mut other = info();
    other.smask_object_id = 9;
    other.mask_object_id = 12;
    assert_eq!(masks_to_replace(&other, &mut masks), vec![(12, 0)]);
    assert!(!masks.insert((12, 0)));
    assert!(masks.insert((13, 0)));
    assert_eq!(masks_to_replace(&info(), &mut masks), vec![]);
}

#[test]
fn extraction_names_count_images_per_page() {
    let mut counter = PageCounter::new();
    assert_eq!(counter.next_index(1), 1);
    assert_eq!(counter.next_index(1), 2);
    assert_eq!(counter.next_index(3), 1);
    assert_eq!(counter.next_index(1), 3);
    assert_eq!(pdf_image_file_name(1, 1, OutputFormat::Png), "page-0001-image-0001.png");
    assert_eq!(pdf_image_file_name(12, 345, OutputFormat::Jpg), "page-0012-image-0345.jpg");
    assert_eq!(pdf_image_file_name(123456, 7, OutputFormat::Webp), "page-123456-image-0007.webp");
    let mut i = info();
    assert_eq!(extraction_mask_ref(&i), None);
    i.mask_object_id = 4;
    assert_eq!(extraction_mask_ref(&i), Some((4, 0)));
    i.smask_object_id = 3;
    i.smask_generation = 1;
    assert_eq!(extraction_mask_ref(&i), Some((3, 1)));
}

#[test]
fn alpha_masks_must_match_and_signatures_warn() {
    assert!(check_mask_matches_image(10, 20, 10, 20).is_ok());
    assert_eq!(
        check_mask_matches_image(10, 20, 10, 21),
        Err("PDF 主图与透明蒙版处理后的尺寸不一致".to_string())
    );
    assert_eq!(
        pdf_warnings(true),
        vec!["PDF 包含数字签名；处理后签名字段会保留，但原签名将失效".to_string()]
    );
    assert!(pdf_warnings(false).is_empty());
}
