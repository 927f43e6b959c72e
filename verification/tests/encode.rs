use pictrim::encode::{check_preview_request, encoded_preview_image, render_preview_blocking, PreviewImage};
use pictrim::settings::{BatchSettings, CropHorizontal, CropVertical, OutputFormat, ResizeMode, Rotation};
use pictrim::sources::{PathProbe, SourcePathKind};

fn test_settings(input_sources: Vec<String>, output_dir: &str) -> BatchSettings {
    BatchSettings {
        input_sources,
        output_dir: output_dir.to_string(),
        resize_mode: ResizeMode::FitLongestSide,
        max_side: 2000,
        width: 2000,
        height: 2000,
        allow_upscale: false,
        crop_horizontal: CropHorizontal::Center,
        crop_vertical: CropVertical::Center,
        rotation: Rotation::Auto,
        thumbnail: false,
        quality: 85,
        concurrency: 1,
        output_format: OutputFormat::Keep,
        copy_non_images: false,
        skip_existing: true,
    }
}

fn file_probe(path: &str) -> PathProbe {
    PathProbe { kind: Some(SourcePathKind::File), canonical: Some(path.to_string()) }
}

fn dir_probe(path: &str) -> PathProbe {
    PathProbe { kind: Some(SourcePathKind::Directory), canonical: Some(path.to_string()) }
}

fn image(tag: &[u8]) -> PreviewImage {
    encoded_preview_image(tag, "image/png", 3, 2, 99)
}

#[test]
fn preview_images_are_base64_encoded() {
    let p = encoded_preview_image(&[1, 2, 3], "image/png", 10, 20, 3);
    assert_eq!(p.data, "AQID");
    assert_eq!(p.mime, "image/png");
    assert_eq!((p.width, p.height, p.bytes), (10, 20, 3));
    assert_eq!(encoded_preview_image(b"hello", "image/webp", 1, 1, 5).data, "aGVsbG8=");
    assert_eq!(encoded_preview_image(&[], "image/jpeg", 0, 0, 0).data, "");
}

#[test]
fn preview_requests_are_checked_in_order() {
    let settings = test_settings(vec!["/p/photos".to_string()], "/p/out");
    let probes = vec![dir_probe("/p/photos")];
    let ok: Result<(), String> = Ok(());
    assert_eq!(
        check_preview_request(&settings, &probes, &ok, "/p/photos/a/b.jpg", &file_probe("/p/photos/a/b.jpg")),
        Ok("a/b.jpg".to_string())
    );
    assert_eq!(
        check_preview_request(&settings, &probes, &Err("libvips 初始化失败".to_string()), "/p/photos/b.jpg", &file_probe("/p/photos/b.jpg")),
        Err("libvips 初始化失败".to_string())
    );
    assert_eq!(
        check_preview_request(&settings, &probes, &ok, "/p/photos/gone.jpg", &PathProbe { kind: None, canonical: None }),
        Err("预览文件不存在".to_string())
    );
    assert_eq!(
        check_preview_request(&settings, &probes, &ok, "/p/photos/n.txt", &file_probe("/p/photos/n.txt")),
        Err("不支持的图片格式".to_string())
    );
    assert_eq!(
        check_preview_request(&settings, &probes, &ok, "/q/x.jpg", &file_probe("/q/x.jpg")),
        Err("预览文件不在输入来源中".to_string())
    );
    let blank = test_settings(vec!["/p/photos".to_string()], "");
    assert_eq!(
        check_preview_request(&blank, &probes, &ok, "/p/photos/b.jpg", &file_probe("/p/photos/b.jpg")),
        Err("请选择输出目录".to_string())
    );
}

#[test]
fn preview_pairs_carry_both_renderings() {
    let settings = test_settings(vec!["/p/photos".to_string()], "/p/out");
    let probes = vec![dir_probe("/p/photos")];
    let ok: Result<(), String> = Ok(());
    let pair = render_preview_blocking(
        &settings,
        &probes,
        &ok,
        "/p/photos/b.jpg",
        &file_probe("/p/photos/b.jpg"),
        Ok(image(b"x")),
        Ok(image(b"yz")),
    )
    .unwrap();
    assert_eq!(pair.rel, "b.jpg");
    assert_eq!(pair.before.data, "eA==");
    assert_eq!(pair.after.data, "eXo=");
    let failed = render_preview_blocking(
        &settings,
        &probes,
        &ok,
        "/p/photos/b.jpg",
        &file_probe("/p/photos/b.jpg"),
        Err("读取失败".to_string()),
        Err("生成预览失败".to_string()),
    );
    assert_eq!(failed.err(), Some("读取失败".to_string()));
    let after_failed = render_preview_blocking(
        &settings,
        &probes,
        &ok,
        "/p/photos/b.jpg",
        &file_probe("/p/photos/b.jpg"),
        Ok(image(b"x")),
        Err("生成预览失败".to_string()),
    );
    assert_eq!(after_failed.err(), Some("生成预览失败".to_string()));
}
