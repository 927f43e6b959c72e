use pictrim::settings::{
    blank, crop_offset, crop_window, resize_target, rotation_angle, validate_dimensions,
    BatchSettings, CropAnchor, CropHorizontal, CropVertical, OutputFormat, ResizeMode, Rotation,
};
use pictrim::sources::{
    classify_sources, input_sources, output_inside_input, same_file_path, validate_preview_settings,
    validate_settings, PathProbe, SourceKind, SourcePathKind,
};

fn test_settings(input_sources: Vec<String>, output_dir: &str) -> BatchSettings {
    BatchSettings {
        input_sources,
        output_dir: output_dir.to_string(),
        resize_mode: ResizeMode::FitLongestSide,
        max_side: 2000,
        width: 2000,
        height: 2000,
        allow_upscale: false,
        crop_horizontal: CropHorizontal::Center,
        crop_vertical: CropVertical::Center,
        rotation: Rotation::Auto,
        thumbnail: false,
        quality: 85,
        concurrency: 1,
        output_format: OutputFormat::Keep,
        copy_non_images: false,
        skip_existing: true,
    }
}

fn dir_probe(canonical: &str) -> PathProbe {
    PathProbe { kind: Some(SourcePathKind::Directory), canonical: Some(canonical.to_string()) }
}

fn file_probe(canonical: &str) -> PathProbe {
    PathProbe { kind: Some(SourcePathKind::File), canonical: Some(canonical.to_string()) }
}

fn missing_probe() -> PathProbe {
    PathProbe { kind: None, canonical: None }
}

#[test]
fn rejects_output_inside_input_but_allows_others() {
    let input = "/tmp/pictrim-io/input";
    let nested = "/tmp/pictrim-io/input/out";
    let sibling = "/tmp/pictrim-io/output";
    assert!(output_inside_input(input, nested));
    assert!(!output_inside_input(input, sibling));
    assert!(!output_inside_input(input, input));
}

#[test]
fn inside_check_works_by_components() {
    assert!(!output_inside_input("/a/in", "/a/input"));
    assert!(output_inside_input("/a/in/", "/a/in/x"));
    assert!(!output_inside_input("/a/in", "/a/in/"));
    assert!(output_inside_input("/a/./in", "/a/in/deep/er"));
}

#[test]
fn dimension_checks_follow_the_resize_mode() {
    let mut s = test_settings(vec![], "/out");
    assert!(validate_dimensions(&s).is_ok());
    s.max_side = 0;
    assert_eq!(validate_dimensions(&s), Err("最长边必须在 1 到 50000 之间".to_string()));
    s.resize_mode = ResizeMode::FitWidth;
    assert!(validate_dimensions(&s).is_ok());
    s.width = 50001;
    assert_eq!(validate_dimensions(&s), Err("宽度必须在 1 到 50000 之间".to_string()));
    s.resize_mode = ResizeMode::FitHeight;
    assert!(validate_dimensions(&s).is_ok());
    s.height = 0;
    assert_eq!(validate_dimensions(&s), Err("高度必须在 1 到 50000 之间".to_string()));
    s.resize_mode = ResizeMode::FixedCrop;
    assert_eq!(validate_dimensions(&s), Err("宽度必须在 1 到 50000 之间".to_string()));
    s.width = 10;
    assert_eq!(validate_dimensions(&s), Err("高度必须在 1 到 50000 之间".to_string()));
    s.height = 50000;
    assert!(validate_dimensions(&s).is_ok());
}

#[test]
fn resize_target_square_or_box() {
    let mut s = test_settings(vec![], "/out");
    s.max_side = 1200;
    s.width = 300;
    s.height = 200;
    let t = resize_target(&s);
    assert_eq!((t.width, t.height, t.size), (1200, 1200, "down"));
    s.resize_mode = ResizeMode::FitBox;
    s.allow_upscale = true;
    let t = resize_target(&s);
    assert_eq!((t.width, t.height, t.size), (300, 200, "both"));
}

#[test]
fn crop_offsets_and_window() {
    assert_eq!(crop_offset(10, CropAnchor::Start), 0);
    assert_eq!(crop_offset(11, CropAnchor::Center), 5);
    assert_eq!(crop_offset(10, CropAnchor::End), 10);
    assert_eq!(crop_offset(-4, CropAnchor::End), 0);
    assert_eq!(crop_offset(-3, CropAnchor::Center), 0);
    assert_eq!(CropHorizontal::Right.anchor(), CropAnchor::End);
    assert_eq!(CropVertical::Top.anchor(), CropAnchor::Start);
    let mut s = test_settings(vec![], "/out");
    s.width = 100;
    s.height = 50;
    s.crop_horizontal = CropHorizontal::Right;
    s.crop_vertical = CropVertical::Center;
    let w = crop_window(400, 300, &s);
    assert_eq!((w.left, w.top, w.width, w.height), (300, 125, 100, 50));
    let w = crop_window(60, 20, &s);
    assert_eq!((w.left, w.top, w.width, w.height), (0, 0, 60, 20));
}

#[test]
fn rotation_angles() {
    assert_eq!(rotation_angle(Rotation::Auto), None);
    assert_eq!(rotation_angle(Rotation::Rotate0), None);
    assert_eq!(rotation_angle(Rotation::Rotate90), Some("d90"));
    assert_eq!(rotation_angle(Rotation::Rotate180), Some("d180"));
    assert_eq!(rotation_angle(Rotation::Rotate270), Some("d270"));
    assert!(blank(" \t\n"));
    assert!(blank(""));
    assert!(!blank(" a "));
}

#[test]
fn classifies_sources_by_probe() {
    let out = classify_sources(
        vec!["/a".to_string(), "/b.jpg".to_string(), "/gone".to_string()],
        &vec![dir_probe("/a"), file_probe("/b.jpg"), missing_probe()],
    );
    assert_eq!(out.len(), 3);
    assert_eq!(out[0].kind, SourceKind::Directory);
    assert_eq!(out[1].kind, SourceKind::File);
    assert_eq!(out[2].kind, SourceKind::Missing);
    assert_eq!(out[2].path, "/gone");
}

#[test]
fn input_sources_report_the_first_missing_path() {
    let s = test_settings(vec!["/a".to_string(), "/x".to_string(), "/y".to_string()], "/out");
    let r = input_sources(&s, &vec![dir_probe("/a"), missing_probe(), missing_probe()]);
    assert_eq!(r.err(), Some("输入来源不存在: /x".to_string()));
    let r = input_sources(&s, &vec![dir_probe("/a"), file_probe("/x"), dir_probe("/y")]).unwrap();
    assert_eq!(r.len(), 3);
    assert_eq!(r[1].kind, SourcePathKind::File);
    assert_eq!(r[2].path, "/y");
}

#[test]
fn same_file_uses_canonical_forms_when_both_resolve() {
    assert!(same_file_path("/a/./b", &file_probe("/real/b"), "/c", &file_probe("/real/b")));
    assert!(!same_file_path("/a", &file_probe("/real/a"), "/a", &file_probe("/real/z")));
    assert!(same_file_path("/a//b", &missing_probe(), "/a/b", &file_probe("/x")));
    assert!(!same_file_path("/a/b", &missing_probe(), "/a/c", &missing_probe()));
}

#[test]
fn batch_validation_reports_each_rule() {
    let probes = vec![dir_probe("/in")];
    let resolved = vec!["/in".to_string()];
    let mut s = test_settings(vec!["/in".to_string()], "/out");
    assert!(validate_settings(&s, &probes, &resolved, "/out").is_ok());
    assert_eq!(
        validate_settings(&s, &probes, &resolved, "/in/out"),
        Err("输出目录不能位于输入目录内部，请另选位置".to_string())
    );
    s.concurrency = 129;
    assert_eq!(
        validate_settings(&s, &probes, &resolved, "/out"),
        Err("并发数必须在 1 到 128 之间".to_string())
    );
    s.quality = 0;
    assert_eq!(
        validate_settings(&s, &probes, &resolved, "/out"),
        Err("质量必须在 1 到 100 之间".to_string())
    );
    s.output_dir = "  ".to_string();
    assert_eq!(
        validate_settings(&s, &probes, &resolved, "/out"),
        Err("请选择输出目录".to_string())
    );
    let empty = test_settings(vec![], "/out");
    assert_eq!(
        validate_settings(&empty, &vec![], &vec![], "/out"),
        Err("请选择输入来源".to_string())
    );
    let mut fixed = test_settings(vec!["/in".to_string()], "/out");
    fixed.resize_mode = ResizeMode::FitBox;
    fixed.max_side = 0;
    assert_eq!(
        validate_settings(&fixed, &probes, &resolved, "/out"),
        Err("最长边必须在 1 到 50000 之间".to_string())
    );
}

#[test]
fn files_inside_the_output_are_not_refused() {
    let probes = vec![file_probe("/in/a.jpg")];
    let resolved = vec!["/in/a.jpg".to_string()];
    let s = test_settings(vec!["/in/a.jpg".to_string()], "/in/a.jpg/x");
    assert!(validate_settings(&s, &probes, &resolved, "/in/a.jpg/x").is_ok());
}

#[test]
fn preview_validation_checks_output_first_and_skips_concurrency() {
    let mut s = test_settings(vec!["/gone".to_string()], "");
    assert_eq!(
        validate_preview_settings(&s, &vec![missing_probe()]),
        Err("请选择输出目录".to_string())
    );
    s.output_dir = "/out".to_string();
    assert_eq!(
        validate_preview_settings(&s, &vec![missing_probe()]),
        Err("输入来源不存在: /gone".to_string())
    );
    s.concurrency = 0;
    assert!(validate_preview_settings(&s, &vec![dir_probe("/gone")]).is_ok());
    s.quality = 101;
    assert_eq!(
        validate_preview_settings(&s, &vec![dir_probe("/gone")]),
        Err("质量必须在 1 到 100 之间".to_string())
    );
}

#[test]
fn settings_accepted_for_a_batch_are_accepted_for_a_preview() {
    let probes = vec![dir_probe("/in"), file_probe("/x.png")];
    let resolved = vec!["/in".to_string(), "/x.png".to_string()];
    let mut s = test_settings(vec!["/in".to_string(), "/x.png".to_string()], "/out");
    s.resize_mode = ResizeMode::FitHeight;
    s.height = 480;
    assert!(validate_settings(&s, &probes, &resolved, "/out").is_ok());
    assert!(validate_preview_settings(&s, &probes).is_ok());
}
