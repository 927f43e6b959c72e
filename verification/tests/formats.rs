use pictrim::formats::{
    buffer_suffix_with_options, effective_output_format, file_rel, is_hidden_name, is_pdf,
    is_supported_image, is_temp_output_name, loads_all_pages, mime_for_output_format,
    output_format_extension, output_path, pdf_output_dir, save_path_with_options,
    temp_output_path, thumbnail_load_source,
};
use pictrim::settings::OutputFormat;
use std::path::Path;

#[test]
fn recognizes_supported_images_case_insensitively() {
    assert!(is_supported_image("a.JPG"));
    assert!(is_supported_image("a.webp"));
    assert!(!is_supported_image("a.txt"));
    assert!(is_pdf("a.PDF"));
}

#[test]
fn maps_output_extension() {
    let output = output_path("/out", "a/b.png", OutputFormat::Webp);
    assert_eq!(output, "/out/a/b.webp");
}

#[test]
fn keeps_output_extension_when_requested() {
    let output = output_path("/out", "a/b.png", OutputFormat::Keep);
    assert_eq!(output, "/out/a/b.png");
}

#[test]
fn temp_output_path_keeps_extension_for_vips_format_detection() {
    let temp = temp_output_path("/out/a/photo.jpg", 4242, 7);
    let path = Path::new(&temp);
    assert_eq!(path.extension().and_then(|e| e.to_str()), Some("jpg"));
    assert!(path
        .file_name()
        .and_then(|n| n.to_str())
        .unwrap()
        .contains(".pictrim-tmp-"));
}

#[test]
fn hidden_names_start_with_dot() {
    assert!(is_hidden_name(".git"));
    assert!(!is_hidden_name("photos"));
}

#[test]
fn recognizes_pictrim_temp_outputs() {
    assert!(is_temp_output_name("photo.pictrim-tmp-123-0.jpg"));
    assert!(!is_temp_output_name("photo.jpg"));
}

#[test]
fn preview_output_format_matches_effective_output() {
    assert_eq!(
        buffer_suffix_with_options(OutputFormat::Jpg, 82),
        ".jpg[Q=82,strip,interlace]"
    );
    assert_eq!(
        buffer_suffix_with_options(OutputFormat::Png, 82),
        ".png[compression=6,strip]"
    );
    assert_eq!(
        buffer_suffix_with_options(OutputFormat::Webp, 82),
        ".webp[Q=82,strip]"
    );
    assert_eq!(
        mime_for_output_format(effective_output_format("source.png", OutputFormat::Keep)),
        "image/png"
    );
}

#[test]
fn temp_output_path_has_exact_shape() {
    assert_eq!(
        temp_output_path("/out/a/photo.jpg", 123, 0),
        "/out/a/photo.pictrim-tmp-123-0.jpg"
    );
    assert_eq!(temp_output_path("/out/book", 9, 12), "/out/book.pictrim-tmp-9-12");
    assert_eq!(temp_output_path("photo.png", 1, 2), "photo.pictrim-tmp-1-2.png");
    assert_eq!(
        temp_output_path("/o/.png", u32::MAX, u64::MAX),
        "/o/.png.pictrim-tmp-4294967295-18446744073709551615"
    );
}

#[test]
fn temp_output_is_recognized_as_temporary() {
    let temp = temp_output_path("/data/pics/x.webp", 77, 3);
    let name = Path::new(&temp).file_name().unwrap().to_str().unwrap().to_string();
    assert!(is_temp_output_name(&name));
    assert_eq!(Path::new(&temp).extension().and_then(|e| e.to_str()), Some("webp"));
}

#[test]
fn output_path_for_each_format() {
    assert_eq!(output_path("/out", "a/b.png", OutputFormat::Jpg), "/out/a/b.jpg");
    assert_eq!(output_path("/out", "a/b.tar.gz", OutputFormat::Png), "/out/a/b.tar.png");
    assert_eq!(output_path("/out/", "noext", OutputFormat::Webp), "/out/noext.webp");
    assert_eq!(output_path("/out", "/abs/c.gif", OutputFormat::Keep), "/abs/c.gif");
}

#[test]
fn effective_format_follows_source_under_keep() {
    assert_eq!(effective_output_format("a.PNG", OutputFormat::Keep), OutputFormat::Png);
    assert_eq!(effective_output_format("a.webp", OutputFormat::Keep), OutputFormat::Webp);
    assert_eq!(effective_output_format("a.gif", OutputFormat::Keep), OutputFormat::Jpg);
    assert_eq!(effective_output_format("a.png", OutputFormat::Webp), OutputFormat::Webp);
    assert_eq!(mime_for_output_format(OutputFormat::Keep), "image/jpeg");
    assert_eq!(mime_for_output_format(OutputFormat::Webp), "image/webp");
}

#[test]
fn multi_page_sources_load_all_pages_when_kept() {
    assert!(loads_all_pages("anim.GIF", OutputFormat::Keep));
    assert!(loads_all_pages("anim.webp", OutputFormat::Webp));
    assert!(!loads_all_pages("anim.gif", OutputFormat::Webp));
    assert!(!loads_all_pages("scan.tiff", OutputFormat::Jpg));
    assert!(!loads_all_pages("photo.jpg", OutputFormat::Keep));
    assert!(!loads_all_pages("noext", OutputFormat::Keep));
    assert_eq!(thumbnail_load_source("/in/a.tif", OutputFormat::Keep), "/in/a.tif[n=-1]");
    assert_eq!(thumbnail_load_source("/in/a.jpg", OutputFormat::Keep), "/in/a.jpg");
}

#[test]
fn save_paths_carry_encoder_options() {
    assert_eq!(
        save_path_with_options("/o/a.jpg", OutputFormat::Jpg, 85),
        "/o/a.jpg[Q=85,strip,interlace]"
    );
    assert_eq!(
        save_path_with_options("/o/a.webp", OutputFormat::Webp, 7),
        "/o/a.webp[Q=7,strip]"
    );
    assert_eq!(
        save_path_with_options("/o/a.png", OutputFormat::Png, 85),
        "/o/a.png[compression=6,strip]"
    );
    assert_eq!(save_path_with_options("/o/a.gif", OutputFormat::Keep, 85), "/o/a.gif");
    assert_eq!(buffer_suffix_with_options(OutputFormat::Keep, 50), ".jpg");
}

#[test]
fn pdf_outputs_and_file_relative_paths() {
    assert_eq!(pdf_output_dir("/out", "docs/report.pdf"), "/out/docs/report");
    assert_eq!(pdf_output_dir("/out", "report.pdf"), "/out/report");
    assert_eq!(output_format_extension(OutputFormat::Jpg), "jpg");
    assert_eq!(output_format_extension(OutputFormat::Png), "png");
    assert_eq!(output_format_extension(OutputFormat::Webp), "webp");
    assert_eq!(output_format_extension(OutputFormat::Keep), "pdf");
    assert_eq!(file_rel("/in/loose.jpg"), "loose.jpg");
    assert_eq!(file_rel("/"), "file");
}

#[test]
fn converted_outputs_keep_their_stem() {
    for (format, ext) in [
        (OutputFormat::Jpg, "jpg"),
        (OutputFormat::Png, "png"),
        (OutputFormat::Webp, "webp"),
    ] {
        let out = output_path("/o", "x/.hidden", format);
        let path = Path::new(&out);
        assert_eq!(path.extension().and_then(|e| e.to_str()), Some(ext));
        assert_eq!(path.file_stem().and_then(|e| e.to_str()), Some(".hidden"));
        let out = output_path("/o", "x/photo.final.tif", format);
        assert_eq!(Path::new(&out).file_stem().and_then(|e| e.to_str()), Some("photo.final"));
    }
}
