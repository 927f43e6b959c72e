use pictrim::order::{chars_less, rel_less, sort_by_rel};
use pictrim::formats::file_rel;
use pictrim::settings::{BatchSettings, CropHorizontal, CropVertical, OutputFormat, ResizeMode, Rotation};
use pictrim::sources::{InputSource, SourcePathKind};
use pictrim::work::{
    directory_entry_rel, directory_source_prefix, excluded_file_name, file_work_item,
    is_single_directory_source, WalkEntry, WorkItem, WorkKind,
};

fn test_settings(input_sources: Vec<String>, output_dir: &str) -> BatchSettings {
    BatchSettings {
        input_sources,
        output_dir: output_dir.to_string(),
        resize_mode: ResizeMode::FitLongestSide,
        max_side: 2000,
        width: 2000,
        height: 2000,
        allow_upscale: false,
        crop_horizontal: CropHorizontal::Center,
        crop_vertical: CropVertical::Center,
        rotation: Rotation::Auto,
        thumbnail: false,
        quality: 85,
        concurrency: 1,
        output_format: OutputFormat::Keep,
        copy_non_images: false,
        skip_existing: true,
    }
}

fn file(path: &str) -> WalkEntry {
    WalkEntry { path: path.to_string(), is_file: true }
}

fn dir(path: &str) -> WalkEntry {
    WalkEntry { path: path.to_string(), is_file: false }
}

fn directory_items(
    root: &str,
    prefix: &Option<String>,
    entries: &[WalkEntry],
    output: &str,
    settings: &BatchSettings,
) -> Vec<WorkItem> {
    let mut items = Vec::new();
    for entry in entries {
        if let Some(rel) = directory_entry_rel(root, prefix, entry) {
            if let Some(item) = file_work_item(&entry.path, rel, output, settings) {
                items.push(item);
            }
        }
    }
    items
}

#[test]
fn single_directory_source_keeps_legacy_relative_paths() {
    let input = "/tmp/pictrim-single-source/photos";
    let output = "/tmp/pictrim-single-source/out";
    let settings = test_settings(vec![input.to_string()], output);
    let sources = vec![InputSource { path: input.to_string(), kind: SourcePathKind::Directory }];
    let single = is_single_directory_source(&sources);
    assert!(single);
    let prefix = directory_source_prefix(single, input);
    assert_eq!(prefix, None);
    let entries = vec![
        dir(input),
        dir("/tmp/pictrim-single-source/photos/nested"),
        file("/tmp/pictrim-single-source/photos/nested/a.jpg"),
    ];
    let items = directory_items(input, &prefix, &entries, output, &settings);
    assert_eq!(items.len(), 1);
    let item = &items[0];
    assert_eq!(item.rel, "nested/a.jpg");
    assert_eq!(item.dst, "/tmp/pictrim-single-source/out/nested/a.jpg");
}

#[test]
fn mixed_sources_wrap_directories_and_keep_files_at_root() {
    let input = "/tmp/pictrim-mixed-source/photos";
    let loose = "/tmp/pictrim-mixed-source/loose.jpg";
    let output = "/tmp/pictrim-mixed-source/out";
    let settings = test_settings(vec![input.to_string(), loose.to_string()], output);
    let sources = vec![
        InputSource { path: input.to_string(), kind: SourcePathKind::Directory },
        InputSource { path: loose.to_string(), kind: SourcePathKind::File },
    ];
    let single = is_single_directory_source(&sources);
    assert!(!single);
    let prefix = directory_source_prefix(single, input);
    assert_eq!(prefix, Some("photos".to_string()));
    let entries = vec![dir(input), file("/tmp/pictrim-mixed-source/photos/a.jpg")];
    let mut items = directory_items(input, &prefix, &entries, output, &settings);
    items.push(file_work_item(loose, file_rel(loose), output, &settings).unwrap());
    let mut rels: Vec<String> = items.into_iter().map(|item| item.rel).collect();
    rels.sort();
    assert_eq!(rels, vec!["loose.jpg".to_string(), "photos/a.jpg".to_string()]);
}

#[test]
fn walked_entries_skip_hidden_temporary_and_foreign_paths() {
    let root = "/in/photos";
    let none: Option<String> = None;
    assert_eq!(directory_entry_rel(root, &none, &dir("/in/photos/sub")), None);
    assert_eq!(directory_entry_rel(root, &none, &file("/in/photos/.hidden/b.jpg")), None);
    assert_eq!(directory_entry_rel(root, &none, &file("/in/photos/x.pictrim-tmp-1-0.jpg")), None);
    assert_eq!(directory_entry_rel(root, &none, &file("/elsewhere/c.jpg")), None);
    assert_eq!(
        directory_entry_rel(root, &none, &file("/in/photos/sub/c.jpg")),
        Some("sub/c.jpg".to_string())
    );
    let prefix = Some("photos".to_string());
    assert_eq!(
        directory_entry_rel(root, &prefix, &file("/in/photos/sub/c.jpg")),
        Some("photos/sub/c.jpg".to_string())
    );
}

#[test]
fn work_items_by_kind_and_format() {
    let mut s = test_settings(vec![], "/out");
    s.output_format = OutputFormat::Webp;
    let img = file_work_item("/in/a/b.PNG", "a/b.PNG".to_string(), "/out", &s).unwrap();
    assert_eq!(img.kind, WorkKind::RasterImage);
    assert_eq!(img.dst, "/out/a/b.webp");
    let pdf = file_work_item("/in/doc.pdf", "doc.pdf".to_string(), "/out", &s).unwrap();
    assert_eq!(pdf.kind, WorkKind::Pdf);
    assert_eq!(pdf.dst, "/out/doc");
    assert!(file_work_item("/in/notes.txt", "notes.txt".to_string(), "/out", &s).is_none());
    s.copy_non_images = true;
    let other = file_work_item("/in/notes.txt", "notes.txt".to_string(), "/out", &s).unwrap();
    assert_eq!(other.kind, WorkKind::Other);
    assert_eq!(other.dst, "/out/notes.txt");
    s.output_format = OutputFormat::Keep;
    let kept = file_work_item("/in/doc.pdf", "d/doc.pdf".to_string(), "/out", &s).unwrap();
    assert_eq!(kept.dst, "/out/d/doc.pdf");
    assert!(file_work_item("/in/.secret.jpg", ".secret.jpg".to_string(), "/out", &s).is_none());
    assert!(file_work_item("/in/a.pictrim-tmp-9-9.jpg", "a.jpg".to_string(), "/out", &s).is_none());
    assert!(excluded_file_name("/x/.DS_Store"));
    assert!(!excluded_file_name("/x/a.jpg"));
}

#[test]
fn items_sort_by_relative_path_components() {
    assert!(chars_less(&['a'], &['b']));
    assert!(chars_less(&['a'], &['a', 'a']));
    assert!(!chars_less(&['b'], &['a', 'z']));
    assert!(rel_less("a/b", "a.b"));
    assert!(rel_less("a", "a/b"));
    assert!(!rel_less("b", "a/z"));
    let item = |rel: &str| WorkItem {
        src: format!("/in/{rel}"),
        rel: rel.to_string(),
        dst: format!("/out/{rel}"),
        kind: WorkKind::RasterImage,
    };
    let sorted = sort_by_rel(vec![item("photos/nested/a.jpg"), item("loose.png"), item("a.b"), item("a/b")]);
    let rels: Vec<String> = sorted.into_iter().map(|i| i.rel).collect();
    assert_eq!(rels, vec!["a/b", "a.b", "loose.png", "photos/nested/a.jpg"]);
}

#[test]
fn sorting_keeps_the_order_of_equal_paths() {
    let item = |src: &str, rel: &str| WorkItem {
        src: src.to_string(),
        rel: rel.to_string(),
        dst: format!("/out/{rel}"),
        kind: WorkKind::RasterImage,
    };
    let sorted = sort_by_rel(vec![
        item("/b/x.jpg", "x.jpg"),
        item("/a/w.jpg", "w.jpg"),
        item("/a/x.jpg", "x.jpg"),
        item("/c/x.jpg", "./x.jpg"),
    ]);
    let srcs: Vec<String> = sorted.into_iter().map(|i| i.src).collect();
    assert_eq!(srcs, vec!["/a/w.jpg", "/b/x.jpg", "/a/x.jpg", "/c/x.jpg"]);
}
