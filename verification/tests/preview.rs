use pictrim::preview::{
    collect_preview_work_items, directory_in_preview_sources, load_preview_directory_blocking,
    load_preview_tree_blocking, preview_entry_from_work_item, preview_rel_for_path,
    preview_work_item_for_path, DirEntryProbe,
};
use pictrim::settings::{BatchSettings, CropHorizontal, CropVertical, OutputFormat, ResizeMode, Rotation};
use pictrim::sources::{PathProbe, SourcePathKind};
use pictrim::work::{directory_entry_rel, directory_source_prefix, WalkEntry, WorkItem, WorkKind};

fn test_settings(input_sources: Vec<String>, output_dir: &str) -> BatchSettings {
    BatchSettings {
        input_sources,
        output_dir: output_dir.to_string(),
        resize_mode: ResizeMode::FitLongestSide,
        max_side: 2000,
        width: 2000,
        height: 2000,
        allow_upscale: false,
        crop_horizontal: CropHorizontal::Center,
        crop_vertical: CropVertical::Center,
        rotation: Rotation::Auto,
        thumbnail: false,
        quality: 85,
        concurrency: 1,
        output_format: OutputFormat::Keep,
        copy_non_images: false,
        skip_existing: true,
    }
}

fn dir_probe(path: &str) -> PathProbe {
    PathProbe { kind: Some(SourcePathKind::Directory), canonical: Some(path.to_string()) }
}

fn file_probe(path: &str) -> PathProbe {
    PathProbe { kind: Some(SourcePathKind::File), canonical: Some(path.to_string()) }
}

fn missing_probe() -> PathProbe {
    PathProbe { kind: None, canonical: None }
}

fn file(path: &str) -> WalkEntry {
    WalkEntry { path: path.to_string(), is_file: true }
}

fn dir(path: &str) -> WalkEntry {
    WalkEntry { path: path.to_string(), is_file: false }
}

fn listed_dir(path: &str, name: &str) -> DirEntryProbe {
    DirEntryProbe {
        path: path.to_string(),
        name: name.to_string(),
        is_dir: true,
        is_file: false,
        probe: dir_probe(path),
    }
}

fn listed_file(path: &str, name: &str) -> DirEntryProbe {
    DirEntryProbe {
        path: path.to_string(),
        name: name.to_string(),
        is_dir: false,
        is_file: true,
        probe: file_probe(path),
    }
}

#[test]
fn preview_tree_uses_batch_relative_paths() {
    let input = "/tmp/pictrim-preview-paths/photos";
    let output = "/tmp/pictrim-preview-paths/out";
    let walk = vec![
        dir(input),
        dir("/tmp/pictrim-preview-paths/photos/nested"),
        file("/tmp/pictrim-preview-paths/photos/nested/a.jpg"),
    ];
    let settings = test_settings(vec![input.to_string()], output);
    let items = collect_preview_work_items(&settings, &vec![dir_probe(input)], &vec![walk.clone()])
        .unwrap();
    assert_eq!(items[0].rel, "nested/a.jpg");

    let loose = "/tmp/pictrim-preview-paths/loose.png";
    let settings = test_settings(vec![input.to_string(), loose.to_string()], output);
    let rels: Vec<String> = collect_preview_work_items(
        &settings,
        &vec![dir_probe(input), file_probe(loose)],
        &vec![walk, vec![]],
    )
    .unwrap()
    .into_iter()
    .map(|item| item.rel)
    .collect();
    assert_eq!(rels, vec!["loose.png".to_string(), "photos/nested/a.jpg".to_string()]);
}

#[test]
fn preview_tree_filters_hidden_temp_and_non_images() {
    let input = "/tmp/pictrim-preview-filters/photos";
    let output = "/tmp/pictrim-preview-filters/out";
    let walk = vec![
        dir(input),
        dir("/tmp/pictrim-preview-filters/photos/.hidden"),
        file("/tmp/pictrim-preview-filters/photos/.hidden/b.jpg"),
        file("/tmp/pictrim-preview-filters/photos/a.jpg"),
        file("/tmp/pictrim-preview-filters/photos/notes.txt"),
        file("/tmp/pictrim-preview-filters/photos/a.pictrim-tmp-123-0.jpg"),
    ];
    let settings = test_settings(vec![input.to_string()], output);
    let rels: Vec<String> = collect_preview_work_items(&settings, &vec![dir_probe(input)], &vec![walk])
        .unwrap()
        .into_iter()
        .map(|item| item.rel)
        .collect();
    assert_eq!(rels, vec!["a.jpg".to_string()]);
}

#[test]
fn preview_directory_pages_one_level_without_recursive_scan() {
    let input = "/tmp/pictrim-preview-directory-page/photos";
    let output = "/tmp/pictrim-preview-directory-page/out";
    let listing = vec![
        listed_file("/tmp/pictrim-preview-directory-page/photos/a.jpg", "a.jpg"),
        listed_dir("/tmp/pictrim-preview-directory-page/photos/nested", "nested"),
    ];
    let settings = test_settings(vec![input.to_string()], output);
    let probes = vec![dir_probe(input)];
    let first = load_preview_directory_blocking(
        &settings,
        &probes,
        None,
        &missing_probe(),
        0,
        1,
        Ok(listing.clone()),
    )
    .unwrap();
    assert_eq!(first.entries.len(), 1);
    assert!(first.next_offset.is_some());
    assert!(first
        .entries
        .iter()
        .all(|entry| entry.rel == "a.jpg" || entry.rel == "nested"));

    let full = load_preview_directory_blocking(
        &settings,
        &probes,
        None,
        &missing_probe(),
        0,
        10,
        Ok(listing),
    )
    .unwrap();
    let rels: Vec<String> = full.entries.into_iter().map(|entry| entry.rel).collect();
    assert!(rels.contains(&"a.jpg".to_string()));
    assert!(rels.contains(&"nested".to_string()));
    assert!(!rels.contains(&"nested/b.jpg".to_string()));
}

#[test]
fn consecutive_pages_tile_the_listing() {
    let input = "/p/photos";
    let settings = test_settings(vec![input.to_string()], "/p/out");
    let probes = vec![dir_probe(input)];
    let listing = vec![
        listed_file("/p/photos/a.jpg", "a.jpg"),
        listed_file("/p/photos/.h.jpg", ".h.jpg"),
        listed_file("/p/photos/n.txt", "n.txt"),
        listed_dir("/p/photos/d", "d"),
        listed_file("/p/photos/b.png", "b.png"),
    ];
    let page = |offset: usize, limit: usize| {
        load_preview_directory_blocking(
            &settings,
            &probes,
            Some(input.to_string()),
            &dir_probe(input),
            offset,
            limit,
            Ok(listing.clone()),
        )
        .unwrap()
    };
    let p0 = page(0, 2);
    let p1 = page(2, 2);
    let all = page(0, 4);
    assert_eq!(p0.next_offset, Some(2));
    assert_eq!(p1.next_offset, None);
    assert_eq!(all.next_offset, None);
    let rels = |v: Vec<pictrim::preview::PreviewDirectoryEntry>| -> Vec<String> {
        v.into_iter().map(|e| e.rel).collect()
    };
    let mut joined = rels(p0.entries);
    joined.extend(rels(p1.entries));
    assert_eq!(joined, vec!["a.jpg", "d", "b.png"]);
    assert_eq!(rels(all.entries), joined);
    assert_eq!(page(0, 0).entries.len(), 1);
    assert_eq!(p0.dir_path, Some(input.to_string()));
}

#[test]
fn directory_listing_refusals() {
    let input = "/p/photos";
    let settings = test_settings(vec![input.to_string()], "/p/out");
    let probes = vec![dir_probe(input)];
    let missing = load_preview_directory_blocking(
        &settings,
        &probes,
        Some("/p/photos/gone".to_string()),
        &missing_probe(),
        0,
        5,
        Ok(vec![]),
    );
    assert_eq!(missing.err(), Some("预览目录不存在".to_string()));
    let outside = load_preview_directory_blocking(
        &settings,
        &probes,
        Some("/q".to_string()),
        &dir_probe("/q"),
        0,
        5,
        Ok(vec![]),
    );
    assert_eq!(outside.err(), Some("预览目录不在输入来源中".to_string()));
    let unreadable = load_preview_directory_blocking(
        &settings,
        &probes,
        Some(input.to_string()),
        &dir_probe(input),
        0,
        5,
        Err("denied".to_string()),
    );
    assert_eq!(unreadable.err(), Some("读取目录失败: denied".to_string()));
    let no_output = test_settings(vec![input.to_string()], " ");
    let refused = load_preview_directory_blocking(
        &no_output,
        &probes,
        None,
        &missing_probe(),
        0,
        5,
        Ok(vec![]),
    );
    assert_eq!(refused.err(), Some("请选择输出目录".to_string()));
}

#[test]
fn root_page_lists_each_source() {
    let settings = test_settings(
        vec!["/p/photos".to_string(), "/p/a.jpg".to_string(), "/p/n.txt".to_string()],
        "/p/out",
    );
    let probes = vec![dir_probe("/p/photos"), file_probe("/p/a.jpg"), file_probe("/p/n.txt")];
    let page = load_preview_directory_blocking(
        &settings,
        &probes,
        None,
        &missing_probe(),
        0,
        10,
        Ok(vec![]),
    )
    .unwrap();
    assert_eq!(page.dir_path, None);
    let rows: Vec<(String, String)> = page.entries.into_iter().map(|e| (e.kind, e.rel)).collect();
    assert_eq!(
        rows,
        vec![
            ("directory".to_string(), "photos".to_string()),
            ("file".to_string(), "a.jpg".to_string()),
        ]
    );
    let second = load_preview_directory_blocking(
        &settings,
        &probes,
        None,
        &missing_probe(),
        1,
        1,
        Ok(vec![]),
    )
    .unwrap();
    assert_eq!(second.entries.len(), 1);
    assert_eq!(second.next_offset, Some(2));
}

#[test]
fn relative_paths_of_previewed_files() {
    let settings = test_settings(vec!["/p/photos".to_string(), "/p/a.jpg".to_string()], "/p/out");
    let probes = vec![dir_probe("/p/photos"), file_probe("/p/a.jpg")];
    assert_eq!(
        preview_rel_for_path(&settings, &probes, "/p/photos/x/y.jpg", &file_probe("/p/photos/x/y.jpg")),
        Ok("photos/x/y.jpg".to_string())
    );
    assert_eq!(
        preview_rel_for_path(&settings, &probes, "/p/a.jpg", &file_probe("/p/a.jpg")),
        Ok("a.jpg".to_string())
    );
    assert_eq!(
        preview_rel_for_path(&settings, &probes, "/p/photos/.x/y.jpg", &file_probe("/p/photos/.x/y.jpg")),
        Err("隐藏文件不参与预览".to_string())
    );
    assert_eq!(
        preview_rel_for_path(&settings, &probes, "/z/y.jpg", &file_probe("/z/y.jpg")),
        Err("预览路径不在输入来源中".to_string())
    );
    assert_eq!(directory_in_preview_sources(&settings, &probes, "/p/photos/x"), Ok(true));
    assert_eq!(directory_in_preview_sources(&settings, &probes, "/p"), Ok(false));
    let item = preview_work_item_for_path(&settings, &probes, "/p/photos/x/y.jpg", &file_probe("/p/photos/x/y.jpg"))
        .unwrap()
        .unwrap();
    assert_eq!(item.rel, "photos/x/y.jpg");
    assert_eq!(item.dst, "/p/out/photos/x/y.jpg");
    assert!(preview_work_item_for_path(&settings, &probes, "/p/photos/n.txt", &file_probe("/p/photos/n.txt"))
        .unwrap()
        .is_none());
    assert!(preview_work_item_for_path(&settings, &probes, "/z/y.jpg", &file_probe("/z/y.jpg"))
        .unwrap()
        .is_none());
}

#[test]
fn preview_rows_and_tree() {
    let entry = preview_entry_from_work_item(WorkItem {
        src: "/in/a/b.jpg".to_string(),
        rel: "a/b.jpg".to_string(),
        dst: "/out/a/b.jpg".to_string(),
        kind: WorkKind::RasterImage,
    });
    assert_eq!(entry.kind, "file");
    assert_eq!(entry.path, "/in/a/b.jpg");
    assert_eq!(entry.rel, "a/b.jpg");
    assert_eq!(entry.name, "b.jpg");
    let settings = test_settings(vec!["/p/photos".to_string()], "/p/out");
    let tree = load_preview_tree_blocking(
        &settings,
        &vec![dir_probe("/p/photos")],
        &vec![vec![file("/p/photos/z/k.webp"), file("/p/photos/b.jpg")]],
    )
    .unwrap();
    assert_eq!(tree.items.len(), 2);
    assert_eq!(tree.items[0].rel, "b.jpg");
    assert_eq!(tree.items[1].segments, vec!["z".to_string(), "k.webp".to_string()]);
    assert_eq!(tree.items[1].name, "k.webp");
}

#[test]
fn preview_and_batch_agree_on_relative_paths() {
    let settings = test_settings(vec!["/p/photos".to_string(), "/p/a.jpg".to_string()], "/p/out");
    let probes = vec![dir_probe("/p/photos"), file_probe("/p/a.jpg")];
    let path = "/p/photos/x/y.jpg";
    let prefix = directory_source_prefix(false, "/p/photos");
    let batch = directory_entry_rel("/p/photos", &prefix, &file(path)).unwrap();
    let shown = preview_rel_for_path(&settings, &probes, path, &file_probe(path)).unwrap();
    assert_eq!(batch, shown);
}
