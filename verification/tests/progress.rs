use pictrim::progress::{
    apply_result, error_progress, final_progress, item_step, pdf_item_result, progress_due,
    BatchProgress, CollisionMap, Counters, ItemResult, ItemStep, PdfOutcome,
};
use pictrim::work::{WorkItem, WorkKind};

fn item(rel: &str, dst: &str) -> WorkItem {
    WorkItem {
        src: format!("/in/{rel}"),
        rel: rel.to_string(),
        dst: dst.to_string(),
        kind: WorkKind::RasterImage,
    }
}

#[test]
fn results_update_the_totals() {
    let mut c = Counters::new();
    let a = item("a.jpg", "/out/a.jpg");
    apply_result(&mut c, &a, ItemResult::Image { src_bytes: 100, dst_bytes: 40 });
    apply_result(
        &mut c,
        &item("d.pdf", "/out/d.pdf"),
        ItemResult::Pdf {
            src_bytes: 1000,
            dst_bytes: 600,
            embedded_images: 3,
            warnings: vec!["w1".to_string(), "w2".to_string()],
        },
    );
    apply_result(&mut c, &a, ItemResult::Copied { src_bytes: 5, dst_bytes: 5 });
    apply_result(&mut c, &a, ItemResult::Skipped);
    apply_result(&mut c, &a, ItemResult::Cancelled);
    apply_result(&mut c, &item("bad.png", "/out/bad.png"), ItemResult::Failed("boom".to_string()));
    assert_eq!(c.processed, 6);
    assert_eq!((c.images, c.pdfs, c.copied, c.skipped, c.failed), (1, 1, 1, 1, 1));
    assert_eq!(c.embedded_images, 3);
    assert_eq!((c.total_src_bytes, c.total_dst_bytes), (1105, 645));
    assert_eq!(c.warnings.len(), 2);
    assert_eq!((c.warnings[1].rel.as_str(), c.warnings[1].message.as_str()), ("d.pdf", "w2"));
    assert_eq!(c.failures.len(), 1);
    assert_eq!((c.failures[0].rel.as_str(), c.failures[0].message.as_str()), ("bad.png", "boom"));

    let p = c.snapshot("processing", 9, Some("a.jpg".to_string()), None, false, false);
    assert_eq!(p.phase, "processing");
    assert_eq!((p.discovered, p.processed, p.failed), (9, 6, 1));
    assert_eq!(p.current, Some("a.jpg".to_string()));
    let done = final_progress(&c, 9, true);
    assert_eq!(done.phase, "done");
    assert_eq!(done.message, Some("已停止任务".to_string()));
    assert!(done.done && done.cancelled);
    assert_eq!(done.current, None);
    let finished = final_progress(&c, 9, false);
    assert_eq!(finished.message, Some("处理完成".to_string()));
}

#[test]
fn totals_wrap_like_atomic_counters() {
    let mut c = Counters::new();
    c.total_src_bytes = u64::MAX;
    c.processed = usize::MAX;
    apply_result(&mut c, &item("a.jpg", "/o/a.jpg"), ItemResult::Image { src_bytes: 2, dst_bytes: 1 });
    assert_eq!(c.total_src_bytes, 1);
    assert_eq!(c.processed, 0);
}

#[test]
fn empty_and_error_reports() {
    let e = BatchProgress::empty();
    assert_eq!(e.phase, "");
    assert_eq!((e.discovered, e.processed, e.total_dst_bytes), (0, 0, 0));
    assert!(!e.done && !e.cancelled);
    let err = error_progress("失败".to_string());
    assert_eq!(err.phase, "error");
    assert_eq!(err.message, Some("失败".to_string()));
    assert!(err.done && !err.cancelled);
}

#[test]
fn progress_reports_every_hundred_milliseconds() {
    assert!(!progress_due(199, 100));
    assert!(progress_due(200, 100));
    assert!(!progress_due(50, 100));
    assert!(progress_due(100, 0));
}

#[test]
fn colliding_outputs_are_refused_with_both_paths() {
    let mut m = CollisionMap::new();
    assert!(m.claim(&item("a.png", "/out/a.jpg")).is_ok());
    assert!(m.claim(&item("b.jpg", "/out/b.jpg")).is_ok());
    let err = m.claim(&item("a.jpeg", "/out//a.jpg")).unwrap_err();
    assert_eq!(
        err,
        "输出路径冲突: a.png 和 a.jpeg 都会写入 /out//a.jpg。请调整输入文件名或输出位置。"
    );
    assert_eq!(m.seen.len(), 2);
}

#[test]
fn item_steps() {
    assert_eq!(item_step(WorkKind::RasterImage, true, true, false), ItemStep::SkipExisting);
    assert_eq!(item_step(WorkKind::Other, true, true, true), ItemStep::SkipExisting);
    assert_eq!(item_step(WorkKind::RasterImage, false, true, false), ItemStep::Resize);
    assert_eq!(item_step(WorkKind::Pdf, true, false, false), ItemStep::ProcessPdf);
    assert_eq!(item_step(WorkKind::Other, false, false, true), ItemStep::SkipSameFile);
    assert_eq!(item_step(WorkKind::Other, false, false, false), ItemStep::Copy);
}

#[test]
fn pdf_results() {
    let ok = pdf_item_result(
        Ok(PdfOutcome { src_bytes: 10, dst_bytes: 4, embedded_images: 2, warnings: vec![] }),
        true,
    );
    assert!(matches!(ok, ItemResult::Pdf { src_bytes: 10, dst_bytes: 4, embedded_images: 2, .. }));
    assert!(matches!(pdf_item_result(Err("x".to_string()), true), ItemResult::Cancelled));
    match pdf_item_result(Err("x".to_string()), false) {
        ItemResult::Failed(m) => assert_eq!(m, "x"),
        other => panic!("unexpected {other:?}"),
    }
}
