//! The running totals of a batch, the progress reports built from them, and the checks the
//! batch makes as items are dispatched.
use vstd::prelude::*;
use vstd::wrapping::{u64_specs, usize_specs};
use crate::paths::{same_path, same_path_chars};
use crate::text::{chars_of, extend_chars, owned, string_from_chars};
use crate::work::{item_view, WorkItem, WorkKind};

verus! {

/// What processing one work item came to.
#[derive(Debug)]
pub enum ItemResult {
    Image { src_bytes: u64, dst_bytes: u64 },
    Pdf { src_bytes: u64, dst_bytes: u64, embedded_images: usize, warnings: Vec<String> },
    Copied { src_bytes: u64, dst_bytes: u64 },
    Skipped,
    Cancelled,
    Failed(String),
}

/// The first step of processing one work item.
#[derive(Clone, Copy, Debug, PartialEq, Eq, Structural)]
pub enum ItemStep {
    /// The output already exists and existing outputs are skipped.
    SkipExisting,
    /// A raster image is resized into its output.
    Resize,
    /// A PDF is rewritten or has its images extracted.
    ProcessPdf,
    /// A non-image file whose output is the file itself is left alone.
    SkipSameFile,
    /// A non-image file is copied.
    Copy,
}

/// The step an item of `kind` starts with, given whether existing outputs are skipped, whether
/// its output exists, and whether its output is the same file as its source.
pub open spec fn item_step_spec(kind: WorkKind, skip_existing: bool, dst_exists: bool, same_file: bool) -> ItemStep {
    if skip_existing && dst_exists {
        ItemStep::SkipExisting
    } else {
        match kind {
            WorkKind::RasterImage => ItemStep::Resize,
            WorkKind::Pdf => ItemStep::ProcessPdf,
            WorkKind::Other => if same_file {
                ItemStep::SkipSameFile
            } else {
                ItemStep::Copy
            },
        }
    }
}

/// Decides how a work item is processed.
pub fn item_step(kind: WorkKind, skip_existing: bool, dst_exists: bool, same_file: bool) -> (s: ItemStep)
    ensures
        s == item_step_spec(kind, skip_existing, dst_exists, same_file),
{
    if skip_existing && dst_exists {
        return ItemStep::SkipExisting;
    }
    match kind {
        WorkKind::RasterImage => ItemStep::Resize,
        WorkKind::Pdf => ItemStep::ProcessPdf,
        WorkKind::Other => if same_file {
            ItemStep::SkipSameFile
        } else {
            ItemStep::Copy
        },
    }
}

/// What processing a PDF produced.
#[derive(Debug)]
pub struct PdfOutcome {
    pub src_bytes: u64,
    pub dst_bytes: u64,
    pub embedded_images: usize,
    pub warnings: Vec<String>,
}

/// The result of a PDF item: its totals when processing succeeded; when it failed, `Cancelled`
/// if the batch was being cancelled and `Failed` with the error otherwise.
pub fn pdf_item_result(outcome: Result<PdfOutcome, String>, cancelled: bool) -> (r: ItemResult)
    ensures
        match outcome {
            Ok(o) => r == (ItemResult::Pdf {
                src_bytes: o.src_bytes,
                dst_bytes: o.dst_bytes,
                embedded_images: o.embedded_images,
                warnings: o.warnings,
            }),
            Err(e) => if cancelled {
                r is Cancelled
            } else {
                r == ItemResult::Failed(e)
            },
        },
{
    match outcome {
        Ok(o) => ItemResult::Pdf {
            src_bytes: o.src_bytes,
            dst_bytes: o.dst_bytes,
            embedded_images: o.embedded_images,
            warnings: o.warnings,
        },
        Err(e) => if cancelled {
            ItemResult::Cancelled
        } else {
            ItemResult::Failed(e)
        },
    }
}

/// A failed item and why.
#[derive(Clone, Debug)]
pub struct FailureEntry {
    pub rel: String,
    pub message: String,
}

/// A warning raised while processing an item.
#[derive(Clone, Debug)]
pub struct WarningEntry {
    pub rel: String,
    pub message: String,
}

/// A progress report sent to the user interface.
#[derive(Clone, Debug)]
pub struct BatchProgress {
    pub phase: String,
    pub discovered: usize,
    pub processed: usize,
    pub images: usize,
    pub pdfs: usize,
    pub embedded_images: usize,
    pub copied: usize,
    pub skipped: usize,
    pub failed: usize,
    pub total_src_bytes: u64,
    pub total_dst_bytes: u64,
    pub current: Option<String>,
    pub message: Option<String>,
    pub done: bool,
    pub cancelled: bool,
}

impl BatchProgress {
    /// A report with every count zero, no text, not done and not cancelled.
    pub fn empty() -> (p: BatchProgress)
        ensures
            p.phase@ == Seq::<char>::empty(),
            p.discovered == 0 && p.processed == 0 && p.images == 0 && p.pdfs == 0
                && p.embedded_images == 0 && p.copied == 0 && p.skipped == 0 && p.failed == 0,
            p.total_src_bytes == 0 && p.total_dst_bytes == 0,
            p.current is None && p.message is None,
            !p.done && !p.cancelled,
    {
        BatchProgress {
            phase: String::new(),
            discovered: 0,
            processed: 0,
            images: 0,
            pdfs: 0,
            embedded_images: 0,
            copied: 0,
            skipped: 0,
            failed: 0,
            total_src_bytes: 0,
            total_dst_bytes: 0,
            current: None,
            message: None,
            done: false,
            cancelled: false,
        }
    }
}

/// The running totals of a batch. Counts wrap around on overflow, as atomic counters do.
#[derive(Debug)]
pub struct Counters {
    pub processed: usize,
    pub images: usize,
    pub pdfs: usize,
    pub embedded_images: usize,
    pub copied: usize,
    pub skipped: usize,
    pub failed: usize,
    pub total_src_bytes: u64,
    pub total_dst_bytes: u64,
    pub failures: Vec<FailureEntry>,
    pub warnings: Vec<WarningEntry>,
}

/// The abstract value of a failure entry.
pub open spec fn failure_view(f: FailureEntry) -> (Seq<char>, Seq<char>) {
    (f.rel@, f.message@)
}

/// The abstract value of a warning entry.
pub open spec fn warning_view(w: WarningEntry) -> (Seq<char>, Seq<char>) {
    (w.rel@, w.message@)
}

/// The warning entries for `messages` raised by the item at `rel`.
pub open spec fn warnings_for(rel: Seq<char>, messages: Seq<String>) -> Seq<(Seq<char>, Seq<char>)> {
    messages.map_values(|m: String| (rel, m@))
}

/// The totals after recording `result` for the item at `rel`.
pub open spec fn applied(c: CountersView, rel: Seq<char>, result: ItemResult) -> CountersView {
    let c = CountersView { processed: usize_specs::wrapping_add(c.processed, 1), ..c };
    match result {
        ItemResult::Image { src_bytes, dst_bytes } => CountersView {
            images: usize_specs::wrapping_add(c.images, 1),
            total_src_bytes: u64_specs::wrapping_add(c.total_src_bytes, src_bytes),
            total_dst_bytes: u64_specs::wrapping_add(c.total_dst_bytes, dst_bytes),
            ..c
        },
        ItemResult::Pdf { src_bytes, dst_bytes, embedded_images, warnings } => CountersView {
            pdfs: usize_specs::wrapping_add(c.pdfs, 1),
            embedded_images: usize_specs::wrapping_add(c.embedded_images, embedded_images),
            total_src_bytes: u64_specs::wrapping_add(c.total_src_bytes, src_bytes),
            total_dst_bytes: u64_specs::wrapping_add(c.total_dst_bytes, dst_bytes),
            warnings: c.warnings + warnings_for(rel, warnings@),
            ..c
        },
        ItemResult::Copied { src_bytes, dst_bytes } => CountersView {
            copied: usize_specs::wrapping_add(c.copied, 1),
            total_src_bytes: u64_specs::wrapping_add(c.total_src_bytes, src_bytes),
            total_dst_bytes: u64_specs::wrapping_add(c.total_dst_bytes, dst_bytes),
            ..c
        },
        ItemResult::Skipped => CountersView { skipped: usize_specs::wrapping_add(c.skipped, 1), ..c },
        ItemResult::Cancelled => c,
        ItemResult::Failed(message) => CountersView {
            failed: usize_specs::wrapping_add(c.failed, 1),
            failures: c.failures.push((rel, message@)),
            ..c
        },
    }
}

/// The abstract value of the totals.
pub struct CountersView {
    pub processed: usize,
    pub images: usize,
    pub pdfs: usize,
    pub embedded_images: usize,
    pub copied: usize,
    pub skipped: usize,
    pub failed: usize,
    pub total_src_bytes: u64,
    pub total_dst_bytes: u64,
    pub failures: Seq<(Seq<char>, Seq<char>)>,
    pub warnings: Seq<(Seq<char>, Seq<char>)>,
}

impl Counters {
    /// The abstract value of the totals.
    pub open spec fn view(&self) -> CountersView {
        CountersView {
            processed: self.processed,
            images: self.images,
            pdfs: self.pdfs,
            embedded_images: self.embedded_images,
            copied: self.copied,
            skipped: self.skipped,
            failed: self.failed,
            total_src_bytes: self.total_src_bytes,
            total_dst_bytes: self.total_dst_bytes,
            failures: self.failures@.map_values(|f: FailureEntry| failure_view(f)),
            warnings: self.warnings@.map_values(|w: WarningEntry| warning_view(w)),
        }
    }

    /// All totals zero, no failures or warnings.
    pub fn new() -> (c: Counters)
        ensures
            c.view() == (CountersView {
                processed: 0,
                images: 0,
                pdfs: 0,
                embedded_images: 0,
                copied: 0,
                skipped: 0,
                failed: 0,
                total_src_bytes: 0,
                total_dst_bytes: 0,
                failures: Seq::empty(),
                warnings: Seq::empty(),
            }),
    {
        let c = Counters {
            processed: 0,
            images: 0,
            pdfs: 0,
            embedded_images: 0,
            copied: 0,
            skipped: 0,
            failed: 0,
            total_src_bytes: 0,
            total_dst_bytes: 0,
            failures: Vec::new(),
            warnings: Vec::new(),
        };
        assert(c.view().failures =~= Seq::empty());
        assert(c.view().warnings =~= Seq::empty());
        c
    }

    /// A progress report of the current totals with the given phase, discovery count, current
    /// item, message and flags.
    pub fn snapshot(
        &self,
        phase: &str,
        discovered: usize,
        current: Option<String>,
        message: Option<String>,
        done: bool,
        cancelled: bool,
    ) -> (p: BatchProgress)
        ensures
            p.phase@ == phase@,
            p.discovered == discovered,
            p.processed == self.processed,
            p.images == self.images,
            p.pdfs == self.pdfs,
            p.embedded_images == self.embedded_images,
            p.copied == self.copied,
            p.skipped == self.skipped,
            p.failed == self.failed,
            p.total_src_bytes == self.total_src_bytes,
            p.total_dst_bytes == self.total_dst_bytes,
            p.current == current,
            p.message == message,
            p.done == done,
            p.cancelled == cancelled,
    {
        BatchProgress {
            phase: owned(phase),
            discovered,
            processed: self.processed,
            images: self.images,
            pdfs: self.pdfs,
            embedded_images: self.embedded_images,
            copied: self.copied,
            skipped: self.skipped,
            failed: self.failed,
            total_src_bytes: self.total_src_bytes,
            total_dst_bytes: self.total_dst_bytes,
            current,
            message,
            done,
            cancelled,
        }
    }
}

/// Records the result of processing `item`: one more processed item, the count of its kind,
/// its byte totals, and its warnings or failure message under its relative path.
pub fn apply_result(counters: &mut Counters, item: &WorkItem, result: ItemResult)
    ensures
        final(counters).view() == applied(old(counters).view(), item.rel@, result),
{
    let ghost start = counters.view();
    let ghost res = result;
    counters.processed = counters.processed.wrapping_add(1);
    match result {
        ItemResult::Image { src_bytes, dst_bytes } => {
            counters.images = counters.images.wrapping_add(1);
            counters.total_src_bytes = counters.total_src_bytes.wrapping_add(src_bytes);
            counters.total_dst_bytes = counters.total_dst_bytes.wrapping_add(dst_bytes);
        },
        ItemResult::Pdf { src_bytes, dst_bytes, embedded_images, warnings } => {
            counters.pdfs = counters.pdfs.wrapping_add(1);
            counters.embedded_images = counters.embedded_images.wrapping_add(embedded_images);
            counters.total_src_bytes = counters.total_src_bytes.wrapping_add(src_bytes);
            counters.total_dst_bytes = counters.total_dst_bytes.wrapping_add(dst_bytes);
            let mut extra: Vec<WarningEntry> = Vec::new();
            let n = warnings.len();
            for i in 0..n
                invariant
                    n == warnings@.len(),
                    extra@.map_values(|w: WarningEntry| warning_view(w)) == warnings_for(
                        item.rel@,
                        warnings@.take(i as int),
                    ),
            {
                let rel = string_from_chars(chars_of(item.rel.as_str()).as_slice());
                let message = warnings[i].clone();
                let ghost prev = extra@;
                extra.push(WarningEntry { rel, message });
                assert(extra@.map_values(|w: WarningEntry| warning_view(w)) =~= prev.map_values(
                    |w: WarningEntry| warning_view(w),
                ).push((item.rel@, warnings@[i as int]@)));
                assert(warnings@.take(i + 1) =~= warnings@.take(i as int).push(warnings@[i as int]));
                assert(warnings_for(item.rel@, warnings@.take(i + 1)) =~= warnings_for(
                    item.rel@,
                    warnings@.take(i as int),
                ).push((item.rel@, warnings@[i as int]@)));
            }
            assert(warnings@.take(n as int) =~= warnings@);
            let ghost prev = counters.warnings@;
            let ghost added = extra@;
            counters.warnings.append(&mut extra);
            assert(counters.warnings@.map_values(|w: WarningEntry| warning_view(w)) =~= prev.map_values(
                |w: WarningEntry| warning_view(w),
            ) + added.map_values(|w: WarningEntry| warning_view(w)));
        },
        ItemResult::Copied { src_bytes, dst_bytes } => {
            counters.copied = counters.copied.wrapping_add(1);
            counters.total_src_bytes = counters.total_src_bytes.wrapping_add(src_bytes);
            counters.total_dst_bytes = counters.total_dst_bytes.wrapping_add(dst_bytes);
        },
        ItemResult::Skipped => {
            counters.skipped = counters.skipped.wrapping_add(1);
        },
        ItemResult::Cancelled => {},
        ItemResult::Failed(message) => {
            counters.failed = counters.failed.wrapping_add(1);
            let rel = string_from_chars(chars_of(item.rel.as_str()).as_slice());
            let ghost prev = counters.failures@;
            let ghost msg = message@;
            counters.failures.push(FailureEntry { rel, message });
            assert(counters.failures@.map_values(|f: FailureEntry| failure_view(f)) =~= prev.map_values(
                |f: FailureEntry| failure_view(f),
            ).push((item.rel@, msg)));
        },
    }
}

/// Progress is reported when at least 100 ms passed since the last report.
pub open spec fn progress_due_spec(elapsed_ms: u64, last_ms: u64) -> bool {
    (if elapsed_ms >= last_ms {
        elapsed_ms - last_ms
    } else {
        0
    }) >= 100
}

/// Whether a progress report is due at `elapsed_ms` after the last one at `last_ms`.
pub fn progress_due(elapsed_ms: u64, last_ms: u64) -> (r: bool)
    ensures
        r == progress_due_spec(elapsed_ms, last_ms),
{
    elapsed_ms.saturating_sub(last_ms) >= 100
}

/// The final report of a batch: phase `done`, stopped or completed message.
pub fn final_progress(counters: &Counters, discovered: usize, cancelled: bool) -> (p: BatchProgress)
    ensures
        p.phase@ == "done"@,
        p.discovered == discovered,
        p.processed == counters.processed && p.images == counters.images && p.pdfs
            == counters.pdfs && p.embedded_images == counters.embedded_images && p.copied
            == counters.copied && p.skipped == counters.skipped && p.failed == counters.failed,
        p.total_src_bytes == counters.total_src_bytes && p.total_dst_bytes
            == counters.total_dst_bytes,
        p.current is None,
        p.message matches Some(m) && m@ == if cancelled {
            "已停止任务"@
        } else {
            "处理完成"@
        },
        p.done,
        p.cancelled == cancelled,
{
    let message = if cancelled {
        owned("已停止任务")
    } else {
        owned("处理完成")
    };
    counters.snapshot("done", discovered, None, Some(message), true, cancelled)
}

/// The report sent when a batch stops on an error.
pub fn error_progress(message: String) -> (p: BatchProgress)
    ensures
        p.phase@ == "error"@,
        p.message == Some(message),
        p.done,
        !p.cancelled,
        p.discovered == 0 && p.processed == 0 && p.images == 0 && p.pdfs == 0
            && p.embedded_images == 0 && p.copied == 0 && p.skipped == 0 && p.failed == 0,
        p.total_src_bytes == 0 && p.total_dst_bytes == 0,
        p.current is None,
{
    let mut p = BatchProgress::empty();
    p.phase = owned("error");
    p.message = Some(message);
    p.done = true;
    p
}

/// The outputs claimed so far: each destination with the relative path that claimed it.
pub struct CollisionMap {
    pub seen: Vec<(String, String)>,
}

/// No two claims name the same destination.
pub open spec fn distinct_destinations(seen: Seq<(String, String)>) -> bool {
    forall|i: int, j: int|
        0 <= i < seen.len() && 0 <= j < seen.len() && i != j ==> !same_path(seen[i].0@, seen[j].0@)
}

/// The relative path that claimed a destination equal (as a path) to `dst`, if any.
pub open spec fn claimant(seen: Seq<(String, String)>, dst: Seq<char>) -> Option<Seq<char>> {
    if exists|i: int| 0 <= i < seen.len() && same_path(#[trigger] seen[i].0@, dst) {
        let i = choose|i: int| 0 <= i < seen.len() && same_path(#[trigger] seen[i].0@, dst);
        Some(seen[i].1@)
    } else {
        None
    }
}

/// The message for two items writing the same output.
pub open spec fn collision_message(previous: Seq<char>, rel: Seq<char>, dst: Seq<char>) -> Seq<char> {
    "输出路径冲突: "@ + previous + " 和 "@ + rel + " 都会写入 "@ + dst + "。请调整输入文件名或输出位置。"@
}

impl CollisionMap {
    /// No destination claimed.
    pub fn new() -> (m: CollisionMap)
        ensures
            m.seen@ == Seq::<(String, String)>::empty(),
    {
        CollisionMap { seen: Vec::new() }
    }

    /// Claims `item.dst` for `item.rel`. When another item already claimed the same path, the
    /// claim is refused with the collision message and the map is unchanged; otherwise it is
    /// recorded.
    pub fn claim(&mut self, item: &WorkItem) -> (r: Result<(), String>)
        requires
            distinct_destinations(old(self).seen@),
        ensures
            distinct_destinations(final(self).seen@),
            match claimant(old(self).seen@, item.dst@) {
                Some(prev) => r matches Err(e) && e@ == collision_message(prev, item.rel@, item.dst@)
                    && final(self).seen@ == old(self).seen@,
                None => r is Ok && final(self).seen@.len() == old(self).seen@.len() + 1
                    && final(self).seen@.drop_last() == old(self).seen@ && final(self).seen@.last().0@
                    == item.dst@ && final(self).seen@.last().1@ == item.rel@,
            },
    {
        let dc = chars_of(item.dst.as_str());
        let n = self.seen.len();
        for i in 0..n
            invariant
                n == self.seen@.len(),
                dc@ == item.dst@,
                self.seen@ == old(self).seen@,
                distinct_destinations(self.seen@),
                forall|k: int| 0 <= k < i ==> !same_path(#[trigger] self.seen@[k].0@, item.dst@),
        {
            let sc = chars_of(self.seen[i].0.as_str());
            if same_path_chars(sc.as_slice(), dc.as_slice()) {
                proof {
                    let j = choose|j: int|
                        0 <= j < self.seen@.len() && same_path(#[trigger] self.seen@[j].0@, item.dst@);
                    if j != i {
                        assert(same_path(self.seen@[i as int].0@, self.seen@[j].0@));
                    }
                }
                let mut msg = chars_of("输出路径冲突: ");
                extend_chars(&mut msg, chars_of(self.seen[i].1.as_str()).as_slice());
                extend_chars(&mut msg, chars_of(" 和 ").as_slice());
                extend_chars(&mut msg, chars_of(item.rel.as_str()).as_slice());
                extend_chars(&mut msg, chars_of(" 都会写入 ").as_slice());
                extend_chars(&mut msg, dc.as_slice());
                extend_chars(&mut msg, chars_of("。请调整输入文件名或输出位置。").as_slice());
                return Err(string_from_chars(msg.as_slice()));
            }
        }
        let ghost before = self.seen@;
        let dst = string_from_chars(dc.as_slice());
        let rel = string_from_chars(chars_of(item.rel.as_str()).as_slice());
        self.seen.push((dst, rel));
        proof {
            assert(self.seen@.drop_last() =~= before);
            assert forall|a: int, b: int|
                0 <= a < self.seen@.len() && 0 <= b < self.seen@.len() && a != b implies !same_path(
                self.seen@[a].0@,
                self.seen@[b].0@,
            ) by {
                if a < before.len() && b < before.len() {
                    assert(self.seen@[a] == before[a] && self.seen@[b] == before[b]);
                } else if a == before.len() {
                    assert(self.seen@[b] == before[b]);
                    assert(!same_path(before[b].0@, item.dst@));
                } else {
                    assert(self.seen@[a] == before[a]);
                    assert(!same_path(before[a].0@, item.dst@));
                }
            }
        }
        Ok(())
    }
}

/// Once a destination has been claimed, a later claim of any path equal to it is refused, and
/// the refusal names the item that claimed it first.
pub proof fn lemma_claimed_destination_refused(
    seen: Seq<(String, String)>,
    after: Seq<(String, String)>,
    dst: Seq<char>,
)
    requires
        distinct_destinations(seen),
        after.len() == seen.len() + 1,
        after.drop_last() == seen,
        claimant(seen, after.last().0@) is None,
        same_path(after.last().0@, dst),
    ensures
        claimant(after, dst) == Some(after.last().1@),
{
    let n = seen.len() as int;
    assert(after[n] == after.last());
    assert(same_path(after[n].0@, dst));
    let j = choose|j: int| 0 <= j < after.len() && same_path(#[trigger] after[j].0@, dst);
    if j < n {
        assert(after[j] == seen[j]);
        assert(same_path(seen[j].0@, after.last().0@));
    }
}

/// When existing outputs are skipped and the output exists, the item is skipped whatever its
/// kind; otherwise images are resized, PDFs processed, and other files copied unless the
/// output is the file itself.
pub proof fn lemma_item_steps(kind: WorkKind, skip_existing: bool, dst_exists: bool, same_file: bool)
    ensures
        skip_existing && dst_exists ==> item_step_spec(kind, skip_existing, dst_exists, same_file)
            == ItemStep::SkipExisting,
        !(skip_existing && dst_exists) ==> item_step_spec(kind, skip_existing, dst_exists, same_file)
            != ItemStep::SkipExisting,
        !(skip_existing && dst_exists) && kind == WorkKind::RasterImage ==> item_step_spec(
            kind,
            skip_existing,
            dst_exists,
            same_file,
        ) == ItemStep::Resize,
        !(skip_existing && dst_exists) && kind == WorkKind::Pdf ==> item_step_spec(
            kind,
            skip_existing,
            dst_exists,
            same_file,
        ) == ItemStep::ProcessPdf,
        !(skip_existing && dst_exists) && kind == WorkKind::Other ==> item_step_spec(
            kind,
            skip_existing,
            dst_exists,
            same_file,
        ) == if same_file {
            ItemStep::SkipSameFile
        } else {
            ItemStep::Copy
        },
{
}

} // verus!
