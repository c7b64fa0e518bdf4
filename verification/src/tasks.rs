//! The background loops' schedule: when each loop runs, and what it does
//! after each round of work. The loops themselves (sleeping, scanning,
//! broadcasting) run outside; they ask these functions what comes next.
use vstd::prelude::*;

verus! {

/// Delay before the first thumbnail repair, in seconds.
pub const THUMBNAIL_TASK_INITIAL_DELAY_SECS: u64 = 15;

/// Period of the thumbnail repair, in seconds (once a day).
pub const THUMBNAIL_TASK_PERIOD_SECS: u64 = 86400;

/// Delay before the first face scan, in seconds.
pub const FACE_TASK_INITIAL_DELAY_SECS: u64 = 5;

/// Pause after a face scan that found work: the backlog is worked through soon.
pub const FACE_BACKLOG_DELAY_SECS: u64 = 5;

/// Pause after a face scan that found nothing, or failed.
pub const FACE_IDLE_DELAY_SECS: u64 = 60;

/// Media items a face scan handles per round.
pub const FACE_SCAN_BATCH: usize = 10;

/// How a round of face scanning ended.
pub enum ScanOutcome {
    /// The scan handled this many items.
    Processed(usize),
    /// The scan failed.
    Failed,
}

/// What the face loop does after a round.
pub struct FaceLoopStep {
    /// Run face clustering now.
    pub cluster: bool,
    /// Then sleep this long, in seconds.
    pub sleep_secs: u64,
}

/// After a round of face scanning: new faces are clustered at once and the
/// loop comes back soon; an idle or failed round waits longer.
pub fn after_face_scan(outcome: ScanOutcome) -> (step: FaceLoopStep)
    ensures
        step.cluster == (outcome matches ScanOutcome::Processed(n) && n > 0),
        step.sleep_secs == (if step.cluster {
            FACE_BACKLOG_DELAY_SECS
        } else {
            FACE_IDLE_DELAY_SECS
        }),
{
    match outcome {
        ScanOutcome::Processed(n) => {
            if n > 0 {
                FaceLoopStep { cluster: true, sleep_secs: FACE_BACKLOG_DELAY_SECS }
            } else {
                FaceLoopStep { cluster: false, sleep_secs: FACE_IDLE_DELAY_SECS }
            }
        },
        ScanOutcome::Failed => FaceLoopStep { cluster: false, sleep_secs: FACE_IDLE_DELAY_SECS },
    }
}

/// What happened to one media item during a face scan.
pub enum ScanEvent {
    /// Its file is gone.
    FileMissing,
    /// Its file could not be read.
    ReadFailed,
    /// Faces were detected; `saved` tells whether they were stored.
    Detected { saved: bool },
    /// Detection failed.
    DetectionFailed,
}

/// The bookkeeping for one item of a face scan.
pub struct ScanBookkeeping {
    /// Mark the item as scanned without faces, so it is not retried forever.
    pub mark_scanned: bool,
    /// The item counts as processed.
    pub counted: bool,
}

/// Missing files and failed detections are marked scanned (so the queue moves
/// on); unreadable files are retried later; an item counts once its faces are
/// stored (which marks it scanned).
pub fn scan_bookkeeping(event: ScanEvent) -> (b: ScanBookkeeping)
    ensures
        b.mark_scanned == (event is FileMissing || event is DetectionFailed),
        b.counted == (event matches ScanEvent::Detected { saved } && saved),
{
    match event {
        ScanEvent::FileMissing => ScanBookkeeping { mark_scanned: true, counted: false },
        ScanEvent::ReadFailed => ScanBookkeeping { mark_scanned: false, counted: false },
        ScanEvent::Detected { saved } => ScanBookkeeping { mark_scanned: false, counted: saved },
        ScanEvent::DetectionFailed => ScanBookkeeping { mark_scanned: true, counted: false },
    }
}

/// Items processed by a scan whose items ended with `events`.
pub open spec fn processed_count(events: Seq<ScanEvent>) -> nat
    decreases events.len(),
{
    if events.len() == 0 {
        0
    } else {
        processed_count(events.drop_last()) + (if events.last() matches ScanEvent::Detected {
            saved,
        } && saved {
            1nat
        } else {
            0nat
        })
    }
}

/// The count a face scan reports for the outcomes of its items.
pub fn scan_count(events: &Vec<ScanEvent>) -> (n: usize)
    ensures
        n == processed_count(events@),
{
    let mut n: usize = 0;
    let mut i: usize = 0;
    while i < events.len()
        invariant
            i <= events@.len(),
            n == processed_count(events@.take(i as int)),
            n <= i,
        decreases events@.len() - i,
    {
        proof {
            assert(events@.take(i + 1).drop_last() =~= events@.take(i as int));
            assert(events@.take(i + 1).last() == events@[i as int]);
        }
        match &events[i] {
            ScanEvent::Detected { saved } => {
                if *saved {
                    n = n + 1;
                }
            },
            _ => {},
        }
        i = i + 1;
    }
    proof {
        assert(events@.take(events@.len() as int) =~= events@);
    }
    n
}

/// The completion notice of a thumbnail repair: the number of repaired items,
/// sent only when there were some.
pub fn thumbnail_fix_notice(fixed: usize) -> (notice: Option<usize>)
    ensures
        notice == (if fixed > 0 {
            Some(fixed)
        } else {
            None::<usize>
        }),
{
    if fixed > 0 {
        Some(fixed)
    } else {
        None
    }
}

} // verus!
