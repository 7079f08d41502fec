//! Downloading one file, step by step.

use vstd::prelude::*;

use crate::snapshots::download::{fetch_plan, plan_fetch, FetchPlan, PlanView};
use crate::snapshots::manifest::{FailureView, FileEntry, FileView, SnapshotError};
use crate::snapshots::transfer::failure_of;

verus! {

/// What the download of a file goes by.
#[derive(Debug, Clone, Copy, PartialEq, Eq, Structural)]
pub struct DownloadSettings {
    /// The chunk size of the manifest.
    pub chunk_size: i64,
    /// The size of the parts that the data cache gives out.
    pub part_size: u64,
    /// Whether the data cache gives out ranges of objects.
    pub supports_range: bool,
}

/// Where the download of a file stands.
#[derive(Debug)]
pub enum FetchPhase {
    /// It waits for a worker.
    Queued,
    /// The file is fetched to its target.
    Fetching { plan: FetchPlan, target: String },
    /// The file is counted, and whoever watches is told.
    Telling { target: String },
    /// It is over: the place of the file and where it is, or why it failed.
    Done { outcome: Result<(usize, String), SnapshotError> },
}

/// What a contract reads of where the download of a file stands.
pub enum FetchPhaseView {
    Queued,
    Fetching { plan: PlanView, target: Seq<char> },
    Telling { target: Seq<char> },
    Done { outcome: Result<(int, Seq<char>), FailureView> },
}

impl View for FetchPhase {
    type V = FetchPhaseView;

    open spec fn view(&self) -> FetchPhaseView {
        match self {
            FetchPhase::Queued => FetchPhaseView::Queued,
            FetchPhase::Fetching { plan, target } => FetchPhaseView::Fetching {
                plan: plan@,
                target: target@,
            },
            FetchPhase::Telling { target } => FetchPhaseView::Telling { target: target@ },
            FetchPhase::Done { outcome } => FetchPhaseView::Done {
                outcome: match outcome {
                    Ok((i, t)) => Ok((*i as int, t@)),
                    Err(e) => Err(e@),
                },
            },
        }
    }
}

/// What happened to the download of a file.
#[derive(Debug)]
pub enum FetchEvent {
    /// A worker took it up, or none can; whether the operation was cancelled meanwhile; and
    /// where the file is to go.
    Admitted { permit: Result<(), SnapshotError>, cancelled: bool, target: String },
    /// Fetching ended.
    Fetched(Result<(), SnapshotError>),
    /// Whoever watches was told, and wants to go on or not.
    Told(bool),
}

/// What a contract reads of what happened to the download of a file.
pub enum FetchEventView {
    Admitted { refusal: Option<FailureView>, cancelled: bool, target: Seq<char> },
    Fetched(Option<FailureView>),
    Told(bool),
}

impl View for FetchEvent {
    type V = FetchEventView;

    open spec fn view(&self) -> FetchEventView {
        match self {
            FetchEvent::Admitted { permit, cancelled, target } => FetchEventView::Admitted {
                refusal: failure_of(*permit),
                cancelled: *cancelled,
                target: target@,
            },
            FetchEvent::Fetched(r) => FetchEventView::Fetched(failure_of(*r)),
            FetchEvent::Told(b) => FetchEventView::Told(*b),
        }
    }
}

/// Where the download of a file stands after something happened. What does not belong to
/// where it stands changes nothing.
pub open spec fn next_fetch_phase(
    p: FetchPhaseView,
    e: FetchEventView,
    index: int,
    f: FileView,
    at: DownloadSettings,
) -> FetchPhaseView {
    match (p, e) {
        (FetchPhaseView::Queued, FetchEventView::Admitted { refusal: Some(f), .. }) => {
            FetchPhaseView::Done { outcome: Err(f) }
        },
        (FetchPhaseView::Queued, FetchEventView::Admitted { refusal: None, cancelled, target }) => {
            if cancelled {
                FetchPhaseView::Done { outcome: Err(FailureView::Cancelled) }
            } else {
                match fetch_plan(f, at.chunk_size, at.part_size, at.supports_range) {
                    Ok(plan) => FetchPhaseView::Fetching { plan, target },
                    Err(e) => FetchPhaseView::Done { outcome: Err(e) },
                }
            }
        },
        (FetchPhaseView::Fetching { target, .. }, FetchEventView::Fetched(None)) => {
            FetchPhaseView::Telling { target }
        },
        (FetchPhaseView::Fetching { .. }, FetchEventView::Fetched(Some(f))) => {
            FetchPhaseView::Done { outcome: Err(f) }
        },
        (FetchPhaseView::Telling { target }, FetchEventView::Told(true)) => FetchPhaseView::Done {
            outcome: Ok((index, target)),
        },
        (FetchPhaseView::Telling { .. }, FetchEventView::Told(false)) => FetchPhaseView::Done {
            outcome: Err(FailureView::Cancelled),
        },
        _ => p,
    }
}

/// Take the download of a file one step further.
pub fn fetch_step(
    phase: FetchPhase,
    event: FetchEvent,
    index: usize,
    file: &FileEntry,
    settings: &DownloadSettings,
) -> (r: FetchPhase)
    requires
        settings.supports_range ==> settings.part_size > 0,
    ensures
        r@ == next_fetch_phase(phase@, event@, index as int, file@, *settings),
{
    match (phase, event) {
        (FetchPhase::Queued, FetchEvent::Admitted { permit, cancelled, target }) => match permit {
            Err(e) => FetchPhase::Done { outcome: Err(e) },
            Ok(_) => if cancelled {
                FetchPhase::Done { outcome: Err(SnapshotError::Cancelled) }
            } else {
                match plan_fetch(
                    file,
                    settings.chunk_size,
                    settings.part_size,
                    settings.supports_range,
                ) {
                    Ok(plan) => FetchPhase::Fetching { plan, target },
                    Err(e) => FetchPhase::Done { outcome: Err(e) },
                }
            },
        },
        (FetchPhase::Fetching { plan: _, target }, FetchEvent::Fetched(r)) => match r {
            Ok(_) => FetchPhase::Telling { target },
            Err(e) => FetchPhase::Done { outcome: Err(e) },
        },
        (FetchPhase::Telling { target }, FetchEvent::Told(go_on)) => if go_on {
            FetchPhase::Done { outcome: Ok((index, target)) }
        } else {
            FetchPhase::Done { outcome: Err(SnapshotError::Cancelled) }
        },
        (phase, _) => phase,
    }
}

/// Where the download of a file stands after a sequence of events.
pub open spec fn fetch_run(
    events: Seq<FetchEventView>,
    index: int,
    f: FileView,
    at: DownloadSettings,
) -> FetchPhaseView
    decreases events.len(),
{
    if events.len() == 0 {
        FetchPhaseView::Queued
    } else {
        next_fetch_phase(fetch_run(events.drop_last(), index, f, at), events.last(), index, f, at)
    }
}

/// A file that ends well ends at its own place and at the target it was given, was fetched
/// without a failure, and has hashes to be fetched by; and whoever watches agreed.
pub proof fn good_end_was_fetched(
    events: Seq<FetchEventView>,
    index: int,
    f: FileView,
    at: DownloadSettings,
)
    ensures
        match fetch_run(events, index, f, at) {
            FetchPhaseView::Queued => true,
            FetchPhaseView::Fetching { plan, target } => fetch_plan(
                f,
                at.chunk_size,
                at.part_size,
                at.supports_range,
            ) == Ok::<PlanView, FailureView>(plan) && events.contains(
                FetchEventView::Admitted { refusal: None, cancelled: false, target },
            ),
            FetchPhaseView::Telling { target } => (f.hash is Some || f.chunk_hashes is Some)
                && events.contains(
                FetchEventView::Admitted { refusal: None, cancelled: false, target },
            ) && events.contains(FetchEventView::Fetched(None)),
            FetchPhaseView::Done { outcome: Ok((i, target)) } => i == index && (f.hash is Some
                || f.chunk_hashes is Some) && events.contains(
                FetchEventView::Admitted { refusal: None, cancelled: false, target },
            ) && events.contains(FetchEventView::Fetched(None)) && events.contains(
                FetchEventView::Told(true),
            ),
            FetchPhaseView::Done { outcome: Err(_) } => true,
        },
    decreases events.len(),
{
    if events.len() > 0 {
        let front = events.drop_last();
        let e = events.last();
        good_end_was_fetched(front, index, f, at);
        assert(events[events.len() - 1] == e);
        assert(events.contains(e));
        assert forall|x: FetchEventView| front.contains(x) implies events.contains(x) by {
            let i = choose|i: int| 0 <= i < front.len() && front[i] == x;
            assert(events[i] == x);
        }
    }
}

/// A file that is taken up ends where no worker can be had, where the operation was cancelled,
/// or where there is nothing to fetch it by; else it is fetched to the target that was given.
pub proof fn file_taken_up_is_fetched(
    refusal: Option<FailureView>,
    cancelled: bool,
    target: Seq<char>,
    index: int,
    f: FileView,
    at: DownloadSettings,
)
    ensures
        ({
            let next = next_fetch_phase(
                FetchPhaseView::Queued,
                FetchEventView::Admitted { refusal, cancelled, target },
                index,
                f,
                at,
            );
            let plan = fetch_plan(f, at.chunk_size, at.part_size, at.supports_range);
            &&& refusal is Some ==> next == (FetchPhaseView::Done { outcome: Err(refusal->0) })
            &&& refusal is None && cancelled ==> next == (FetchPhaseView::Done {
                outcome: Err(FailureView::Cancelled),
            })
            &&& refusal is None && !cancelled && plan is Ok ==> next == (FetchPhaseView::Fetching {
                plan: plan->Ok_0,
                target,
            })
            &&& refusal is None && !cancelled && plan is Err ==> next == (FetchPhaseView::Done {
                outcome: Err(plan->Err_0),
            })
        }),
{
}

/// A file that was fetched is told of, and ends at its own place and target where whoever
/// watches wants to go on; a failure ends it at once, and so does not wanting to go on. A file
/// that has ended stays as it is.
pub proof fn fetched_file_is_told_and_ends(
    plan: PlanView,
    target: Seq<char>,
    failure: FailureView,
    ended: Result<(int, Seq<char>), FailureView>,
    e: FetchEventView,
    index: int,
    f: FileView,
    at: DownloadSettings,
)
    ensures
        next_fetch_phase(
            FetchPhaseView::Fetching { plan, target },
            FetchEventView::Fetched(None),
            index,
            f,
            at,
        ) == (FetchPhaseView::Telling { target }),
        next_fetch_phase(
            FetchPhaseView::Fetching { plan, target },
            FetchEventView::Fetched(Some(failure)),
            index,
            f,
            at,
        ) == (FetchPhaseView::Done { outcome: Err(failure) }),
        next_fetch_phase(
            FetchPhaseView::Telling { target },
            FetchEventView::Told(true),
            index,
            f,
            at,
        ) == (FetchPhaseView::Done { outcome: Ok((index, target)) }),
        next_fetch_phase(
            FetchPhaseView::Telling { target },
            FetchEventView::Told(false),
            index,
            f,
            at,
        ) == (FetchPhaseView::Done { outcome: Err(FailureView::Cancelled) }),
        next_fetch_phase(FetchPhaseView::Done { outcome: ended }, e, index, f, at) == (
        FetchPhaseView::Done { outcome: ended }),
{
}

/// What does not belong to where a file stands changes nothing.
pub proof fn other_events_change_nothing(
    p: FetchPhaseView,
    e: FetchEventView,
    index: int,
    f: FileView,
    at: DownloadSettings,
)
    requires
        p is Queued ==> !(e is Admitted),
        p is Fetching ==> !(e is Fetched),
        p is Telling ==> !(e is Told),
    ensures
        next_fetch_phase(p, e, index, f, at) == p,
{
}

} // verus!
