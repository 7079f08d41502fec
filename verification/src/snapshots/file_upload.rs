//! Uploading one file, step by step.

use vstd::prelude::*;

use crate::snapshots::hash_cache::{CacheEntry, CacheKey, HashCache};
use crate::snapshots::manifest::{FailureView, SnapshotError};
use crate::snapshots::transfer::failure_of;
use crate::snapshots::upload::{
    check_cache_skip, choose_strategy, opt_cache, remembered, remembered_hashes, skip_result,
    skipped_only_where_every_object_exists, strategy, CachedHashes, CachedView, FileResult,
    ItemView, ResultView, UploadStrategy, UploadWorkItem,
};

verus! {

/// What the upload of a file goes by.
#[derive(Debug)]
pub struct UploadSettings<'a> {
    /// Whether remembered hashes are left aside.
    pub force_rehash: bool,
    pub alg: &'a str,
    pub chunk_size: i64,
    /// The size of the parts that the data cache takes.
    pub part_size: u64,
    /// Whether the data cache takes objects in parts.
    pub multipart: bool,
}

/// What a contract reads of what the upload of a file goes by.
pub struct UploadSetting {
    pub cache: Option<Map<CacheKey, CacheEntry>>,
    pub force_rehash: bool,
    pub alg: Seq<char>,
    pub chunk_size: i64,
    pub part_size: u64,
    pub multipart: bool,
}

impl<'a> UploadSettings<'a> {
    /// The settings together with what is remembered.
    pub open spec fn with_cache(self, cache: Option<HashCache>) -> UploadSetting {
        UploadSetting {
            cache: opt_cache(cache),
            force_rehash: self.force_rehash,
            alg: self.alg@,
            chunk_size: self.chunk_size,
            part_size: self.part_size,
            multipart: self.multipart,
        }
    }
}

/// Where the upload of a file stands.
#[derive(Debug)]
pub enum FilePhase {
    /// It waits for a worker.
    Queued,
    /// It is asked whether the objects of the remembered hashes exist.
    Asking { cached: CachedHashes },
    /// The file is hashed and uploaded.
    Uploading { strategy: UploadStrategy },
    /// What came of the file is counted, and whoever watches is told.
    Telling { result: FileResult },
    /// It is over: the place of the file and what came of it, or why it failed.
    Done { outcome: Result<(usize, FileResult), SnapshotError> },
}

/// What a contract reads of where the upload of a file stands.
pub enum FilePhaseView {
    Queued,
    Asking { cached: CachedView },
    Uploading { strategy: UploadStrategy },
    Telling { result: ResultView },
    Done { outcome: Result<(int, ResultView), FailureView> },
}

impl View for FilePhase {
    type V = FilePhaseView;

    open spec fn view(&self) -> FilePhaseView {
        match self {
            FilePhase::Queued => FilePhaseView::Queued,
            FilePhase::Asking { cached } => FilePhaseView::Asking { cached: cached@ },
            FilePhase::Uploading { strategy } => FilePhaseView::Uploading { strategy: *strategy },
            FilePhase::Telling { result } => FilePhaseView::Telling { result: result@ },
            FilePhase::Done { outcome } => FilePhaseView::Done {
                outcome: match outcome {
                    Ok((i, fr)) => Ok((*i as int, fr@)),
                    Err(e) => Err(e@),
                },
            },
        }
    }
}

/// What happened to the upload of a file.
#[derive(Debug)]
pub enum FileEvent {
    /// A worker took it up, or none can, and whether the operation was cancelled meanwhile.
    Admitted { permit: Result<(), SnapshotError>, cancelled: bool },
    /// The answers whether objects exist; none where the question failed.
    Replied(Vec<Option<bool>>),
    /// Hashing and uploading ended.
    Uploaded(Result<FileResult, SnapshotError>),
    /// Whoever watches was told, and wants to go on or not.
    Told(bool),
}

/// What a contract reads of what happened to the upload of a file.
pub enum FileEventView {
    Admitted { refusal: Option<FailureView>, cancelled: bool },
    Replied(Seq<Option<bool>>),
    Uploaded(Result<ResultView, FailureView>),
    Told(bool),
}

impl View for FileEvent {
    type V = FileEventView;

    open spec fn view(&self) -> FileEventView {
        match self {
            FileEvent::Admitted { permit, cancelled } => FileEventView::Admitted {
                refusal: failure_of(*permit),
                cancelled: *cancelled,
            },
            FileEvent::Replied(v) => FileEventView::Replied(v@),
            FileEvent::Uploaded(r) => FileEventView::Uploaded(
                match r {
                    Ok(fr) => Ok(fr@),
                    Err(e) => Err(e@),
                },
            ),
            FileEvent::Told(b) => FileEventView::Told(*b),
        }
    }
}

/// Where a file stands that has to be hashed.
pub open spec fn to_upload(item: ItemView, at: UploadSetting) -> FilePhaseView {
    FilePhaseView::Uploading {
        strategy: strategy(item.use_chunks, item.file_size, at.part_size, at.multipart),
    }
}

/// Where the upload of a file stands after something happened. What does not belong to where
/// it stands changes nothing.
pub open spec fn next_file_phase(
    p: FilePhaseView,
    e: FileEventView,
    item: ItemView,
    at: UploadSetting,
) -> FilePhaseView {
    match (p, e) {
        (FilePhaseView::Queued, FileEventView::Admitted { refusal: Some(f), .. }) => {
            FilePhaseView::Done { outcome: Err(f) }
        },
        (FilePhaseView::Queued, FileEventView::Admitted { refusal: None, cancelled }) => {
            if cancelled {
                FilePhaseView::Done { outcome: Err(FailureView::Cancelled) }
            } else {
                match remembered(at.cache, at.force_rehash, item, at.alg, at.chunk_size) {
                    Some(cached) => FilePhaseView::Asking { cached },
                    None => to_upload(item, at),
                }
            }
        },
        (FilePhaseView::Asking { cached }, FileEventView::Replied(replies)) => match skip_result(
            item,
            cached,
            replies,
        ) {
            Some(result) => FilePhaseView::Telling { result },
            None => to_upload(item, at),
        },
        (FilePhaseView::Uploading { .. }, FileEventView::Uploaded(Ok(result))) => {
            FilePhaseView::Telling { result }
        },
        (FilePhaseView::Uploading { .. }, FileEventView::Uploaded(Err(f))) => {
            FilePhaseView::Done { outcome: Err(f) }
        },
        (FilePhaseView::Telling { result }, FileEventView::Told(true)) => FilePhaseView::Done {
            outcome: Ok((item.index, result)),
        },
        (FilePhaseView::Telling { .. }, FileEventView::Told(false)) => FilePhaseView::Done {
            outcome: Err(FailureView::Cancelled),
        },
        _ => p,
    }
}

/// Take the upload of a file one step further.
pub fn file_step(
    phase: FilePhase,
    event: FileEvent,
    item: &UploadWorkItem,
    cache: &Option<HashCache>,
    settings: &UploadSettings,
) -> (r: FilePhase)
    requires
        item.use_chunks ==> settings.chunk_size > 0,
    ensures
        r@ == next_file_phase(phase@, event@, item@, settings.with_cache(*cache)),
{
    let s = choose_strategy(item, settings.part_size, settings.multipart);
    match (phase, event) {
        (FilePhase::Queued, FileEvent::Admitted { permit, cancelled }) => match permit {
            Err(e) => FilePhase::Done { outcome: Err(e) },
            Ok(_) => if cancelled {
                FilePhase::Done { outcome: Err(SnapshotError::Cancelled) }
            } else {
                match remembered_hashes(
                    cache,
                    settings.force_rehash,
                    item,
                    settings.alg,
                    settings.chunk_size,
                ) {
                    Some(cached) => FilePhase::Asking { cached },
                    None => FilePhase::Uploading { strategy: s },
                }
            },
        },
        (FilePhase::Asking { cached }, FileEvent::Replied(replies)) => match check_cache_skip(
            item,
            cached,
            &replies,
        ) {
            Some(result) => FilePhase::Telling { result },
            None => FilePhase::Uploading { strategy: s },
        },
        (FilePhase::Uploading { strategy: _ }, FileEvent::Uploaded(r)) => match r {
            Ok(result) => FilePhase::Telling { result },
            Err(e) => FilePhase::Done { outcome: Err(e) },
        },
        (FilePhase::Telling { result }, FileEvent::Told(go_on)) => if go_on {
            FilePhase::Done { outcome: Ok((item.index, result)) }
        } else {
            FilePhase::Done { outcome: Err(SnapshotError::Cancelled) }
        },
        (phase, _) => phase,
    }
}

/// Where the upload of a file stands after a sequence of events.
pub open spec fn file_run(
    events: Seq<FileEventView>,
    item: ItemView,
    at: UploadSetting,
) -> FilePhaseView
    decreases events.len(),
{
    if events.len() == 0 {
        FilePhaseView::Queued
    } else {
        next_file_phase(file_run(events.drop_last(), item, at), events.last(), item, at)
    }
}

proof fn run_extends(
    events: Seq<FileEventView>,
    n: int,
    item: ItemView,
    at: UploadSetting,
)
    requires
        0 <= n <= events.len(),
        file_run(events.take(n), item, at) is Done,
    ensures
        file_run(events, item, at) == file_run(events.take(n), item, at),
    decreases events.len(),
{
    if n < events.len() {
        assert(events.drop_last().take(n) =~= events.take(n));
        run_extends(events.drop_last(), n, item, at);
    } else {
        assert(events.take(n) =~= events);
    }
}

/// Once the operation is cancelled, a file that is taken up is left alone, whatever happens
/// behind that.
pub proof fn cancelled_file_is_left_alone(
    events: Seq<FileEventView>,
    item: ItemView,
    at: UploadSetting,
)
    requires
        events.len() > 0,
        events[0] == (FileEventView::Admitted { refusal: None, cancelled: true }),
    ensures
        file_run(events, item, at) == (FilePhaseView::Done {
            outcome: Err(FailureView::Cancelled),
        }),
{
    assert(events.take(1).drop_last() =~= Seq::<FileEventView>::empty());
    assert(events.take(1).last() == events[0]);
    reveal_with_fuel(file_run, 2);
    run_extends(events, 1, item, at);
}

/// Whether a file was skipped with its remembered hashes, by the given replies.
pub open spec fn skipped_by(
    events: Seq<FileEventView>,
    replies: Seq<Option<bool>>,
    result: ResultView,
    item: ItemView,
    at: UploadSetting,
) -> bool {
    let cached = remembered(at.cache, at.force_rehash, item, at.alg, at.chunk_size);
    &&& events.contains(FileEventView::Replied(replies))
    &&& cached is Some
    &&& skip_result(item, cached->0, replies) == Some(result)
}

/// Whether what came of a file was brought about by the events: it was uploaded, or it was
/// skipped with its remembered hashes.
pub open spec fn came_about(
    events: Seq<FileEventView>,
    result: ResultView,
    item: ItemView,
    at: UploadSetting,
) -> bool {
    ||| events.contains(FileEventView::Uploaded(Ok(result)))
    ||| exists|replies: Seq<Option<bool>>| #[trigger]
        skipped_by(events, replies, result, item, at)
}

proof fn came_about_stays(
    events: Seq<FileEventView>,
    e: FileEventView,
    result: ResultView,
    item: ItemView,
    at: UploadSetting,
)
    requires
        came_about(events, result, item, at),
    ensures
        came_about(events.push(e), result, item, at),
{
    let all = events.push(e);
    assert forall|x: FileEventView| events.contains(x) implies all.contains(x) by {
        let i = choose|i: int| 0 <= i < events.len() && events[i] == x;
        assert(all[i] == x);
    }
    if !events.contains(FileEventView::Uploaded(Ok(result))) {
        let replies = choose|replies: Seq<Option<bool>>| #[trigger]
            skipped_by(events, replies, result, item, at);
        assert(skipped_by(all, replies, result, item, at));
    }
}

/// A file that ends well ends at its own place, with what its upload came to or as skipped
/// with the hashes that are remembered for it; and whoever watches agreed.
pub proof fn good_end_was_brought_about(
    events: Seq<FileEventView>,
    item: ItemView,
    at: UploadSetting,
)
    ensures
        match file_run(events, item, at) {
            FilePhaseView::Asking { cached } => remembered(
                at.cache,
                at.force_rehash,
                item,
                at.alg,
                at.chunk_size,
            ) == Some(cached),
            FilePhaseView::Telling { result } => came_about(events, result, item, at),
            FilePhaseView::Done { outcome: Ok((index, result)) } => index == item.index
                && came_about(events, result, item, at) && events.contains(
                FileEventView::Told(true),
            ),
            _ => true,
        },
    decreases events.len(),
{
    if events.len() > 0 {
        let front = events.drop_last();
        let e = events.last();
        let n = events.len() - 1;
        let p = file_run(front, item, at);
        good_end_was_brought_about(front, item, at);
        assert(front.push(e) =~= events);
        assert(events[n] == e);
        assert(events.contains(e));
        match p {
            FilePhaseView::Asking { .. } => {
                if let FileEventView::Replied(replies) = e {
                    if let FilePhaseView::Telling { result } = file_run(events, item, at) {
                        assert(skipped_by(events, replies, result, item, at));
                    }
                }
            },
            FilePhaseView::Telling { result } => {
                came_about_stays(front, e, result, item, at);
            },
            FilePhaseView::Done { outcome: Ok((_, result)) } => {
                came_about_stays(front, e, result, item, at);
                let i = choose|i: int|
                    0 <= i < front.len() && front[i] == FileEventView::Told(true);
                assert(events[i] == FileEventView::Told(true));
            },
            _ => {},
        }
    }
}

/// While it is asked whether the objects of remembered hashes exist, only replies matter: the
/// file is told of as skipped where every wanted object was said to exist, and one reply among
/// them that says otherwise, that failed or that is missing sends the file to be uploaded.
pub proof fn one_missing_object_sends_the_file_to_be_uploaded(
    cached: CachedView,
    replies: Seq<Option<bool>>,
    item: ItemView,
    at: UploadSetting,
    i: int,
)
    ensures
        ({
            let next = next_file_phase(
                FilePhaseView::Asking { cached },
                FileEventView::Replied(replies),
                item,
                at,
            );
            let wanted = if cached is Whole {
                1
            } else {
                cached->Chunks_0.len() as int
            };
            &&& 0 <= i < wanted && !(i < replies.len() && replies[i] == Some(true)) ==> next
                is Uploading
            &&& replies.len() >= wanted && (forall|k: int|
                0 <= k < wanted ==> #[trigger] replies[k] == Some(true)) ==> next is Telling
                && next->Telling_result is Skipped && next->Telling_result->Skipped_size
                == item.file_size && next->Telling_result->whole_hash == if cached is Whole {
                Some(cached->Whole_0)
            } else {
                None
            } && next->Telling_result->chunk_hashes == if cached is Whole {
                None
            } else {
                Some(cached->Chunks_0)
            }
        }),
{
    skipped_only_where_every_object_exists(item, cached, replies, i);
    if let CachedView::Chunks(v) = cached {
        if replies.len() >= v.len() && forall|k: int|
            0 <= k < v.len() ==> #[trigger] replies[k] == Some(true) {
            assert(forall|k: int|
                0 <= k < v.len() ==> k < replies.len() && #[trigger] replies[k] == Some(true));
        }
    }
}

/// A file that is taken up ends where no worker can be had or the operation was cancelled, is
/// asked for where its hashes are remembered, and else is uploaded, in the way that suits it.
pub proof fn file_taken_up_is_asked_for_or_uploaded(
    refusal: Option<FailureView>,
    cancelled: bool,
    item: ItemView,
    at: UploadSetting,
)
    ensures
        ({
            let next = next_file_phase(
                FilePhaseView::Queued,
                FileEventView::Admitted { refusal, cancelled },
                item,
                at,
            );
            &&& refusal is Some ==> next == (FilePhaseView::Done { outcome: Err(refusal->0) })
            &&& refusal is None && cancelled ==> next == (FilePhaseView::Done {
                outcome: Err(FailureView::Cancelled),
            })
            &&& refusal is None && !cancelled ==> (next is Asking || next is Uploading)
            &&& next is Asking ==> !at.force_rehash && at.cache is Some && remembered(
                at.cache,
                false,
                item,
                at.alg,
                at.chunk_size,
            ) == Some(next->cached)
            &&& refusal is None && !cancelled && remembered(
                at.cache,
                at.force_rehash,
                item,
                at.alg,
                at.chunk_size,
            ) is Some ==> next is Asking
            &&& next is Uploading ==> next->strategy == strategy(
                item.use_chunks,
                item.file_size,
                at.part_size,
                at.multipart,
            )
        }),
{
}

/// What an upload comes to is told, and ends the file with its own place where whoever watches
/// wants to go on; a failure ends it at once, and so does not wanting to go on. A file that has
/// ended stays as it is.
pub proof fn uploaded_file_is_told_and_ends(
    how: UploadStrategy,
    result: ResultView,
    f: FailureView,
    ended: Result<(int, ResultView), FailureView>,
    e: FileEventView,
    item: ItemView,
    at: UploadSetting,
)
    ensures
        next_file_phase(
            FilePhaseView::Uploading { strategy: how },
            FileEventView::Uploaded(Ok(result)),
            item,
            at,
        ) == (FilePhaseView::Telling { result }),
        next_file_phase(
            FilePhaseView::Uploading { strategy: how },
            FileEventView::Uploaded(Err(f)),
            item,
            at,
        ) == (FilePhaseView::Done { outcome: Err(f) }),
        next_file_phase(
            FilePhaseView::Telling { result },
            FileEventView::Told(true),
            item,
            at,
        ) == (FilePhaseView::Done { outcome: Ok((item.index, result)) }),
        next_file_phase(
            FilePhaseView::Telling { result },
            FileEventView::Told(false),
            item,
            at,
        ) == (FilePhaseView::Done { outcome: Err(FailureView::Cancelled) }),
        next_file_phase(FilePhaseView::Done { outcome: ended }, e, item, at) == (
        FilePhaseView::Done { outcome: ended }),
{
}

/// What does not belong to where a file stands changes nothing.
pub proof fn other_events_change_nothing(
    p: FilePhaseView,
    e: FileEventView,
    item: ItemView,
    at: UploadSetting,
)
    requires
        p is Queued ==> !(e is Admitted),
        p is Asking ==> !(e is Replied),
        p is Uploading ==> !(e is Uploaded),
        p is Telling ==> !(e is Told),
    ensures
        next_file_phase(p, e, item, at) == p,
{
}

/// The upload of a file goes by the settings as they are, and by what the cache remembers.
pub proof fn settings_are_taken_as_they_are<'a>(s: UploadSettings<'a>, cache: HashCache)
    ensures
        ({
            let with = s.with_cache(Some(cache));
            let without = s.with_cache(None);
            &&& with.cache == Some(cache@) && without.cache is None
            &&& with.force_rehash == s.force_rehash && without.force_rehash == s.force_rehash
            &&& with.alg == s.alg@ && without.alg == s.alg@
            &&& with.chunk_size == s.chunk_size && without.chunk_size == s.chunk_size
            &&& with.part_size == s.part_size && without.part_size == s.part_size
            &&& with.multipart == s.multipart && without.multipart == s.multipart
        }),
{
}

} // verus!
