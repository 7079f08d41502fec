//! Uploading objects: one upload for each object at a time, step by step.

use vstd::prelude::*;

use crate::snapshots::hash_cache::{chunk_bound, chunk_count, chunk_count_facts, next_chunk_bound};
use crate::snapshots::hashing::{hash_data, hash_text};
use crate::snapshots::manifest::{FailureView, SnapshotError};
use crate::snapshots::parts::{
    chunk_bytes, chunks_make_up_the_contents, chunks_of, lengths_add_up, part, part_ranges, parts,
    split_data, total_len,
};
use crate::snapshots::upload::{FileResult, ResultView};
use crate::text::{contains_text, str_eq, texts};

verus! {

/// Who uploads an object.
#[derive(Debug, Clone, Copy, PartialEq, Eq, Structural)]
pub enum Claim {
    /// Whoever asked: nobody else is uploading the object.
    Owner,
    /// Somebody else, who has to be waited for.
    Other,
}

/// The objects that are being uploaded.
#[derive(Debug)]
pub struct UploadDedup {
    pub keys: Vec<String>,
}

impl View for UploadDedup {
    type V = Set<Seq<char>>;

    open spec fn view(&self) -> Set<Seq<char>> {
        texts(self.keys@).to_set()
    }
}

impl UploadDedup {
    /// No object is being uploaded.
    pub fn new() -> (r: UploadDedup)
        ensures
            r@ == Set::<Seq<char>>::empty(),
    {
        let r = UploadDedup { keys: Vec::new() };
        assert(r@ =~= Set::<Seq<char>>::empty());
        r
    }

    /// Ask to upload an object. Whoever asks first owns the upload.
    pub fn claim(&mut self, key: &str) -> (r: Claim)
        ensures
            r == if old(self)@.contains(key@) {
                Claim::Other
            } else {
                Claim::Owner
            },
            final(self)@ == old(self)@.insert(key@),
    {
        let ghost before = texts(self.keys@);
        if contains_text(&self.keys, key) {
            assert(self@ =~= old(self)@.insert(key@));
            return Claim::Other;
        }
        self.keys.push(key.to_owned());
        let ghost after = texts(self.keys@);
        assert(after =~= before.push(key@));
        assert forall|t: Seq<char>| after.contains(t) <==> before.contains(t) || t == key@ by {
            if before.contains(t) {
                let i = choose|i: int| 0 <= i < before.len() && before[i] == t;
                assert(after[i] == t);
            }
            assert(after[before.len() as int] == key@);
            if after.contains(t) && t != key@ {
                let i = choose|i: int| 0 <= i < after.len() && after[i] == t;
                assert(before[i] == t);
            }
        }
        assert(self@ =~= old(self)@.insert(key@));
        Claim::Owner
    }

    /// Give up an object, whether or not its upload succeeded.
    pub fn release(&mut self, key: &str)
        ensures
            final(self)@ == old(self)@.remove(key@),
    {
        let ghost before = texts(self.keys@);
        let mut kept: Vec<String> = Vec::new();
        let mut i: usize = 0;
        while i < self.keys.len()
            invariant
                i <= self.keys.len(),
                before == texts(self.keys@),
                forall|t: Seq<char>|
                    #[trigger] texts(kept@).contains(t) <==> before.take(i as int).contains(t)
                        && t != key@,
            decreases self.keys.len() - i,
        {
            let ghost s = before.take(i as int);
            let ghost next = before.take(i + 1);
            let ghost old_kept = texts(kept@);
            let ghost here = self.keys@[i as int]@;
            assert(next =~= s.push(here));
            proof {
                contains_pushed(s, here);
                contains_pushed(old_kept, here);
            }
            if !str_eq(self.keys[i].as_str(), key) {
                kept.push(self.keys[i].clone());
                assert(texts(kept@) =~= old_kept.push(here));
            }
            i += 1;
        }
        assert(before.take(before.len() as int) =~= before);
        self.keys = kept;
        assert(self@ =~= old(self)@.remove(key@));
    }
}

proof fn contains_pushed(s: Seq<Seq<char>>, a: Seq<char>)
    ensures
        forall|x: Seq<char>| #[trigger] s.push(a).contains(x) <==> s.contains(x) || x == a,
{
    let t = s.push(a);
    assert forall|x: Seq<char>| #[trigger] t.contains(x) <==> s.contains(x) || x == a by {
        if s.contains(x) {
            let i = choose|i: int| 0 <= i < s.len() && s[i] == x;
            assert(t[i] == x);
        }
        assert(t[s.len() as int] == a);
        if t.contains(x) && x != a {
            let i = choose|i: int| 0 <= i < t.len() && t[i] == x;
            assert(s[i] == x);
        }
    }
}

/// A part of an object that was sent, and the tag that it was given.
#[derive(Debug)]
pub struct SentPart {
    pub number: i32,
    pub etag: String,
}

/// What a contract reads of a part that was sent.
pub struct SentView {
    pub number: i32,
    pub etag: Seq<char>,
}

impl View for SentPart {
    type V = SentView;

    open spec fn view(&self) -> SentView {
        SentView { number: self.number, etag: self.etag@ }
    }
}

/// The views of parts that were sent.
pub open spec fn sent_views(v: Seq<SentPart>) -> Seq<SentView> {
    Seq::new(v.len(), |i: int| v[i]@)
}

/// What a contract reads of what sending a part came to.
pub open spec fn sending_view(r: Result<SentPart, SnapshotError>) -> Result<
    SentView,
    FailureView,
> {
    match r {
        Ok(p) => Ok(p@),
        Err(e) => Err(e@),
    }
}

/// What sending parts came to.
pub open spec fn sending_views(v: Seq<Result<SentPart, SnapshotError>>) -> Seq<
    Result<SentView, FailureView>,
> {
    Seq::new(v.len(), |i: int| sending_view(v[i]))
}

/// A part put in its place among parts in the order of their numbers, behind those with the
/// same number.
pub open spec fn insert_part(s: Seq<SentView>, p: SentView) -> Seq<SentView>
    decreases s.len(),
{
    if s.len() == 0 || s.last().number <= p.number {
        s.push(p)
    } else {
        insert_part(s.drop_last(), p).push(s.last())
    }
}

/// The parts that were sent, in the order of their numbers, or the first failure.
pub open spec fn collected(s: Seq<Result<SentView, FailureView>>) -> Result<
    Seq<SentView>,
    FailureView,
>
    decreases s.len(),
{
    if s.len() == 0 {
        Ok(Seq::empty())
    } else {
        match collected(s.drop_last()) {
            Ok(parts) => match s.last() {
                Ok(p) => Ok(insert_part(parts, p)),
                Err(e) => Err(e),
            },
            Err(e) => Err(e),
        }
    }
}

proof fn insert_part_at(s: Seq<SentView>, p: SentView, at: int)
    requires
        0 <= at <= s.len(),
        at == 0 || s[at - 1].number <= p.number,
        forall|k: int| at <= k < s.len() ==> (#[trigger] s[k]).number > p.number,
    ensures
        insert_part(s, p) == s.insert(at, p),
    decreases s.len(),
{
    if at == s.len() {
        assert(s.insert(at, p) =~= s.push(p));
    } else {
        assert(s[s.len() - 1].number > p.number);
        assert forall|k: int| at <= k < s.drop_last().len() implies (
        #[trigger] s.drop_last()[k]).number > p.number by {
            assert(s[k].number > p.number);
        }
        insert_part_at(s.drop_last(), p, at);
        assert(s.insert(at, p) =~= s.drop_last().insert(at, p).push(s.last()));
    }
}

proof fn collected_failure_stays(s: Seq<Result<SentView, FailureView>>, n: int)
    requires
        0 <= n <= s.len(),
        collected(s.take(n)) is Err,
    ensures
        collected(s) == collected(s.take(n)),
    decreases s.len(),
{
    if n < s.len() {
        assert(s.drop_last().take(n) =~= s.take(n));
        collected_failure_stays(s.drop_last(), n);
    } else {
        assert(s.take(n) =~= s);
    }
}

/// Collect the parts that were sent, in the order of their numbers.
pub fn collect_parts(sent: Vec<Result<SentPart, SnapshotError>>) -> (r: Result<
    Vec<SentPart>,
    SnapshotError,
>)
    ensures
        match collected(sending_views(sent@)) {
            Ok(parts) => r matches Ok(v) && sent_views(v@) == parts,
            Err(f) => r matches Err(e) && e@ == f,
        },
{
    let ghost given = sent@;
    let ghost all = sending_views(given);
    let mut out: Vec<SentPart> = Vec::new();
    assert(all.take(0) =~= Seq::empty());
    assert(sent_views(out@) =~= Seq::empty());
    for result in it: sent
        invariant
            it.seq() == given,
            given == sent@,
            all == sending_views(given),
            collected(all.take(it.index() as int)) == Ok::<Seq<SentView>, FailureView>(
                sent_views(out@),
            ),
    {
        let ghost i = it.index() as int;
        assert(result == given[i]);
        assert(all.take(i + 1).drop_last() =~= all.take(i));
        match result {
            Ok(p) => {
                let ghost before = sent_views(out@);
                let ghost view = p@;
                let mut at: usize = out.len();
                while at > 0 && out[at - 1].number > p.number
                    invariant
                        at <= out.len(),
                        before == sent_views(out@),
                        view == p@,
                        forall|k: int|
                            at <= k < before.len() ==> (#[trigger] before[k]).number > view.number,
                    decreases at,
                {
                    at -= 1;
                    assert(before[at as int].number > view.number);
                }
                proof {
                    if at > 0 {
                        assert(before[at - 1].number <= view.number);
                    }
                    insert_part_at(before, view, at as int);
                }
                out.insert(at, p);
                assert(sent_views(out@) =~= before.insert(at as int, view));
            },
            Err(e) => {
                proof {
                    collected_failure_stays(all, i + 1);
                }
                return Err(e);
            },
        }
    }
    assert(all.take(all.len() as int) =~= all);
    Ok(out)
}

/// Whether parts stand in the order of their numbers.
pub open spec fn in_part_order(s: Seq<SentView>) -> bool {
    forall|i: int, j: int|
        0 <= i < j < s.len() ==> (#[trigger] s[i]).number <= (#[trigger] s[j]).number
}

/// The parts of which sending succeeded, where it did of all.
pub open spec fn parts_sent(s: Seq<Result<SentView, FailureView>>) -> Seq<SentView> {
    Seq::new(s.len(), |i: int| s[i]->Ok_0)
}

/// Whether no part number was sent twice.
pub open spec fn numbers_differ(s: Seq<SentView>) -> bool {
    forall|i: int, j: int|
        0 <= i < j < s.len() ==> (#[trigger] s[i]).number != (#[trigger] s[j]).number
}

proof fn inserted_part(s: Seq<SentView>, p: SentView) -> (at: int)
    requires
        in_part_order(s),
    ensures
        0 <= at <= s.len(),
        insert_part(s, p) == s.insert(at, p),
        forall|k: int| 0 <= k < at ==> (#[trigger] s[k]).number <= p.number,
        forall|k: int| at <= k < s.len() ==> (#[trigger] s[k]).number > p.number,
    decreases s.len(),
{
    if s.len() == 0 || s.last().number <= p.number {
        assert(s.insert(s.len() as int, p) =~= s.push(p));
        assert forall|k: int| 0 <= k < s.len() implies (#[trigger] s[k]).number <= p.number by {
            if k < s.len() - 1 {
                assert(s[k].number <= s[s.len() - 1].number);
            }
        }
        s.len() as int
    } else {
        let front = s.drop_last();
        assert forall|i: int, j: int| 0 <= i < j < front.len() implies (#[trigger] front[i]).number
            <= (#[trigger] front[j]).number by {
            assert(s[i].number <= s[j].number);
        }
        let at = inserted_part(front, p);
        assert(s.insert(at, p) =~= front.insert(at, p).push(s.last()));
        assert forall|k: int| 0 <= k < at implies (#[trigger] s[k]).number <= p.number by {
            assert(front[k].number <= p.number);
        }
        assert forall|k: int| at <= k < s.len() implies (#[trigger] s[k]).number > p.number by {
            if k < front.len() {
                assert(front[k].number > p.number);
            }
        }
        at
    }
}

/// Parts that were collected are the parts that were sent, each as often as it was sent, in
/// the order of their numbers; where no number was sent twice, each number is larger than the
/// one before.
pub proof fn collected_parts_are_in_order(s: Seq<Result<SentView, FailureView>>)
    ensures
        collected(s) matches Ok(parts) ==> {
            &&& in_part_order(parts)
            &&& parts.to_multiset() == parts_sent(s).to_multiset()
            &&& parts.len() == s.len()
            &&& numbers_differ(parts_sent(s)) ==> numbers_differ(parts)
        },
    decreases s.len(),
{
    broadcast use vstd::seq_lib::group_to_multiset_ensures;

    if s.len() == 0 {
        assert(parts_sent(s) =~= Seq::empty());
    } else if collected(s) is Ok {
        let front = s.drop_last();
        let before = collected(front)->Ok_0;
        let p = s.last()->Ok_0;
        let parts = collected(s)->Ok_0;
        collected_parts_are_in_order(front);
        let at = inserted_part(before, p);
        assert(parts_sent(s) =~= parts_sent(front).push(p));
        assert(parts == before.insert(at, p));
        assert(before.insert(at, p).to_multiset() =~= before.to_multiset().insert(p));
        assert(parts_sent(front).push(p).to_multiset() =~= parts_sent(
            front,
        ).to_multiset().insert(p));
        assert forall|i: int, j: int| 0 <= i < j < parts.len() implies (#[trigger] parts[i]).number
            <= (#[trigger] parts[j]).number by {
            let a = if i < at {
                i
            } else {
                i - 1
            };
            let b = if j < at {
                j
            } else {
                j - 1
            };
            assert(i != at ==> parts[i] == before[a]);
            assert(j != at ==> parts[j] == before[b]);
        }
        if numbers_differ(parts_sent(s)) {
            let sent = parts_sent(front);
            assert forall|i: int, j: int| 0 <= i < j < sent.len() implies (
            #[trigger] sent[i]).number != (#[trigger] sent[j]).number by {
                assert(parts_sent(s)[i].number != parts_sent(s)[j].number);
            }
            assert forall|k: int| 0 <= k < before.len() implies (#[trigger] before[k]).number
                != p.number by {
                assert(before.contains(before[k]));
                assert(before.to_multiset().count(before[k]) > 0);
                assert(sent.to_multiset().count(before[k]) > 0);
                assert(sent.contains(before[k]));
                let i = choose|i: int| 0 <= i < sent.len() && sent[i] == before[k];
                assert(parts_sent(s)[i].number != parts_sent(s)[s.len() - 1].number);
            }
            assert forall|i: int, j: int| 0 <= i < j < parts.len() implies (
            #[trigger] parts[i]).number != (#[trigger] parts[j]).number by {
                let a = if i < at {
                    i
                } else {
                    i - 1
                };
                let b = if j < at {
                    j
                } else {
                    j - 1
                };
                assert(i != at ==> parts[i] == before[a]);
                assert(j != at ==> parts[j] == before[b]);
            }
        }
    }
}

/// Where the upload of an object stands.
#[derive(Debug)]
pub enum UploadPhase {
    /// It is asked whether the object exists.
    Checking,
    /// The upload is asked for.
    Claiming,
    /// Somebody else uploads the object and is waited for.
    Waiting,
    /// The object is sent at once.
    Putting,
    /// An upload in parts is begun.
    Creating,
    /// The parts are sent.
    Sending { upload_id: String },
    /// The parts are put together.
    Completing { upload_id: String, parts: Vec<SentPart> },
    /// An upload in parts is given up.
    Aborting { upload_id: String, cause: SnapshotError },
    /// The object is released, for others to go on.
    Releasing { failure: Option<SnapshotError> },
    /// The upload is over: whether this upload stored the object, or why it failed.
    Finished { outcome: Result<bool, SnapshotError> },
}

/// What a contract reads of where an upload stands.
pub enum PhaseView {
    Checking,
    Claiming,
    Waiting,
    Putting,
    Creating,
    Sending { upload_id: Seq<char> },
    Completing { upload_id: Seq<char>, parts: Seq<SentView> },
    Aborting { upload_id: Seq<char>, cause: FailureView },
    Releasing { failure: Option<FailureView> },
    Finished { outcome: Result<bool, FailureView> },
}

impl View for UploadPhase {
    type V = PhaseView;

    open spec fn view(&self) -> PhaseView {
        match self {
            UploadPhase::Checking => PhaseView::Checking,
            UploadPhase::Claiming => PhaseView::Claiming,
            UploadPhase::Waiting => PhaseView::Waiting,
            UploadPhase::Putting => PhaseView::Putting,
            UploadPhase::Creating => PhaseView::Creating,
            UploadPhase::Sending { upload_id } => PhaseView::Sending { upload_id: upload_id@ },
            UploadPhase::Completing { upload_id, parts } => PhaseView::Completing {
                upload_id: upload_id@,
                parts: sent_views(parts@),
            },
            UploadPhase::Aborting { upload_id, cause } => PhaseView::Aborting {
                upload_id: upload_id@,
                cause: cause@,
            },
            UploadPhase::Releasing { failure } => PhaseView::Releasing {
                failure: match failure {
                    Some(f) => Some(f@),
                    None => None,
                },
            },
            UploadPhase::Finished { outcome } => PhaseView::Finished {
                outcome: match outcome {
                    Ok(b) => Ok(*b),
                    Err(e) => Err(e@),
                },
            },
        }
    }
}

/// What happened to an upload.
#[derive(Debug)]
pub enum UploadEvent {
    /// Whether the object exists; none where the question failed.
    Exists(Option<bool>),
    Claimed(Claim),
    /// The owner of the upload has released the object, and had stored it or not.
    OwnerFinished { stored: bool },
    PutDone(Result<(), SnapshotError>),
    /// An upload in parts was begun, under the given name.
    Created(Result<String, SnapshotError>),
    PartsSent(Vec<Result<SentPart, SnapshotError>>),
    Completed(Result<(), SnapshotError>),
    /// The upload in parts was given up, or could not be.
    Aborted,
    Released,
}

/// What a contract reads of what happened to an upload.
pub enum EventView {
    Exists(Option<bool>),
    Claimed(Claim),
    OwnerFinished { stored: bool },
    PutDone(Option<FailureView>),
    Created(Result<Seq<char>, FailureView>),
    PartsSent(Seq<Result<SentView, FailureView>>),
    Completed(Option<FailureView>),
    Aborted,
    Released,
}

/// The failure of a step, if it failed.
pub open spec fn failure_of(r: Result<(), SnapshotError>) -> Option<FailureView> {
    match r {
        Ok(_) => None,
        Err(e) => Some(e@),
    }
}

impl View for UploadEvent {
    type V = EventView;

    open spec fn view(&self) -> EventView {
        match self {
            UploadEvent::Exists(b) => EventView::Exists(*b),
            UploadEvent::Claimed(c) => EventView::Claimed(*c),
            UploadEvent::OwnerFinished { stored } => EventView::OwnerFinished { stored: *stored },
            UploadEvent::PutDone(r) => EventView::PutDone(failure_of(*r)),
            UploadEvent::Created(r) => EventView::Created(
                match r {
                    Ok(id) => Ok(id@),
                    Err(e) => Err(e@),
                },
            ),
            UploadEvent::PartsSent(v) => EventView::PartsSent(sending_views(v@)),
            UploadEvent::Completed(r) => EventView::Completed(failure_of(*r)),
            UploadEvent::Aborted => EventView::Aborted,
            UploadEvent::Released => EventView::Released,
        }
    }
}

/// Where an upload stands after something happened. Whoever waited for an owner that did not
/// store the object asks for the claim again. What does not belong to where the upload stands
/// changes nothing.
pub open spec fn next_phase(p: PhaseView, e: EventView, multipart: bool) -> PhaseView {
    match (p, e) {
        (PhaseView::Checking, EventView::Exists(b)) => if b == Some(true) {
            PhaseView::Finished { outcome: Ok(false) }
        } else {
            PhaseView::Claiming
        },
        (PhaseView::Claiming, EventView::Claimed(Claim::Other)) => PhaseView::Waiting,
        (PhaseView::Claiming, EventView::Claimed(Claim::Owner)) => if multipart {
            PhaseView::Creating
        } else {
            PhaseView::Putting
        },
        (PhaseView::Waiting, EventView::OwnerFinished { stored }) => if stored {
            PhaseView::Finished { outcome: Ok(false) }
        } else {
            PhaseView::Claiming
        },
        (PhaseView::Putting, EventView::PutDone(failure)) => PhaseView::Releasing { failure },
        (PhaseView::Creating, EventView::Created(Ok(upload_id))) => PhaseView::Sending {
            upload_id,
        },
        (PhaseView::Creating, EventView::Created(Err(f))) => PhaseView::Releasing {
            failure: Some(f),
        },
        (PhaseView::Sending { upload_id }, EventView::PartsSent(sent)) => match collected(sent) {
            Ok(parts) => PhaseView::Completing { upload_id, parts },
            Err(cause) => PhaseView::Aborting { upload_id, cause },
        },
        (PhaseView::Completing { upload_id, .. }, EventView::Completed(failure)) => match failure {
            Some(cause) => PhaseView::Aborting { upload_id, cause },
            None => PhaseView::Releasing { failure: None },
        },
        (PhaseView::Aborting { cause, .. }, EventView::Aborted) => PhaseView::Releasing {
            failure: Some(cause),
        },
        (PhaseView::Releasing { failure }, EventView::Released) => PhaseView::Finished {
            outcome: match failure {
                Some(f) => Err(f),
                None => Ok(true),
            },
        },
        _ => p,
    }
}

/// Take an upload one step further.
pub fn step(phase: UploadPhase, event: UploadEvent, multipart: bool) -> (r: UploadPhase)
    ensures
        r@ == next_phase(phase@, event@, multipart),
{
    match (phase, event) {
        (UploadPhase::Checking, UploadEvent::Exists(b)) => match b {
            Some(true) => UploadPhase::Finished { outcome: Ok(false) },
            _ => UploadPhase::Claiming,
        },
        (UploadPhase::Claiming, UploadEvent::Claimed(c)) => match c {
            Claim::Other => UploadPhase::Waiting,
            Claim::Owner => if multipart {
                UploadPhase::Creating
            } else {
                UploadPhase::Putting
            },
        },
        (UploadPhase::Waiting, UploadEvent::OwnerFinished { stored }) => if stored {
            UploadPhase::Finished { outcome: Ok(false) }
        } else {
            UploadPhase::Claiming
        },
        (UploadPhase::Putting, UploadEvent::PutDone(r)) => match r {
            Ok(_) => UploadPhase::Releasing { failure: None },
            Err(e) => UploadPhase::Releasing { failure: Some(e) },
        },
        (UploadPhase::Creating, UploadEvent::Created(r)) => match r {
            Ok(upload_id) => UploadPhase::Sending { upload_id },
            Err(e) => UploadPhase::Releasing { failure: Some(e) },
        },
        (UploadPhase::Sending { upload_id }, UploadEvent::PartsSent(sent)) => match collect_parts(
            sent,
        ) {
            Ok(parts) => UploadPhase::Completing { upload_id, parts },
            Err(cause) => UploadPhase::Aborting { upload_id, cause },
        },
        (UploadPhase::Completing { upload_id, parts: _ }, UploadEvent::Completed(r)) => match r {
            Ok(_) => UploadPhase::Releasing { failure: None },
            Err(cause) => UploadPhase::Aborting { upload_id, cause },
        },
        (
            UploadPhase::Aborting { upload_id: _, cause },
            UploadEvent::Aborted,
        ) => UploadPhase::Releasing { failure: Some(cause) },
        (UploadPhase::Releasing { failure }, UploadEvent::Released) => match failure {
            Some(e) => UploadPhase::Finished { outcome: Err(e) },
            None => UploadPhase::Finished { outcome: Ok(true) },
        },
        (phase, _) => phase,
    }
}

/// Where an upload stands after a sequence of events.
pub open spec fn run(events: Seq<EventView>, multipart: bool) -> PhaseView
    decreases events.len(),
{
    if events.len() == 0 {
        PhaseView::Checking
    } else {
        next_phase(run(events.drop_last(), multipart), events.last(), multipart)
    }
}

/// Whether the upload holds a claim on the object.
pub open spec fn owns(p: PhaseView) -> bool {
    p is Putting || p is Creating || p is Sending || p is Completing || p is Aborting
        || p is Releasing
}

/// A claim is got only from the answer that the upload is owned, and is given up only by
/// releasing the object.
pub proof fn claims_are_released(p: PhaseView, e: EventView, multipart: bool)
    ensures
        !owns(p) && owns(next_phase(p, e, multipart)) ==> p is Claiming && e
            == EventView::Claimed(Claim::Owner),
        owns(p) && !owns(next_phase(p, e, multipart)) ==> p is Releasing && e is Released,
{
}

/// An upload in parts that was begun and fails is given up, under its own name and for the
/// same reason, before the object is released. Only an object that could not be put, or an
/// upload in parts that could not be begun, is released after a failure with nothing given up.
pub proof fn failed_parts_are_given_up(p: PhaseView, e: EventView, multipart: bool)
    ensures
        next_phase(p, e, multipart) matches PhaseView::Releasing { failure: Some(f) } ==> p
            == next_phase(p, e, multipart) || p is Putting || p is Creating || (
        p matches PhaseView::Aborting { cause, .. } && cause == f),
        p matches PhaseView::Sending { upload_id } ==> !(next_phase(p, e, multipart) is Sending)
            ==> (next_phase(p, e, multipart) matches PhaseView::Aborting { upload_id: id, .. }
            && id == upload_id) || (next_phase(p, e, multipart) matches PhaseView::Completing {
            upload_id: id,
            ..
        } && id == upload_id),
{
}

/// An upload in parts is only ever completed with its parts in the order of their numbers.
pub proof fn parts_are_completed_in_order(events: Seq<EventView>, multipart: bool)
    ensures
        run(events, multipart) matches PhaseView::Completing { parts, .. } ==> in_part_order(parts),
    decreases events.len(),
{
    if events.len() > 0 {
        parts_are_completed_in_order(events.drop_last(), multipart);
        if let EventView::PartsSent(sent) = events.last() {
            collected_parts_are_in_order(sent);
        }
    }
}

/// Whether the object was claimed at `k` and released at `j`.
pub open spec fn claimed_and_released(events: Seq<EventView>, k: int, j: int) -> bool {
    &&& 0 <= k < j < events.len()
    &&& events[k] == EventView::Claimed(Claim::Owner)
    &&& events[j] is Released
}

/// Whether the object was claimed at `k`.
pub open spec fn claimed_at(events: Seq<EventView>, k: int) -> bool {
    0 <= k < events.len() && events[k] == EventView::Claimed(Claim::Owner)
}

proof fn owned_was_claimed(events: Seq<EventView>, multipart: bool)
    ensures
        owns(run(events, multipart)) ==> exists|k: int| #[trigger] claimed_at(events, k),
        run(events, multipart) == (PhaseView::Finished { outcome: Ok(true) }) ==> exists|
            k: int,
            j: int,
        | #[trigger] claimed_and_released(events, k, j),
    decreases events.len(),
{
    if events.len() > 0 {
        let front = events.drop_last();
        let n = events.len() - 1;
        let before = run(front, multipart);
        owned_was_claimed(front, multipart);
        if owns(run(events, multipart)) {
            if owns(before) {
                let k = choose|k: int| #[trigger] claimed_at(front, k);
                assert(claimed_at(events, k));
            } else {
                claims_are_released(before, events.last(), multipart);
                assert(claimed_at(events, n));
            }
        }
        if run(events, multipart) == (PhaseView::Finished { outcome: Ok(true) }) {
            if before == (PhaseView::Finished { outcome: Ok(true) }) {
                let (k, j) = choose|k: int, j: int| #[trigger] claimed_and_released(front, k, j);
                assert(claimed_and_released(events, k, j));
            } else {
                assert(before is Releasing);
                let k = choose|k: int| #[trigger] claimed_at(front, k);
                assert(claimed_and_released(events, k, n));
            }
        }
    }
}

/// An upload that stored the object had claimed it before, and has released it.
pub proof fn storing_upload_claimed_and_released(events: Seq<EventView>, multipart: bool)
    requires
        run(events, multipart) == (PhaseView::Finished { outcome: Ok(true) }),
    ensures
        exists|k: int, j: int| #[trigger] claimed_and_released(events, k, j),
{
    owned_was_claimed(events, multipart);
}

/// Whether the answer at `j` was that the object exists, or that its owner stored it.
pub open spec fn told_at(events: Seq<EventView>, multipart: bool, j: int) -> bool {
    &&& 0 <= j < events.len()
    &&& {
        ||| run(events.take(j), multipart) is Checking && events[j] == EventView::Exists(Some(true))
        ||| run(events.take(j), multipart) is Waiting && events[j] == (EventView::OwnerFinished {
            stored: true,
        })
    }
}

/// Whether the upload itself stored the object at `j`: putting it, or completing its parts,
/// succeeded.
pub open spec fn stored_at(events: Seq<EventView>, multipart: bool, j: int) -> bool {
    &&& 0 <= j < events.len()
    &&& {
        ||| run(events.take(j), multipart) is Putting && events[j] == EventView::PutDone(None)
        ||| run(events.take(j), multipart) is Completing && events[j] == EventView::Completed(None)
    }
}

/// Whether the object was released at `j`, in the phase for it.
pub open spec fn released_at(events: Seq<EventView>, multipart: bool, j: int) -> bool {
    0 <= j < events.len() && run(events.take(j), multipart) is Releasing && events[j] is Released
}

proof fn happened_before(events: Seq<EventView>, multipart: bool, j: int)
    requires
        events.len() > 0,
    ensures
        told_at(events.drop_last(), multipart, j) ==> told_at(events, multipart, j),
        stored_at(events.drop_last(), multipart, j) ==> stored_at(events, multipart, j),
        j < events.len() - 1 && told_at(events, multipart, j) ==> told_at(
            events.drop_last(),
            multipart,
            j,
        ),
        j < events.len() - 1 && stored_at(events, multipart, j) ==> stored_at(
            events.drop_last(),
            multipart,
            j,
        ),
{
    if 0 <= j < events.len() - 1 {
        assert(events.drop_last().take(j) =~= events.take(j));
    }
}

/// Whether the upload stands where only a stored object leads.
spec fn has_stored(p: PhaseView) -> bool {
    p == (PhaseView::Releasing { failure: None }) || p == (PhaseView::Finished {
        outcome: Ok(true),
    })
}

proof fn outcome_was_told(events: Seq<EventView>, multipart: bool)
    ensures
        run(events, multipart) == (PhaseView::Finished { outcome: Ok(false) }) ==> exists|j: int|
            #[trigger] told_at(events, multipart, j),
        has_stored(run(events, multipart)) <==> exists|j: int|
            #[trigger] stored_at(events, multipart, j),
    decreases events.len(),
{
    if events.len() > 0 {
        let front = events.drop_last();
        let n = events.len() - 1;
        outcome_was_told(front, multipart);
        assert(events.take(n) =~= front);
        if run(events, multipart) == (PhaseView::Finished { outcome: Ok(false) }) {
            if run(front, multipart) == run(events, multipart) {
                let j = choose|j: int| #[trigger] told_at(front, multipart, j);
                happened_before(events, multipart, j);
            } else {
                assert(told_at(events, multipart, n));
            }
        }
        if has_stored(run(events, multipart)) {
            if has_stored(run(front, multipart)) {
                let j = choose|j: int| #[trigger] stored_at(front, multipart, j);
                happened_before(events, multipart, j);
            } else {
                assert(stored_at(events, multipart, n));
            }
        }
        if exists|j: int| #[trigger] stored_at(events, multipart, j) {
            let j = choose|j: int| #[trigger] stored_at(events, multipart, j);
            happened_before(events, multipart, j);
            if j < n {
                assert(stored_at(front, multipart, j));
            }
        }
    }
}

proof fn owner_releases_in_the_end(events: Seq<EventView>, multipart: bool, n: int)
    requires
        0 <= n <= events.len(),
        owns(run(events.take(n), multipart)),
    ensures
        owns(run(events, multipart)) || (exists|j: int|
            n <= j && #[trigger] released_at(events, multipart, j)),
        owns(run(events, multipart)) || run(events, multipart) is Finished,
        run(events, multipart) != (PhaseView::Finished { outcome: Ok(false) }),
    decreases events.len(),
{
    if n == events.len() {
        assert(events.take(n) =~= events);
    } else {
        let front = events.drop_last();
        let last = events.len() - 1;
        assert(front.take(n) =~= events.take(n));
        owner_releases_in_the_end(front, multipart, n);
        assert(events.take(last) =~= front);
        if owns(run(front, multipart)) {
            claims_are_released(run(front, multipart), events.last(), multipart);
            if !owns(run(events, multipart)) {
                assert(released_at(events, multipart, last));
            }
        } else {
            let j = choose|j: int| n <= j && #[trigger] released_at(front, multipart, j);
            assert(front.take(j) =~= events.take(j));
            assert(released_at(events, multipart, j));
        }
    }
}

/// A finished upload that held a claim on the object at any time has released it afterwards,
/// whatever its outcome.
pub proof fn finished_upload_released_its_claim(events: Seq<EventView>, multipart: bool, n: int)
    requires
        0 <= n <= events.len(),
        owns(run(events.take(n), multipart)),
        run(events, multipart) is Finished,
    ensures
        exists|j: int| n <= j && #[trigger] released_at(events, multipart, j),
{
    owner_releases_in_the_end(events, multipart, n);
}

/// An upload that finishes without having stored the object was told that the object exists
/// or that its owner stored it, and never held a claim on it, so it put nothing itself.
pub proof fn object_not_stored_here_exists(events: Seq<EventView>, multipart: bool)
    requires
        run(events, multipart) == (PhaseView::Finished { outcome: Ok(false) }),
    ensures
        exists|j: int| #[trigger] told_at(events, multipart, j),
        forall|n: int|
            0 <= n <= events.len() ==> !owns(run(#[trigger] events.take(n), multipart)),
{
    outcome_was_told(events, multipart);
    assert forall|n: int| 0 <= n <= events.len() implies !owns(
        run(#[trigger] events.take(n), multipart),
    ) by {
        if owns(run(events.take(n), multipart)) {
            owner_releases_in_the_end(events, multipart, n);
        }
    }
}

/// A finished upload reports to have stored the object exactly where it put the object, or
/// completed its parts, with success.
pub proof fn object_is_stored_here_exactly_when_put(events: Seq<EventView>, multipart: bool)
    requires
        run(events, multipart) is Finished,
    ensures
        run(events, multipart) == (PhaseView::Finished { outcome: Ok(true) }) <==> exists|j: int|
            #[trigger] stored_at(events, multipart, j),
{
    outcome_was_told(events, multipart);
}

/// Of those who ask for one object, one at a time owns its upload: the next one does after
/// the object was released.
pub proof fn one_owner_at_a_time(s: Set<Seq<char>>, key: Seq<char>, other: Seq<char>)
    ensures
        s.insert(key).contains(key),
        !s.insert(key).remove(key).contains(key),
        other != key ==> s.insert(key).contains(other) == s.contains(other) && s.remove(
            key,
        ).contains(other) == s.contains(other),
{
}

/// A part of a file to send.
#[derive(Debug, Clone, Copy, PartialEq, Eq, Structural)]
pub struct UploadPart {
    /// The parts are counted from 1.
    pub number: i32,
    pub offset: u64,
    pub size: u64,
}

/// Part `k` of a file to send.
pub open spec fn upload_part(file_size: u64, part_size: u64, k: int) -> UploadPart {
    UploadPart {
        number: (k + 1) as i32,
        offset: chunk_bound(part_size, file_size, k) as u64,
        size: (chunk_bound(part_size, file_size, k + 1) - chunk_bound(
            part_size,
            file_size,
            k,
        )) as u64,
    }
}

/// The parts of a file to send.
pub fn upload_parts(file_size: u64, part_size: u64) -> (r: Vec<UploadPart>)
    requires
        part_size > 0,
        chunk_count(part_size, file_size) <= i32::MAX,
    ensures
        r@ == Seq::new(
            chunk_count(part_size, file_size) as nat,
            |k: int| upload_part(file_size, part_size, k),
        ),
{
    let ranges = part_ranges(file_size, part_size);
    let mut r: Vec<UploadPart> = Vec::new();
    let mut number: i32 = 0;
    let mut i: usize = 0;
    while i < ranges.len()
        invariant
            i <= ranges.len(),
            part_size > 0,
            ranges@ == parts(file_size, part_size),
            chunk_count(part_size, file_size) <= i32::MAX,
            number == i,
            r@.len() == i,
            forall|k: int|
                0 <= k < i ==> #[trigger] r@[k] == upload_part(file_size, part_size, k),
        decreases ranges.len() - i,
    {
        proof {
            next_chunk_bound(part_size, file_size, i as int);
            assert(ranges@[i as int] == part(file_size, part_size, i as int));
        }
        number = number + 1;
        r.push(
            UploadPart {
                number,
                offset: ranges[i].start,
                size: ranges[i].end - ranges[i].start,
            },
        );
        i += 1;
    }
    assert(r@ =~= Seq::new(
        chunk_count(part_size, file_size) as nat,
        |k: int| upload_part(file_size, part_size, k),
    ));
    r
}

/// A chunk of a file and its hash.
#[derive(Debug)]
pub struct HashedChunk {
    pub hash: String,
    pub data: Vec<u8>,
}

/// The contents of hashed chunks.
pub open spec fn chunk_data(chunks: Seq<HashedChunk>) -> Seq<Seq<u8>> {
    Seq::new(chunks.len(), |k: int| chunks[k].data@)
}

/// The hashes of hashed chunks.
pub open spec fn chunk_hashes(chunks: Seq<HashedChunk>) -> Seq<Seq<char>> {
    Seq::new(chunks.len(), |k: int| chunks[k].hash@)
}

/// The hashes of the chunks that contents are split into, in order.
pub open spec fn hashes_of(data: Seq<u8>, chunk_size: u64) -> Seq<Seq<char>> {
    Seq::new(
        chunks_of(data, chunk_size).len(),
        |k: int| hash_text(chunks_of(data, chunk_size)[k]),
    )
}

/// Split contents into chunks and hash each. Empty contents are one empty chunk. The chunks
/// together hold as many bytes as the contents.
pub fn hash_chunks(data: &Vec<u8>, chunk_size: u64) -> (r: Vec<HashedChunk>)
    requires
        chunk_size > 0,
    ensures
        chunk_data(r@) == chunks_of(data@, chunk_size),
        chunk_hashes(r@) == hashes_of(data@, chunk_size),
        total_len(chunk_data(r@)) == data@.len(),
{
    let len: usize = data.len();
    let pieces = split_data(data, chunk_size);
    let ghost given = pieces@;
    let ghost all = chunks_of(data@, chunk_size);
    let mut r: Vec<HashedChunk> = Vec::new();
    for piece in it: pieces
        invariant
            it.seq() == given,
            chunk_bytes(given) == all,
            r@.len() == it.index(),
            forall|k: int|
                0 <= k < r@.len() ==> (#[trigger] r@[k]).data@ == all[k] && r@[k].hash@
                    == hash_text(all[k]),
    {
        assert(piece == given[it.index() as int]);
        assert(chunk_bytes(given)[it.index() as int] == piece@);
        let hash = hash_data(piece.as_slice());
        r.push(HashedChunk { hash, data: piece });
    }
    proof {
        assert(chunk_data(r@) =~= all);
        assert(chunk_hashes(r@) =~= hashes_of(data@, chunk_size));
        chunks_make_up_the_contents(data@, chunk_size);
    }
    r
}

/// Whether `i` is the first chunk whose upload failed.
pub open spec fn first_failed(s: Seq<Result<bool, SnapshotError>>, i: int) -> bool {
    &&& 0 <= i < s.len()
    &&& s[i] is Err
    &&& forall|k: int| 0 <= k < i ==> (#[trigger] s[k]) is Ok
}

proof fn fewer_chunks_hold_fewer_bytes(s: Seq<Seq<u8>>, n: int)
    requires
        0 <= n <= s.len(),
    ensures
        0 <= total_len(s.take(n)) <= total_len(s),
    decreases s.len(),
{
    if n == s.len() {
        assert(s.take(n) =~= s);
        lengths_add_up(s);
    } else {
        assert(s.take(n) =~= s.drop_last().take(n));
        fewer_chunks_hold_fewer_bytes(s.drop_last(), n);
    }
}

/// What comes of a file whose chunks were uploaded: their hashes in order, how many bytes were
/// hashed, and whether any of the chunks was stored by this upload; or the first failure.
pub fn chunked_result(
    chunks: &Vec<HashedChunk>,
    outcomes: Vec<Result<bool, SnapshotError>>,
) -> (r: Result<FileResult, SnapshotError>)
    requires
        total_len(chunk_data(chunks@)) <= u64::MAX,
    ensures
        r is Ok <==> forall|i: int| 0 <= i < outcomes@.len() ==> (#[trigger] outcomes@[i]) is Ok,
        r matches Ok(f) ==> f@ == (ResultView::Chunked {
            hashes: chunk_hashes(chunks@),
            uploaded: exists|i: int| 0 <= i < outcomes@.len() && #[trigger] outcomes@[i]
                == Ok::<bool, SnapshotError>(true),
            hashed_bytes: total_len(chunk_data(chunks@)) as u64,
        }),
        r matches Err(e) ==> exists|i: int|
            #[trigger] first_failed(outcomes@, i) && outcomes@[i] == Err::<bool, SnapshotError>(e),
{
    let ghost given = outcomes@;
    let mut any: bool = false;
    for outcome in it: outcomes
        invariant
            it.seq() == given,
            given == outcomes@,
            forall|k: int| 0 <= k < it.index() ==> (#[trigger] given[k]) is Ok,
            any == exists|i: int|
                0 <= i < it.index() && #[trigger] given[i] == Ok::<bool, SnapshotError>(true),
    {
        let ghost i = it.index() as int;
        assert(outcome == given[i]);
        match outcome {
            Ok(uploaded) => {
                if uploaded {
                    any = true;
                    assert(given[i] == Ok::<bool, SnapshotError>(true));
                }
            },
            Err(e) => {
                assert(first_failed(given, i));
                return Err(e);
            },
        }
    }
    let ghost data = chunk_data(chunks@);
    let mut hashes: Vec<String> = Vec::new();
    let mut hashed_bytes: u64 = 0;
    let mut i: usize = 0;
    while i < chunks.len()
        invariant
            i <= chunks@.len(),
            data == chunk_data(chunks@),
            total_len(data) <= u64::MAX,
            texts(hashes@) == chunk_hashes(chunks@).take(i as int),
            hashed_bytes == total_len(data.take(i as int)),
        decreases chunks@.len() - i,
    {
        proof {
            fewer_chunks_hold_fewer_bytes(data, i + 1);
            assert(data.take(i + 1).drop_last() =~= data.take(i as int));
            assert(data.take(i + 1).last() == chunks@[i as int].data@);
        }
        let ghost earlier = hashes@;
        let hash = chunks[i].hash.clone();
        hashes.push(hash);
        hashed_bytes = hashed_bytes + chunks[i].data.len() as u64;
        proof {
            assert(texts(hashes@) =~= texts(earlier).push(hash@));
            assert(chunk_hashes(chunks@).take(i + 1) =~= chunk_hashes(chunks@).take(i as int).push(
                chunks@[i as int].hash@,
            ));
        }
        i += 1;
    }
    proof {
        assert(data.take(i as int) =~= data);
        assert(chunk_hashes(chunks@).take(i as int) =~= chunk_hashes(chunks@));
    }
    Ok(FileResult::Chunked { hashes, uploaded: any, hashed_bytes })
}

/// What follows each answer: an object that exists, or that its owner stored, ends the upload
/// without storing it; one that does not is asked for, and an upload that is owned is begun in
/// parts where it is to go in parts, and else put at once. One that is owned by another is waited
/// for.
pub proof fn answers_lead_to_the_upload(b: Option<bool>, multipart: bool)
    ensures
        next_phase(PhaseView::Checking, EventView::Exists(Some(true)), multipart) == (
        PhaseView::Finished { outcome: Ok(false) }),
        b is None || b == Some(false) ==> next_phase(
            PhaseView::Checking,
            EventView::Exists(b),
            multipart,
        ) is Claiming,
        next_phase(PhaseView::Claiming, EventView::Claimed(Claim::Other), multipart) is Waiting,
        next_phase(PhaseView::Claiming, EventView::Claimed(Claim::Owner), true) is Creating,
        next_phase(PhaseView::Claiming, EventView::Claimed(Claim::Owner), false) is Putting,
        next_phase(PhaseView::Waiting, EventView::OwnerFinished { stored: true }, multipart) == (
        PhaseView::Finished { outcome: Ok(false) }),
        next_phase(
            PhaseView::Waiting,
            EventView::OwnerFinished { stored: false },
            multipart,
        ) is Claiming,
{
}

/// What follows each step of an owned upload: the object is released with the failure of the
/// step, if it failed, where nothing was begun in parts; parts that were all sent are completed
/// and put together under the name that they were begun with; and an upload in parts of which a
/// part or the completion failed is given up under that name and then released with the failure.
/// Releasing ends the upload with what it came to.
pub proof fn owned_upload_ends_with_what_it_came_to(
    failure: Option<FailureView>,
    f: FailureView,
    id: Seq<char>,
    sent: Seq<Result<SentView, FailureView>>,
    parts: Seq<SentView>,
    multipart: bool,
)
    ensures
        next_phase(PhaseView::Putting, EventView::PutDone(failure), multipart) == (
        PhaseView::Releasing { failure }),
        next_phase(PhaseView::Creating, EventView::Created(Ok(id)), multipart) == (
        PhaseView::Sending { upload_id: id }),
        next_phase(PhaseView::Creating, EventView::Created(Err(f)), multipart) == (
        PhaseView::Releasing { failure: Some(f) }),
        collected(sent) is Ok ==> next_phase(
            PhaseView::Sending { upload_id: id },
            EventView::PartsSent(sent),
            multipart,
        ) == (PhaseView::Completing { upload_id: id, parts: collected(sent)->Ok_0 }),
        collected(sent) is Err ==> next_phase(
            PhaseView::Sending { upload_id: id },
            EventView::PartsSent(sent),
            multipart,
        ) == (PhaseView::Aborting { upload_id: id, cause: collected(sent)->Err_0 }),
        next_phase(
            PhaseView::Completing { upload_id: id, parts },
            EventView::Completed(None),
            multipart,
        ) == (PhaseView::Releasing { failure: None }),
        next_phase(
            PhaseView::Completing { upload_id: id, parts },
            EventView::Completed(Some(f)),
            multipart,
        ) == (PhaseView::Aborting { upload_id: id, cause: f }),
        next_phase(
            PhaseView::Aborting { upload_id: id, cause: f },
            EventView::Aborted,
            multipart,
        ) == (PhaseView::Releasing { failure: Some(f) }),
        next_phase(PhaseView::Releasing { failure: None }, EventView::Released, multipart) == (
        PhaseView::Finished { outcome: Ok(true) }),
        next_phase(PhaseView::Releasing { failure: Some(f) }, EventView::Released, multipart) == (
        PhaseView::Finished { outcome: Err(f) }),
{
}

/// What does not belong to where an upload stands changes nothing, and an upload that is over
/// stays over.
pub proof fn other_events_change_nothing(p: PhaseView, e: EventView, multipart: bool)
    requires
        p is Checking ==> !(e is Exists),
        p is Claiming ==> !(e is Claimed),
        p is Waiting ==> !(e is OwnerFinished),
        p is Putting ==> !(e is PutDone),
        p is Creating ==> !(e is Created),
        p is Sending ==> !(e is PartsSent),
        p is Completing ==> !(e is Completed),
        p is Aborting ==> !(e is Aborted),
        p is Releasing ==> !(e is Released),
    ensures
        next_phase(p, e, multipart) == p,
{
}

/// Parts are collected exactly where sending succeeded of all of them; else the first failure
/// among them is what comes of it.
pub proof fn first_failed_part_counts(s: Seq<Result<SentView, FailureView>>, k: int)
    ensures
        collected(s) is Ok <==> forall|i: int| 0 <= i < s.len() ==> #[trigger] s[i] is Ok,
        0 <= k < s.len() && s[k] is Err && (forall|i: int| 0 <= i < k ==> #[trigger] s[i] is Ok)
            ==> collected(s) == Err::<Seq<SentView>, FailureView>(s[k]->Err_0),
    decreases s.len(),
{
    if s.len() > 0 {
        let front = s.drop_last();
        let n = s.len() - 1;
        first_failed_part_counts(front, k);
        assert forall|i: int| 0 <= i < n implies #[trigger] front[i] == s[i] by {}
        if collected(s) is Ok {
            assert forall|i: int| 0 <= i < s.len() implies #[trigger] s[i] is Ok by {
                if i < n {
                    assert(front[i] is Ok);
                }
            }
        }
        if forall|i: int| 0 <= i < s.len() ==> #[trigger] s[i] is Ok {
            assert forall|i: int| 0 <= i < n implies #[trigger] front[i] is Ok by {
                assert(s[i] is Ok);
            }
            assert(s[n] is Ok);
        }
        if 0 <= k < s.len() && s[k] is Err && (forall|i: int|
            0 <= i < k ==> #[trigger] s[i] is Ok) {
            assert forall|i: int| 0 <= i < k && i < n implies #[trigger] front[i] is Ok by {
                assert(s[i] is Ok);
            }
            if k < n {
                assert(front[k] == s[k]);
            }
        }
    }
}

/// One more part that was sent is put behind those with the same or a smaller number and before
/// those with a larger one, and the others stay as they stand.
pub proof fn one_more_part_finds_its_place(
    s: Seq<Result<SentView, FailureView>>,
    p: SentView,
) -> (at: int)
    requires
        collected(s) is Ok,
    ensures
        ({
            let parts = collected(s)->Ok_0;
            &&& 0 <= at <= parts.len()
            &&& collected(s.push(Ok(p))) == Ok::<Seq<SentView>, FailureView>(parts.insert(at, p))
            &&& forall|k: int| 0 <= k < at ==> (#[trigger] parts[k]).number <= p.number
            &&& forall|k: int| at <= k < parts.len() ==> (#[trigger] parts[k]).number > p.number
        }),
{
    assert(s.push(Ok(p)).drop_last() =~= s);
    collected_parts_are_in_order(s);
    inserted_part(collected(s)->Ok_0, p)
}

/// The parts of a file to send are counted from 1 and lie one behind the other: part `k + 1`
/// begins `k` parts in and has the size of a part, but for the last, which has what is left.
pub proof fn parts_to_send_cover_the_file(file_size: u64, part_size: u64, k: int)
    requires
        part_size > 0,
        chunk_count(part_size, file_size) <= i32::MAX,
        0 <= k < chunk_count(part_size, file_size),
    ensures
        ({
            let p = upload_part(file_size, part_size, k);
            &&& p.number == k + 1
            &&& p.offset == k * part_size
            &&& 0 < p.size <= part_size
            &&& k + 1 < chunk_count(part_size, file_size) ==> p.size == part_size
            &&& k + 1 == chunk_count(part_size, file_size) ==> p.offset + p.size == file_size
        }),
{
    next_chunk_bound(part_size, file_size, k);
    chunk_count_facts(part_size, file_size, k);
    chunk_count_facts(part_size, file_size, k + 1);
}

/// There is one hash for each chunk of contents, in order, and it is the hash of that chunk.
pub proof fn every_chunk_has_its_hash(data: Seq<u8>, chunk_size: u64, k: int)
    ensures
        hashes_of(data, chunk_size).len() == chunks_of(data, chunk_size).len(),
        0 <= k < chunks_of(data, chunk_size).len() ==> hashes_of(data, chunk_size)[k] == hash_text(
            chunks_of(data, chunk_size)[k],
        ),
{
}

/// An upload begins by asking whether the object exists, and each event takes it one step
/// further from where those before left it.
pub proof fn events_take_effect_in_turn(events: Seq<EventView>, e: EventView, multipart: bool)
    ensures
        run(Seq::empty(), multipart) is Checking,
        run(events.push(e), multipart) == next_phase(run(events, multipart), e, multipart),
{
    assert(events.push(e).drop_last() =~= events);
}

/// The first chunk that failed is one that failed, and none before it did; there is only one
/// such place.
pub proof fn first_failed_chunk_is_the_first(
    s: Seq<Result<bool, SnapshotError>>,
    i: int,
    j: int,
)
    ensures
        first_failed(s, i) ==> 0 <= i < s.len() && s[i] is Err,
        first_failed(s, i) && 0 <= j < i ==> s[j] is Ok,
        first_failed(s, i) && first_failed(s, j) ==> i == j,
        s.len() > 0 && s[0] is Err ==> first_failed(s, 0),
{
    if first_failed(s, i) && first_failed(s, j) {
        if i < j {
            assert(s[i] is Ok);
        } else if j < i {
            assert(s[j] is Ok);
        }
    }
}

} // verus!
