//! One pass over the segments on disk: each is looked at, those that are due are
//! uploaded one at a time, and a segment is removed here only after its
//! acknowledgement was written.

use vstd::prelude::*;
use vstd::string::*;

use crate::health::{DiagnosticCode, SyncFacts};
use crate::journal::{
    acknowledged_views, assess_receipt, assessment, copy_local_files, covers, has_duplicate,
    lemma_valid_receipt_covers, local_views, AcknowledgedFile, FileView, LocalFile, LocalView,
    Receipt, ReceiptFault, ReceiptView, UploadResult, UploadView,
};
use crate::sync::backoff::{rested, strained, wrapped, Backoff, SyncInstrumentation};
use crate::sync::candidates::{lookup, CandidateMap};
use crate::sync::failure::{OperationErrorView, SyncFailureClass, SyncOperationError};
use crate::sync::ledger::{
    answered_state, interval_fits, next_attempt, next_attempt_time, record_answer,
    record_unwritten, removed_files, removed_views, unwritten_state, StateRecord, StateView,
    LONG_RETRY_SECONDS, RETRY_SECONDS,
};
use crate::sync::removal::{digest_for, digest_pairs, digests_of, lemma_digest_found};
use crate::sync::segments::{candidate_views, CandidateView, SegmentCandidate};
use crate::text::{concat, copy};

verus! {

/// Segments that are uploaded before progress is published and other work gets its
/// turn.
pub const CANDIDATES_PER_BATCH: usize = 8;

/// What came of a sweep.
#[derive(Clone, Copy, Debug, PartialEq, Eq, Structural)]
pub struct SyncSweepSummary {
    pub attempted: usize,
    pub contacted: bool,
    pub custodied: usize,
    pub cancelled: bool,
    pub failure: Option<SyncFailureClass>,
    pub diagnostic: Option<DiagnosticCode>,
}

pub open spec fn empty_summary() -> SyncSweepSummary {
    SyncSweepSummary {
        attempted: 0,
        contacted: false,
        custodied: 0,
        cancelled: false,
        failure: None,
        diagnostic: None,
    }
}

impl SyncSweepSummary {
    pub fn empty() -> (r: Self)
        ensures
            r == empty_summary(),
    {
        SyncSweepSummary {
            attempted: 0,
            contacted: false,
            custodied: 0,
            cancelled: false,
            failure: None,
            diagnostic: None,
        }
    }
}

/// What lasts from one sweep to the next.
#[derive(Debug)]
pub struct SyncCore {
    pub facts: SyncFacts,
    pub backoff: Backoff,
    pub floors: CandidateMap<i64>,
}

pub ghost struct CoreView {
    pub facts: SyncFacts,
    pub backoff: Backoff,
    pub floors: Map<CandidateView, i64>,
}

impl View for SyncCore {
    type V = CoreView;

    open spec fn view(&self) -> CoreView {
        CoreView {
            facts: self.facts,
            backoff: self.backoff,
            floors: self.floors@,
        }
    }
}

impl SyncCore {
    pub fn new() -> (r: Self)
        ensures
            r@.facts == (SyncFacts { paired: true, pending_segments: 0, sync_in_progress: false }),
            r@.backoff == rested(),
            r@.floors == Map::<CandidateView, i64>::empty(),
    {
        SyncCore {
            facts: SyncFacts { paired: true, pending_segments: 0, sync_in_progress: false },
            backoff: Backoff::new(),
            floors: CandidateMap::new(),
        }
    }
}

/// A segment that is to be uploaded.
#[derive(Debug)]
pub struct DueSegment {
    pub candidate: SegmentCandidate,
    pub files: Vec<LocalFile>,
    pub state: StateRecord,
}

pub ghost struct DueView {
    pub candidate: CandidateView,
    pub files: Seq<LocalView>,
    pub state: StateView,
}

impl View for DueSegment {
    type V = DueView;

    open spec fn view(&self) -> DueView {
        DueView {
            candidate: self.candidate@,
            files: local_views(self.files@),
            state: self.state@,
        }
    }
}

pub open spec fn due_views(due: Seq<DueSegment>) -> Seq<DueView> {
    due.map_values(|d: DueSegment| d@)
}

/// What a look at a segment came to.
#[derive(Debug)]
pub enum Inspection {
    /// It is gone, or holds nothing.
    Missing,
    /// It cannot be read as a segment.
    Invalid,
    /// The ledger proves that the journal holds it.
    Acknowledged,
    Unacknowledged { files: Vec<LocalFile>, state: StateRecord },
}

pub ghost enum InspectionView {
    Missing,
    Invalid,
    Acknowledged,
    Unacknowledged { files: Seq<LocalView>, state: StateView },
}

impl View for Inspection {
    type V = InspectionView;

    open spec fn view(&self) -> InspectionView {
        match *self {
            Inspection::Missing => InspectionView::Missing,
            Inspection::Invalid => InspectionView::Invalid,
            Inspection::Acknowledged => InspectionView::Acknowledged,
            Inspection::Unacknowledged { files, state } => InspectionView::Unacknowledged {
                files: local_views(files@),
                state: state@,
            },
        }
    }
}

/// What the sweep does next. A number is that of a segment: of the one looked at
/// among all, later among those that are due.
#[derive(Clone, Copy, Debug, PartialEq, Eq, Structural)]
pub enum SweepStep {
    /// Look at the segment.
    Inspecting(usize),
    /// Publish that uploads begin.
    Publishing,
    /// Go on to the segment, unless a shutdown is asked for.
    Starting(usize),
    /// Upload the segment.
    Uploading(usize),
    /// Write the segment's retry state.
    SavingState(usize),
    /// Write the segment's acknowledgement.
    SavingAck(usize),
    /// Write a fresh retry state for the segment.
    ClearingState(usize),
    /// Remove the segment here.
    Deleting(usize),
    /// Publish progress; so many segments are done.
    EndingBatch(usize),
    /// Let other work have its turn; so many segments are done.
    Yielding(usize),
    /// Ask for the journal's status.
    Asking,
    Done,
}

/// What came of what the sweep asked for.
#[derive(Debug)]
pub enum SweepEvent {
    /// A shutdown is asked for.
    Shutdown,
    /// What was asked for is done, or nothing stands in the way.
    Proceed,
    Inspected(Inspection),
    Uploaded(Result<UploadResult, SyncOperationError>),
    StateSaved(bool),
    AckSaved(bool),
    StatusAnswered(Result<(), SyncOperationError>),
}

pub ghost enum SweepEventView {
    Shutdown,
    Proceed,
    Inspected(InspectionView),
    Uploaded(Result<UploadView, OperationErrorView>),
    StateSaved(bool),
    AckSaved(bool),
    StatusAnswered(Result<(), OperationErrorView>),
}

impl View for SweepEvent {
    type V = SweepEventView;

    open spec fn view(&self) -> SweepEventView {
        match *self {
            SweepEvent::Shutdown => SweepEventView::Shutdown,
            SweepEvent::Proceed => SweepEventView::Proceed,
            SweepEvent::Inspected(inspection) => SweepEventView::Inspected(inspection@),
            SweepEvent::Uploaded(Ok(result)) => SweepEventView::Uploaded(Ok(result@)),
            SweepEvent::Uploaded(Err(error)) => SweepEventView::Uploaded(Err(error@)),
            SweepEvent::StateSaved(saved) => SweepEventView::StateSaved(saved),
            SweepEvent::AckSaved(saved) => SweepEventView::AckSaved(saved),
            SweepEvent::StatusAnswered(Ok(_)) => SweepEventView::StatusAnswered(Ok(())),
            SweepEvent::StatusAnswered(Err(error)) => SweepEventView::StatusAnswered(Err(error@)),
        }
    }
}

/// An acknowledgement that is being written.
#[derive(Debug)]
pub struct PendingAck {
    pub files: Vec<AcknowledgedFile>,
    pub stored_key: String,
    /// Whether a receipt proves it; else the journal said that it removed the segment.
    pub from_receipt: bool,
}

pub ghost struct PendingAckView {
    pub files: Seq<FileView>,
    pub stored_key: Seq<char>,
    pub from_receipt: bool,
}

impl View for PendingAck {
    type V = PendingAckView;

    open spec fn view(&self) -> PendingAckView {
        PendingAckView {
            files: acknowledged_views(self.files@),
            stored_key: self.stored_key@,
            from_receipt: self.from_receipt,
        }
    }
}

/// A sweep under way.
#[derive(Debug)]
pub struct Sweep {
    pub core: SyncCore,
    pub now: i64,
    pub candidates: Vec<SegmentCandidate>,
    pub due: Vec<DueSegment>,
    pub unacknowledged: usize,
    pub ack_write_errors: usize,
    pub pending_ack: Option<PendingAck>,
    pub summary: SyncSweepSummary,
    pub step: SweepStep,
}

pub ghost struct SweepView {
    pub core: CoreView,
    pub now: i64,
    pub candidates: Seq<CandidateView>,
    pub due: Seq<DueView>,
    pub unacknowledged: usize,
    pub ack_write_errors: usize,
    pub pending_ack: Option<PendingAckView>,
    pub summary: SyncSweepSummary,
    pub step: SweepStep,
}

impl View for Sweep {
    type V = SweepView;

    open spec fn view(&self) -> SweepView {
        SweepView {
            core: self.core@,
            now: self.now,
            candidates: candidate_views(self.candidates@),
            due: due_views(self.due@),
            unacknowledged: self.unacknowledged,
            ack_write_errors: self.ack_write_errors,
            pending_ack: match self.pending_ack {
                Some(ack) => Some(ack@),
                None => None,
            },
            summary: self.summary,
            step: self.step,
        }
    }
}

// ---------------------------------------------------------------------------
// What a sweep does
// ---------------------------------------------------------------------------

/// A sweep that a shutdown ends.
pub open spec fn cancelled(s: SweepView) -> SweepView {
    SweepView {
        core: CoreView {
            facts: SyncFacts { sync_in_progress: false, ..s.core.facts },
            ..s.core
        },
        summary: SyncSweepSummary { cancelled: true, ..s.summary },
        step: SweepStep::Done,
        ..s
    }
}

/// The failure that ends a sweep.
pub open spec fn failure_of(error: OperationErrorView) -> SyncFailureClass {
    match error {
        OperationErrorView::RetainCandidate { .. } => SyncFailureClass::Contract,
        OperationErrorView::SegmentRemoved => SyncFailureClass::Contract,
        OperationErrorView::EndSweep(failure) => failure,
        OperationErrorView::EndSweepDiagnostic(failure, _) => failure,
    }
}

/// The summary of a sweep that an error ends.
pub open spec fn failed_summary(summary: SyncSweepSummary, error: OperationErrorView) -> SyncSweepSummary {
    SyncSweepSummary {
        failure: Some(failure_of(error)),
        diagnostic: match error {
            OperationErrorView::RetainCandidate { diagnostic, .. } => Some(diagnostic),
            OperationErrorView::EndSweepDiagnostic(_, code) => Some(code),
            _ => summary.diagnostic,
        },
        ..summary
    }
}

/// A sweep that an error ends. The next one waits.
pub open spec fn failed(s: SweepView, error: OperationErrorView) -> SweepView {
    SweepView {
        core: CoreView { backoff: strained(s.core.backoff), ..s.core },
        summary: failed_summary(s.summary, error),
        step: SweepStep::Done,
        ..s
    }
}

/// An exchange with the journal worked.
pub open spec fn contacted(s: SweepView) -> SweepView {
    SweepView {
        core: CoreView { backoff: rested(), ..s.core },
        summary: SyncSweepSummary { contacted: true, ..s.summary },
        ..s
    }
}

/// What follows when `count` segments have been looked at.
pub open spec fn after_inspection(s: SweepView, count: int) -> SweepView {
    if count < s.candidates.len() {
        SweepView { step: SweepStep::Inspecting(count as usize), ..s }
    } else {
        let facts = SyncFacts {
            pending_segments: s.unacknowledged as u64,
            sync_in_progress: s.core.facts.sync_in_progress || s.due.len() > 0,
            ..s.core.facts
        };
        SweepView {
            core: CoreView { facts, ..s.core },
            step: if s.due.len() > 0 {
                SweepStep::Publishing
            } else {
                SweepStep::Asking
            },
            ..s
        }
    }
}

/// What a look at segment `i` brings.
pub open spec fn inspected(s: SweepView, i: int, inspection: InspectionView) -> SweepView {
    match inspection {
        InspectionView::Missing => s,
        InspectionView::Acknowledged => s,
        InspectionView::Invalid => SweepView {
            unacknowledged: (s.unacknowledged + 1) as usize,
            summary: SyncSweepSummary {
                diagnostic: Some(DiagnosticCode::LocalSegmentInvalid),
                ..s.summary
            },
            ..s
        },
        InspectionView::Unacknowledged { files, state } => SweepView {
            unacknowledged: (s.unacknowledged + 1) as usize,
            due: if next_attempt_time(state, lookup(s.core.floors, s.candidates[i]), s.now)
                > s.now {
                s.due
            } else {
                s.due.push(DueView { candidate: s.candidates[i], files, state })
            },
            ..s
        },
    }
}

/// What follows when `count` of the due segments are done.
pub open spec fn after_segment(s: SweepView, count: int) -> SweepView {
    SweepView {
        step: if count >= s.due.len() || count % CANDIDATES_PER_BATCH as int == 0 {
            SweepStep::EndingBatch(count as usize)
        } else {
            SweepStep::Starting(count as usize)
        },
        ..s
    }
}

/// The segment at hand has a new retry state, which is to be written.
pub open spec fn keep_state(s: SweepView, i: int, state: StateView) -> SweepView {
    SweepView {
        due: s.due.update(i, DueView { state, ..s.due[i] }),
        step: SweepStep::SavingState(i as usize),
        ..s
    }
}

/// The answer that a receipt without proof stands for in the ledger.
pub open spec fn fault_answer(fault: ReceiptFault) -> Seq<char> {
    "invalid:"@ + fault.text()
}

/// The journal answered the upload of segment `i`.
pub open spec fn uploaded(s: SweepView, i: int, result: UploadView) -> SweepView {
    let due = s.due[i];
    match assessment(result, due.files) {
        ReceiptView::Valid(files) => SweepView {
            pending_ack: Some(
                PendingAckView {
                    files,
                    stored_key: match result.authoritative_key {
                        Some(key) => key,
                        None => due.candidate.segment,
                    },
                    from_receipt: true,
                },
            ),
            step: SweepStep::SavingAck(i as usize),
            ..s
        },
        ReceiptView::Invalid(fault) => keep_state(
            s,
            i,
            if fault == ReceiptFault::ReceivedNotWritten {
                unwritten_state(due.state, fault_answer(fault), s.now)
            } else {
                answered_state(due.state, fault_answer(fault), s.now)
            },
        ),
        ReceiptView::Absent => keep_state(
            s,
            i,
            answered_state(due.state, "absent:descriptors_absent"@, s.now),
        ),
    }
}

/// The journal did not take segment `i`.
pub open spec fn refused(s: SweepView, i: int, error: OperationErrorView) -> SweepView {
    match error {
        OperationErrorView::RetainCandidate { diagnostic, answer } => {
            let told = contacted(s);
            let noted = SweepView {
                summary: SyncSweepSummary { diagnostic: Some(diagnostic), ..told.summary },
                ..told
            };
            keep_state(noted, i, answered_state(s.due[i].state, answer, s.now))
        },
        OperationErrorView::SegmentRemoved => SweepView {
            pending_ack: Some(
                PendingAckView {
                    files: removed_views(s.due[i].files),
                    stored_key: s.due[i].candidate.segment,
                    from_receipt: false,
                },
            ),
            step: SweepStep::SavingAck(i as usize),
            ..contacted(s)
        },
        _ => failed(s, error),
    }
}

/// The time until which segment `i` is put off where its state could not be written.
pub open spec fn floor_time(s: SweepView, i: int) -> i64 {
    match s.due[i].state.next_attempt_unix {
        Some(at) => at,
        None => (s.now + RETRY_SECONDS) as i64,
    }
}

/// The retry state of segment `i` was written or not.
pub open spec fn state_saved(s: SweepView, i: int, saved: bool) -> SweepView {
    let kept = if saved {
        s
    } else {
        SweepView {
            core: CoreView {
                floors: s.core.floors.insert(s.due[i].candidate, floor_time(s, i)),
                ..s.core
            },
            ..s
        }
    };
    after_segment(kept, i + 1)
}

/// The acknowledgement of segment `i` was written or not.
pub open spec fn ack_saved(s: SweepView, i: int, saved: bool) -> SweepView {
    if saved {
        SweepView { ack_write_errors: 0, step: SweepStep::ClearingState(i as usize), ..s }
    } else {
        let errors = s.ack_write_errors + 1;
        let told = SweepView {
            ack_write_errors: errors as usize,
            pending_ack: None,
            summary: if errors >= 3 {
                SyncSweepSummary { diagnostic: Some(DiagnosticCode::PrivateStateIo), ..s.summary }
            } else {
                s.summary
            },
            ..s
        };
        after_segment(told, i + 1)
    }
}

/// The retry state of segment `i` was cleared: it may go.
pub open spec fn state_cleared(s: SweepView, i: int) -> SweepView {
    let pending = s.core.facts.pending_segments;
    SweepView {
        core: CoreView {
            floors: s.core.floors.remove(s.due[i].candidate),
            facts: SyncFacts {
                pending_segments: if pending > 0 {
                    (pending - 1) as u64
                } else {
                    0
                },
                ..s.core.facts
            },
            ..s.core
        },
        summary: if s.pending_ack is Some && s.pending_ack->0.from_receipt {
            SyncSweepSummary { custodied: (s.summary.custodied + 1) as usize, ..s.summary }
        } else {
            s.summary
        },
        step: SweepStep::Deleting(i as usize),
        ..s
    }
}

/// Where a sweep stands after an event. An event that was not asked for changes
/// nothing.
pub open spec fn sweep_next(s: SweepView, event: SweepEventView) -> SweepView {
    match (s.step, event) {
        (SweepStep::Inspecting(_), SweepEventView::Shutdown) => cancelled(s),
        (SweepStep::Starting(_), SweepEventView::Shutdown) => cancelled(s),
        (SweepStep::Uploading(_), SweepEventView::Shutdown) => cancelled(s),
        (SweepStep::Asking, SweepEventView::Shutdown) => cancelled(s),
        (SweepStep::Yielding(_), SweepEventView::Shutdown) => cancelled(s),
        (SweepStep::Inspecting(i), SweepEventView::Inspected(inspection)) => after_inspection(
            inspected(s, i as int, inspection),
            i + 1,
        ),
        (SweepStep::Publishing, SweepEventView::Proceed) => SweepView {
            step: SweepStep::Starting(0),
            ..s
        },
        (SweepStep::Starting(i), SweepEventView::Proceed) => SweepView {
            summary: SyncSweepSummary {
                attempted: (s.summary.attempted + 1) as usize,
                ..s.summary
            },
            step: SweepStep::Uploading(i),
            ..s
        },
        (SweepStep::Uploading(i), SweepEventView::Uploaded(Ok(result))) => uploaded(
            contacted(s),
            i as int,
            result,
        ),
        (SweepStep::Uploading(i), SweepEventView::Uploaded(Err(error))) => refused(
            s,
            i as int,
            error,
        ),
        (SweepStep::SavingState(i), SweepEventView::StateSaved(saved)) => state_saved(
            s,
            i as int,
            saved,
        ),
        (SweepStep::SavingAck(i), SweepEventView::AckSaved(saved)) => ack_saved(
            s,
            i as int,
            saved,
        ),
        (SweepStep::ClearingState(i), SweepEventView::Proceed) => state_cleared(s, i as int),
        (SweepStep::Deleting(i), SweepEventView::Proceed) => after_segment(
            SweepView { pending_ack: None, ..s },
            i + 1,
        ),
        (SweepStep::EndingBatch(count), SweepEventView::Proceed) => SweepView {
            step: if count >= s.due.len() {
                SweepStep::Done
            } else {
                SweepStep::Yielding(count)
            },
            ..s
        },
        (SweepStep::Yielding(count), SweepEventView::Proceed) => SweepView {
            step: SweepStep::Starting(count),
            ..s
        },
        (SweepStep::Asking, SweepEventView::StatusAnswered(Ok(_))) => SweepView {
            step: SweepStep::Done,
            ..contacted(s)
        },
        (SweepStep::Asking, SweepEventView::StatusAnswered(Err(error))) => failed(s, error),
        _ => s,
    }
}

/// The counters after an event: a batch begins where uploads begin and after other work
/// had its turn, and that turn is counted even where a shutdown follows it.
pub open spec fn counted(
    step: SweepStep,
    event: SweepEventView,
    counters: SyncInstrumentation,
) -> SyncInstrumentation {
    match (step, event) {
        (SweepStep::Publishing, SweepEventView::Proceed) => SyncInstrumentation {
            batches: wrapped(counters.batches, 1),
            ..counters
        },
        (SweepStep::Yielding(_), SweepEventView::Shutdown) => SyncInstrumentation {
            batch_yields: wrapped(counters.batch_yields, 1),
            ..counters
        },
        (SweepStep::Yielding(_), SweepEventView::Proceed) => SyncInstrumentation {
            batches: wrapped(counters.batches, 1),
            batch_yields: wrapped(counters.batch_yields, 1),
            ..counters
        },
        _ => counters,
    }
}

// ---------------------------------------------------------------------------
// What a sweep keeps
// ---------------------------------------------------------------------------

/// The due segment that a step is about.
pub open spec fn segment_at(step: SweepStep) -> Option<int> {
    match step {
        SweepStep::Uploading(i) => Some(i as int),
        SweepStep::SavingState(i) => Some(i as int),
        SweepStep::SavingAck(i) => Some(i as int),
        SweepStep::ClearingState(i) => Some(i as int),
        SweepStep::Deleting(i) => Some(i as int),
        _ => None,
    }
}

/// A step between the proof that the journal holds a segment and its removal here.
pub open spec fn is_releasing(step: SweepStep) -> bool {
    step is SavingAck || step is ClearingState || step is Deleting
}

/// The acknowledgement is for the local files: a receipt covers them, or the journal
/// removed them.
pub open spec fn ack_is_earned(ack: PendingAckView, files: Seq<LocalView>) -> bool {
    if ack.from_receipt {
        covers(ack.files, files) && !has_duplicate(ack.files)
    } else {
        ack.files == removed_views(files)
    }
}

/// What holds of a sweep at every step.
pub open spec fn sweep_ok(s: SweepView) -> bool {
    &&& s.now <= i64::MAX - LONG_RETRY_SECONDS
    &&& s.candidates.len() <= usize::MAX
    &&& s.due.len() <= s.candidates.len()
    &&& s.summary.custodied <= s.summary.attempted
    &&& s.ack_write_errors <= s.summary.attempted
    &&& s.summary.attempted <= s.due.len()
    &&& match s.step {
        SweepStep::Inspecting(i) => {
            &&& i < s.candidates.len()
            &&& s.due.len() <= s.unacknowledged <= i
            &&& s.summary.attempted == 0
        },
        SweepStep::Publishing => s.due.len() > 0 && s.summary.attempted == 0,
        SweepStep::Starting(i) => i < s.due.len() && s.summary.attempted == i,
        SweepStep::EndingBatch(count) => count <= s.due.len() && s.summary.attempted == count,
        SweepStep::Yielding(count) => count < s.due.len() && s.summary.attempted == count,
        SweepStep::Asking => s.due.len() == 0,
        _ => true,
    }
    &&& match segment_at(s.step) {
        Some(i) => {
            &&& 0 <= i < s.due.len()
            &&& s.summary.attempted == i + 1
            &&& s.ack_write_errors <= i
            &&& !(s.step is Deleting) ==> s.summary.custodied <= i
        },
        None => true,
    }
    &&& is_releasing(s.step) ==> s.pending_ack is Some && ack_is_earned(
        s.pending_ack->0,
        s.due[segment_at(s.step)->0].files,
    )
}

/// The clock can be moved on by the interval in an inspected segment's state.
pub open spec fn event_fits(s: SweepView, event: SweepEventView) -> bool {
    event matches SweepEventView::Inspected(InspectionView::Unacknowledged { state, .. })
        ==> interval_fits(state, s.now)
}

/// Every event keeps what holds of a sweep.
pub proof fn lemma_sweep_stays_ok(s: SweepView, event: SweepEventView)
    requires
        sweep_ok(s),
    ensures
        sweep_ok(sweep_next(s, event)),
{
    match (s.step, event) {
        (SweepStep::Uploading(i), SweepEventView::Uploaded(Ok(result))) => {
            let told = contacted(s);
            if assessment(result, told.due[i as int].files) is Valid {
                lemma_valid_receipt_covers(result, told.due[i as int].files);
            }
        },
        _ => {},
    }
}

/// The state of a sweep after a list of events.
pub open spec fn sweep_run(s: SweepView, events: Seq<SweepEventView>) -> SweepView
    decreases events.len(),
{
    if events.len() == 0 {
        s
    } else {
        sweep_next(sweep_run(s, events.drop_last()), events.last())
    }
}

/// The event says that the journal holds segment `i`, or that it removed it.
pub open spec fn is_proof(s: SweepView, event: SweepEventView, i: int) -> bool {
    &&& s.step == SweepStep::Uploading(i as usize)
    &&& 0 <= i < s.due.len()
    &&& match event {
        SweepEventView::Uploaded(Ok(result)) => assessment(result, s.due[i].files) is Valid,
        SweepEventView::Uploaded(Err(error)) => error is SegmentRemoved,
        _ => false,
    }
}

/// Some event of the run says that the journal holds segment `i`, or removed it.
pub open spec fn was_proved(s: SweepView, events: Seq<SweepEventView>, i: int) -> bool {
    exists|k: int|
        0 <= k < events.len() && is_proof(sweep_run(s, events.take(k)), #[trigger] events[k], i)
}

/// The acknowledgement of segment `i` was written in the run.
pub open spec fn was_saved(s: SweepView, events: Seq<SweepEventView>, i: int) -> bool {
    exists|k: int|
        0 <= k < events.len() && sweep_run(s, events.take(k)).step == SweepStep::SavingAck(
            i as usize,
        ) && #[trigger] events[k] == SweepEventView::AckSaved(true)
}

proof fn lemma_earlier_events_count(s: SweepView, events: Seq<SweepEventView>, i: int)
    requires
        events.len() > 0,
    ensures
        was_proved(s, events.drop_last(), i) ==> was_proved(s, events, i),
        was_saved(s, events.drop_last(), i) ==> was_saved(s, events, i),
{
    let before = events.drop_last();
    if was_proved(s, before, i) {
        let k = choose|k: int|
            0 <= k < before.len() && is_proof(sweep_run(s, before.take(k)), #[trigger] before[k], i);
        assert(before.take(k) =~= events.take(k));
        assert(events[k] == before[k]);
    }
    if was_saved(s, before, i) {
        let k = choose|k: int|
            0 <= k < before.len() && sweep_run(s, before.take(k)).step == SweepStep::SavingAck(
                i as usize,
            ) && #[trigger] before[k] == SweepEventView::AckSaved(true);
        assert(before.take(k) =~= events.take(k));
        assert(events[k] == before[k]);
    }
}

/// A segment is removed here only after the journal proved that it holds it, or said
/// that it removed it, and only after that was written to the ledger.
pub proof fn lemma_removal_needs_custody(s: SweepView, events: Seq<SweepEventView>, i: usize)
    requires
        sweep_ok(s),
        !is_releasing(s.step),
    ensures
        sweep_ok(sweep_run(s, events)),
        sweep_run(s, events).step == SweepStep::SavingAck(i) ==> was_proved(s, events, i as int),
        sweep_run(s, events).step == SweepStep::ClearingState(i) ==> was_proved(s, events, i as int)
            && was_saved(s, events, i as int),
        sweep_run(s, events).step == SweepStep::Deleting(i) ==> was_proved(s, events, i as int)
            && was_saved(s, events, i as int),
    decreases events.len(),
{
    if events.len() > 0 {
        let before = events.drop_last();
        let last = events.last();
        let n = events.len() - 1;
        lemma_removal_needs_custody(s, before, i);
        let t = sweep_run(s, before);
        lemma_sweep_stays_ok(t, last);
        lemma_earlier_events_count(s, events, i as int);
        assert(events.take(n) =~= before);
        let after = sweep_next(t, last);
        if after.step == SweepStep::SavingAck(i) && t.step != after.step {
            assert(t.step == SweepStep::Uploading(i));
            assert(is_proof(sweep_run(s, events.take(n)), events[n], i as int));
        }
        if after.step == SweepStep::ClearingState(i) && t.step != after.step {
            assert(t.step == SweepStep::SavingAck(i));
            assert(events[n] == SweepEventView::AckSaved(true));
        }
    }
}

/// Segments are uploaded one at a time, each at most once: with every step the number
/// of the segment at hand stays or grows, and what has been tried is what came before
/// it.
pub proof fn lemma_sweep_moves_forward(s: SweepView, event: SweepEventView)
    requires
        sweep_ok(s),
        !(s.step is Inspecting),
    ensures
        ({
            let after = sweep_next(s, event);
            &&& after.due.len() == s.due.len()
            &&& s.summary.attempted <= after.summary.attempted <= s.summary.attempted + 1
            &&& s.summary.attempted < after.summary.attempted ==> s.step == SweepStep::Starting(
                s.summary.attempted,
            ) && after.step == SweepStep::Uploading(s.summary.attempted)
        }),
{
}

/// A shutdown ends the sweep wherever the sweep could begin something new, and a
/// sweep that has ended stays so.
pub proof fn lemma_shutdown_ends_sweep(s: SweepView, event: SweepEventView)
    ensures
        ({
            ||| s.step is Inspecting
            ||| s.step is Starting
            ||| s.step is Uploading
            ||| s.step is Yielding
            ||| s.step is Asking
        }) ==> ({
            let after = sweep_next(s, SweepEventView::Shutdown);
            after.step == SweepStep::Done && after.summary.cancelled
                && !after.core.facts.sync_in_progress
        }),
        s.step == SweepStep::Done ==> sweep_next(s, event) == s,
{
}

// ---------------------------------------------------------------------------
// The sweep
// ---------------------------------------------------------------------------

impl PendingAck {
    /// The digest that each file must have to be removed.
    pub fn digests(&self) -> (r: Vec<(String, String)>)
        ensures
            r@.map_values(|p: (String, String)| (p.0@, p.1@)) == digest_pairs(self@.files),
    {
        digests_of(&self.files)
    }
}

/// What a removal holds the files against are the digests of the files that were
/// uploaded: every local file is removed only while it still has the digest with which
/// it was offered. Without a receipt this takes files with different names, as those of
/// a directory have.
pub proof fn lemma_release_checks_uploaded_digests(
    ack: PendingAckView,
    locals: Seq<LocalView>,
    digests: Seq<(String, String)>,
    i: int,
)
    requires
        ack_is_earned(ack, locals),
        ack.from_receipt || forall|a: int, b: int|
            0 <= a < b < locals.len() ==> (#[trigger] locals[a]).name != (#[trigger] locals[b]).name,
        digests.map_values(|p: (String, String)| (p.0@, p.1@)) == digest_pairs(ack.files),
        0 <= i < locals.len(),
    ensures
        digest_for(digests, locals[i].name) == Some(locals[i].sha256),
{
    let pairs = digests.map_values(|p: (String, String)| (p.0@, p.1@));
    let files = ack.files;
    assert(pairs.len() == files.len());
    let j = if ack.from_receipt {
        choose|j: int|
            0 <= j < files.len() && crate::journal::is_custody(#[trigger] files[j], locals[i])
    } else {
        i
    };
    assert(pairs[j] == (files[j].submitted, files[j].sha256));
    assert(digests[j].0@ == locals[i].name);
    assert forall|k: int| 0 <= k < digests.len() && (#[trigger] digests[k]).0@ == locals[i].name implies digests[k].1@
        == locals[i].sha256 by {
        assert(pairs[k] == (files[k].submitted, files[k].sha256));
        assert(pairs[k] == (digests[k].0@, digests[k].1@));
        if k < j {
            assert(files[k].submitted == files[j].submitted);
        } else if j < k {
            assert(files[j].submitted == files[k].submitted);
        }
        if !ack.from_receipt {
            assert(files[k].submitted == locals[k].name);
        }
    }
    lemma_digest_found(digests, locals[i].name, locals[i].sha256);
}

/// How a sweep begins: with the segments that are there, or not at all where they
/// could not be listed.
pub open spec fn sweep_start(
    core: CoreView,
    now: i64,
    candidates: Option<Seq<CandidateView>>,
) -> SweepView {
    let s = SweepView {
        core,
        now,
        candidates: match candidates {
            Some(candidates) => candidates,
            None => Seq::empty(),
        },
        due: Seq::empty(),
        unacknowledged: 0,
        ack_write_errors: 0,
        pending_ack: None,
        summary: empty_summary(),
        step: SweepStep::Done,
    };
    match candidates {
        Some(_) => after_inspection(s, 0),
        None => failed(
            SweepView {
                core: CoreView {
                    facts: SyncFacts { pending_segments: 0, ..core.facts },
                    ..core
                },
                ..s
            },
            OperationErrorView::EndSweepDiagnostic(
                SyncFailureClass::Contract,
                DiagnosticCode::LocalSegmentInvalid,
            ),
        ),
    }
}

impl Sweep {
    /// A sweep over the segments that are there; nothing where they could not be listed.
    /// The counters are kept apart, since others read them while the sweep is on.
    pub fn begin(
        core: SyncCore,
        now: i64,
        candidates: Option<Vec<SegmentCandidate>>,
        counters: &mut SyncInstrumentation,
    ) -> (r: Self)
        requires
            now <= i64::MAX - LONG_RETRY_SECONDS,
        ensures
            sweep_ok(r@),
            *final(counters) == (SyncInstrumentation {
                candidate_scans: wrapped(old(counters).candidate_scans, 1),
                ..*old(counters)
            }),
            r@ == sweep_start(
                core@,
                now,
                match candidates {
                    Some(v) => Some(candidate_views(v@)),
                    None => None,
                },
            ),
    {
        let mut core = core;
        counters.candidate_scan();
        match candidates {
            Some(candidates) => {
                proof {
                    assert(candidates@.len() == candidates.len());
                }
                let mut sweep = Sweep {
                    core,
                    now,
                    candidates,
                    due: Vec::new(),
                    unacknowledged: 0,
                    ack_write_errors: 0,
                    pending_ack: None,
                    summary: SyncSweepSummary::empty(),
                    step: SweepStep::Done,
                };
                proof {
                    assert(due_views(sweep.due@) =~= Seq::<DueView>::empty());
                }
                sweep.finish_inspection(0);
                sweep
            },
            None => {
                core.facts.pending_segments = 0;
                let mut sweep = Sweep {
                    core,
                    now,
                    candidates: Vec::new(),
                    due: Vec::new(),
                    unacknowledged: 0,
                    ack_write_errors: 0,
                    pending_ack: None,
                    summary: SyncSweepSummary::empty(),
                    step: SweepStep::Done,
                };
                proof {
                    assert(due_views(sweep.due@) =~= Seq::<DueView>::empty());
                    assert(candidate_views(sweep.candidates@) =~= Seq::<CandidateView>::empty());
                }
                sweep.fail(
                    SyncOperationError::EndSweepDiagnostic(
                        SyncFailureClass::Contract,
                        DiagnosticCode::LocalSegmentInvalid,
                    ),
                );
                sweep
            },
        }
    }

    fn cancel(&mut self)
        ensures
            final(self)@ == cancelled(old(self)@),
    {
        self.summary.cancelled = true;
        self.core.facts.sync_in_progress = false;
        self.step = SweepStep::Done;
    }

    fn fail(&mut self, error: SyncOperationError)
        ensures
            final(self)@ == failed(old(self)@, error@),
    {
        let failure = match error {
            SyncOperationError::RetainCandidate { diagnostic, .. } => {
                self.summary.diagnostic = Some(diagnostic);
                SyncFailureClass::Contract
            },
            SyncOperationError::SegmentRemoved => SyncFailureClass::Contract,
            SyncOperationError::EndSweep(failure) => failure,
            SyncOperationError::EndSweepDiagnostic(failure, code) => {
                self.summary.diagnostic = Some(code);
                failure
            },
        };
        self.core.backoff.failed_operation();
        self.summary.failure = Some(failure);
        self.step = SweepStep::Done;
    }

    fn contact(&mut self)
        ensures
            final(self).due == old(self).due,
            final(self).now == old(self).now,
            final(self)@ == contacted(old(self)@),
    {
        self.summary.contacted = true;
        self.core.backoff.successful_operation();
    }

    fn finish_inspection(&mut self, count: usize)
        ensures
            final(self)@ == after_inspection(old(self)@, count as int),
    {
        if count < self.candidates.len() {
            self.step = SweepStep::Inspecting(count);
        } else {
            self.core.facts.pending_segments = self.unacknowledged as u64;
            if self.due.len() > 0 {
                self.core.facts.sync_in_progress = true;
                self.step = SweepStep::Publishing;
            } else {
                self.step = SweepStep::Asking;
            }
        }
    }

    fn inspect(&mut self, i: usize, inspection: Inspection)
        requires
            i < old(self).candidates@.len(),
            old(self).unacknowledged < usize::MAX,
            event_fits(old(self)@, SweepEventView::Inspected(inspection@)),
        ensures
            final(self)@ == inspected(old(self)@, i as int, inspection@),
    {
        match inspection {
            Inspection::Missing => {},
            Inspection::Acknowledged => {},
            Inspection::Invalid => {
                self.unacknowledged = self.unacknowledged + 1;
                self.summary.diagnostic = Some(DiagnosticCode::LocalSegmentInvalid);
            },
            Inspection::Unacknowledged { files, state } => {
                self.unacknowledged = self.unacknowledged + 1;
                let floor = match self.core.floors.get(&self.candidates[i]) {
                    Some(at) => Some(*at),
                    None => None,
                };
                let at: i64 = next_attempt(&state, floor, self.now);
                if at <= self.now {
                    let ghost before = due_views(self.due@);
                    let candidate = self.candidates[i].clone();
                    let due = DueSegment { candidate, files, state };
                    self.due.push(due);
                    proof {
                        assert(due_views(self.due@) =~= before.push(due@));
                    }
                }
            },
        }
    }

    fn finish_segment(&mut self, count: usize)
        ensures
            final(self)@ == after_segment(old(self)@, count as int),
    {
        if count >= self.due.len() || count % CANDIDATES_PER_BATCH == 0 {
            self.step = SweepStep::EndingBatch(count);
        } else {
            self.step = SweepStep::Starting(count);
        }
    }

    /// Notes an answer that keeps segment `i` here.
    fn keep(&mut self, i: usize, answer: String, unwritten: bool)
        requires
            i < old(self).due.len(),
            old(self).now <= i64::MAX - LONG_RETRY_SECONDS,
        ensures
            final(self)@ == keep_state(
                old(self)@,
                i as int,
                if unwritten {
                    unwritten_state(old(self)@.due[i as int].state, answer@, old(self).now)
                } else {
                    answered_state(old(self)@.due[i as int].state, answer@, old(self).now)
                },
            ),
    {
        let now: i64 = self.now;
        let ghost before = self.due@;
        let mut state = self.due[i].state.clone();
        if unwritten {
            record_unwritten(&mut state, answer, now);
        } else {
            record_answer(&mut state, answer, now);
        }
        let due = DueSegment {
            candidate: self.due[i].candidate.clone(),
            files: copy_local_files(&self.due[i].files),
            state,
        };
        self.due.set(i, due);
        self.step = SweepStep::SavingState(i);
        proof {
            assert(due_views(self.due@) =~= due_views(before).update(i as int, due@));
        }
    }

    fn take_answer(&mut self, i: usize, result: UploadResult)
        requires
            i < old(self).due.len(),
            old(self).now <= i64::MAX - LONG_RETRY_SECONDS,
        ensures
            final(self)@ == uploaded(old(self)@, i as int, result@),
    {
        match assess_receipt(&result, self.due[i].files.as_slice()) {
            Receipt::Valid(files) => {
                let stored_key = match result.authoritative_key {
                    Some(key) => key,
                    None => copy(self.due[i].candidate.segment()),
                };
                self.pending_ack = Some(PendingAck { files, stored_key, from_receipt: true });
                self.step = SweepStep::SavingAck(i);
            },
            Receipt::Invalid(fault) => {
                let answer = concat("invalid:", fault.as_str());
                self.keep(i, answer, fault == ReceiptFault::ReceivedNotWritten);
            },
            Receipt::Absent => {
                self.keep(i, copy("absent:descriptors_absent"), false);
            },
        }
    }

    fn take_refusal(&mut self, i: usize, error: SyncOperationError)
        requires
            i < old(self).due.len(),
            old(self).now <= i64::MAX - LONG_RETRY_SECONDS,
        ensures
            final(self)@ == refused(old(self)@, i as int, error@),
    {
        match error {
            SyncOperationError::RetainCandidate { diagnostic, answer } => {
                self.contact();
                self.summary.diagnostic = Some(diagnostic);
                self.keep(i, answer, false);
            },
            SyncOperationError::SegmentRemoved => {
                self.contact();
                let files = removed_files(&self.due[i].files);
                let stored_key = copy(self.due[i].candidate.segment());
                self.pending_ack = Some(PendingAck { files, stored_key, from_receipt: false });
                self.step = SweepStep::SavingAck(i);
            },
            error => {
                self.fail(error);
            },
        }
    }

    fn note_state_saved(&mut self, i: usize, saved: bool)
        requires
            i < old(self).due.len(),
            old(self).now <= i64::MAX - LONG_RETRY_SECONDS,
        ensures
            final(self)@ == state_saved(old(self)@, i as int, saved),
    {
        if !saved {
            let at: i64 = match self.due[i].state.next_attempt_unix {
                Some(at) => at,
                None => self.now + RETRY_SECONDS as i64,
            };
            let candidate = self.due[i].candidate.clone();
            self.core.floors.insert(candidate, at);
        }
        self.finish_segment(i + 1);
    }

    fn note_ack_saved(&mut self, i: usize, saved: bool)
        requires
            i < old(self).due.len(),
            old(self).ack_write_errors < usize::MAX,
        ensures
            final(self)@ == ack_saved(old(self)@, i as int, saved),
    {
        if saved {
            self.ack_write_errors = 0;
            self.step = SweepStep::ClearingState(i);
        } else {
            self.ack_write_errors = self.ack_write_errors + 1;
            self.pending_ack = None;
            if self.ack_write_errors >= 3 {
                self.summary.diagnostic = Some(DiagnosticCode::PrivateStateIo);
            }
            self.finish_segment(i + 1);
        }
    }

    fn note_state_cleared(&mut self, i: usize)
        requires
            i < old(self).due.len(),
            old(self).summary.custodied < usize::MAX,
        ensures
            final(self)@ == state_cleared(old(self)@, i as int),
    {
        let from_receipt = match &self.pending_ack {
            Some(ack) => ack.from_receipt,
            None => false,
        };
        self.core.floors.remove(&self.due[i].candidate);
        if from_receipt {
            self.summary.custodied = self.summary.custodied + 1;
        }
        if self.core.facts.pending_segments > 0 {
            self.core.facts.pending_segments = self.core.facts.pending_segments - 1;
        }
        self.step = SweepStep::Deleting(i);
    }

    /// Takes an event in; `step` then says what to do next.
    pub fn advance(&mut self, event: SweepEvent, counters: &mut SyncInstrumentation)
        requires
            sweep_ok(old(self)@),
            event_fits(old(self)@, event@),
        ensures
            sweep_ok(final(self)@),
            *final(counters) == counted(old(self).step, event@, *old(counters)),
            final(self)@ == sweep_next(old(self)@, event@),
    {
        proof {
            lemma_sweep_stays_ok(self@, event@);
        }
        match (self.step, event) {
            (SweepStep::Inspecting(_), SweepEvent::Shutdown) => self.cancel(),
            (SweepStep::Starting(_), SweepEvent::Shutdown) => self.cancel(),
            (SweepStep::Uploading(_), SweepEvent::Shutdown) => self.cancel(),
            (SweepStep::Asking, SweepEvent::Shutdown) => self.cancel(),
            (SweepStep::Yielding(_), SweepEvent::Shutdown) => {
                counters.batch_yield();
                self.cancel();
            },
            (SweepStep::Inspecting(i), SweepEvent::Inspected(inspection)) => {
                self.inspect(i, inspection);
                self.finish_inspection(i + 1);
            },
            (SweepStep::Publishing, SweepEvent::Proceed) => {
                counters.batch();
                self.step = SweepStep::Starting(0);
            },
            (SweepStep::Starting(i), SweepEvent::Proceed) => {
                self.summary.attempted = self.summary.attempted + 1;
                self.step = SweepStep::Uploading(i);
            },
            (SweepStep::Uploading(i), SweepEvent::Uploaded(Ok(result))) => {
                self.contact();
                self.take_answer(i, result);
            },
            (SweepStep::Uploading(i), SweepEvent::Uploaded(Err(error))) => {
                self.take_refusal(i, error);
            },
            (SweepStep::SavingState(i), SweepEvent::StateSaved(saved)) => {
                self.note_state_saved(i, saved);
            },
            (SweepStep::SavingAck(i), SweepEvent::AckSaved(saved)) => {
                self.note_ack_saved(i, saved);
            },
            (SweepStep::ClearingState(i), SweepEvent::Proceed) => {
                self.note_state_cleared(i);
            },
            (SweepStep::Deleting(i), SweepEvent::Proceed) => {
                self.pending_ack = None;
                self.finish_segment(i + 1);
            },
            (SweepStep::EndingBatch(count), SweepEvent::Proceed) => {
                if count >= self.due.len() {
                    self.step = SweepStep::Done;
                } else {
                    self.step = SweepStep::Yielding(count);
                }
            },
            (SweepStep::Yielding(count), SweepEvent::Proceed) => {
                counters.batch_yield();
                counters.batch();
                self.step = SweepStep::Starting(count);
            },
            (SweepStep::Asking, SweepEvent::StatusAnswered(Ok(_))) => {
                self.contact();
                self.step = SweepStep::Done;
            },
            (SweepStep::Asking, SweepEvent::StatusAnswered(Err(error))) => self.fail(error),
            _ => {},
        }
    }
}

// ---------------------------------------------------------------------------
// What a sweep is for
// ---------------------------------------------------------------------------

/// A segment that is looked at and not acknowledged is to be uploaded where the time in
/// its ledger and the time that is remembered for it have both come, or neither is known.
pub proof fn lemma_ripe_segment_is_due(s: SweepView, i: usize, files: Seq<LocalView>, state: StateView)
    requires
        s.step == SweepStep::Inspecting(i),
        i < s.candidates.len(),
        state.next_attempt_unix is Some ==> state.next_attempt_unix->0 <= s.now,
        s.core.floors.contains_key(s.candidates[i as int]) ==> s.core.floors[s.candidates[i as int]]
            <= s.now,
        s.now >= 0,
    ensures
        ({
            let after = sweep_next(
                s,
                SweepEventView::Inspected(InspectionView::Unacknowledged { files, state }),
            );
            &&& after.due == s.due.push(DueView { candidate: s.candidates[i as int], files, state })
            &&& i + 1 == s.candidates.len() ==> after.step == SweepStep::Publishing
            &&& i + 1 < s.candidates.len() ==> after.step == SweepStep::Inspecting((i + 1) as usize)
        }),
{
}

/// A segment is left for another sweep while the time that is remembered for it, or the
/// time in its ledger, is still to come.
pub proof fn lemma_early_segment_is_left(s: SweepView, i: usize, files: Seq<LocalView>, state: StateView)
    requires
        s.step == SweepStep::Inspecting(i),
        i < s.candidates.len(),
        ({
            ||| s.core.floors.contains_key(s.candidates[i as int])
                && s.core.floors[s.candidates[i as int]] > s.now
            ||| state.next_attempt_unix is Some && state.next_attempt_unix->0 > s.now && (
            state.next_attempt_interval_seconds is Some ==> 0
                < state.next_attempt_interval_seconds->0 <= i64::MAX as u64)
        }),
    ensures
        sweep_next(
            s,
            SweepEventView::Inspected(InspectionView::Unacknowledged { files, state }),
        ).due == s.due,
{
}

/// A segment that a sweep put off comes back: the time of its next try lies an hour or a
/// day ahead, a sweep that looks at it before that time leaves it, and every sweep that
/// looks at it from then on uploads it again. The same holds where the state could not
/// be written and its time is only remembered.
pub proof fn lemma_put_off_segment_comes_back(
    s: SweepView,
    i: usize,
    event: SweepEventView,
    later: SweepView,
    j: usize,
    files: Seq<LocalView>,
    state: StateView,
)
    requires
        sweep_ok(s),
        s.now >= 0,
        s.step == SweepStep::Uploading(i),
        sweep_next(s, event).step == SweepStep::SavingState(i),
        later.step == SweepStep::Inspecting(j),
        j < later.candidates.len(),
        later.now >= s.now,
        ({
            let at = sweep_next(s, event).due[i as int].state.next_attempt_unix->0;
            let candidate = later.candidates[j as int];
            ||| state == sweep_next(s, event).due[i as int].state && !later.core.floors.contains_key(
                candidate,
            )
            ||| state.next_attempt_unix is None && later.core.floors.contains_key(candidate)
                && later.core.floors[candidate] == at
        }),
    ensures
        ({
            let put_off = sweep_next(s, event).due[i as int].state;
            let after = sweep_next(
                later,
                SweepEventView::Inspected(InspectionView::Unacknowledged { files, state }),
            );
            &&& put_off.next_attempt_unix is Some
            &&& put_off.next_attempt_unix->0 == s.now + 3600 || put_off.next_attempt_unix->0
                == s.now + 86400
            &&& later.now >= put_off.next_attempt_unix->0 ==> after.due == later.due.push(
                DueView { candidate: later.candidates[j as int], files, state },
            )
            &&& later.now < put_off.next_attempt_unix->0 ==> after.due == later.due
        }),
{
}

/// A look at a segment counts it as one that the journal does not hold, unless it is
/// gone or acknowledged; only one that can be read and is not acknowledged is uploaded,
/// and one that cannot be read is told of. After the last look the number is reported,
/// and uploads begin where any segment is due; else the journal is asked how it is.
pub proof fn lemma_looks_are_counted(s: SweepView, i: usize, inspection: InspectionView)
    requires
        sweep_ok(s),
        s.step == SweepStep::Inspecting(i),
    ensures
        ({
            let after = sweep_next(s, SweepEventView::Inspected(inspection));
            &&& inspection is Missing || inspection is Acknowledged ==> after.unacknowledged
                == s.unacknowledged && after.due == s.due && after.summary == s.summary
            &&& inspection is Invalid ==> after.unacknowledged == s.unacknowledged + 1 && after.due
                == s.due && after.summary.diagnostic == Some(DiagnosticCode::LocalSegmentInvalid)
            &&& inspection is Unacknowledged ==> after.unacknowledged == s.unacknowledged + 1
                && after.summary == s.summary
            &&& i + 1 < s.candidates.len() ==> after.step == SweepStep::Inspecting((i + 1) as usize)
                && after.core == s.core
            &&& i + 1 == s.candidates.len() ==> {
                &&& after.core.facts.pending_segments == after.unacknowledged
                &&& after.due.len() > 0 ==> after.step == SweepStep::Publishing
                    && after.core.facts.sync_in_progress
                &&& after.due.len() == 0 ==> after.step == SweepStep::Asking
                    && after.core.facts.sync_in_progress == s.core.facts.sync_in_progress
                &&& after.core.floors == s.core.floors
                &&& after.core.backoff == s.core.backoff
            }
            &&& after.candidates == s.candidates
            &&& after.now == s.now
            &&& after.core.floors == s.core.floors
        }),
{
}

/// The time of a segment has come: neither its ledger nor what is remembered says that
/// it is to be left alone.
pub open spec fn is_ripe(state: StateView, floors: Map<CandidateView, i64>, c: CandidateView, now: i64) -> bool {
    &&& state.next_attempt_unix is Some ==> state.next_attempt_unix->0 <= now
    &&& floors.contains_key(c) ==> floors[c] <= now
}

/// The looks of a sweep, one per segment, as the events that they are.
pub open spec fn looks(inspections: Seq<InspectionView>) -> Seq<SweepEventView> {
    inspections.map_values(|inspection: InspectionView| SweepEventView::Inspected(inspection))
}

/// How many of the looks found a segment that the journal is not known to hold.
pub open spec fn unheld(inspections: Seq<InspectionView>) -> nat
    decreases inspections.len(),
{
    if inspections.len() == 0 {
        0
    } else if inspections.last() is Invalid || inspections.last() is Unacknowledged {
        unheld(inspections.drop_last()) + 1
    } else {
        unheld(inspections.drop_last())
    }
}

/// When every segment has been looked at, the sweep knows how many the journal does not
/// hold, and every one of them whose time has come is among those that are uploaded,
/// with the files and the state that the look found.
pub proof fn lemma_sweep_finds_what_is_ripe(
    core: CoreView,
    now: i64,
    candidates: Seq<CandidateView>,
    inspections: Seq<InspectionView>,
)
    requires
        0 <= now <= i64::MAX - LONG_RETRY_SECONDS,
        candidates.len() <= usize::MAX,
        inspections.len() <= candidates.len(),
    ensures
        ({
            let s = sweep_run(sweep_start(core, now, Some(candidates)), looks(inspections));
            &&& sweep_ok(s)
            &&& s.candidates == candidates
            &&& s.now == now
            &&& s.core.floors == core.floors
            &&& s.unacknowledged == unheld(inspections)
            &&& inspections.len() < candidates.len() ==> s.step == SweepStep::Inspecting(
                inspections.len() as usize,
            )
            &&& inspections.len() == candidates.len() ==> {
                &&& s.core.facts.pending_segments == unheld(inspections)
                &&& s.step == SweepStep::Publishing <==> s.due.len() > 0
                &&& s.step == SweepStep::Asking <==> s.due.len() == 0
            }
            &&& forall|k: int|
                #![trigger inspections[k]]
                0 <= k < inspections.len() ==> (inspections[k] matches InspectionView::Unacknowledged {
                    files,
                    state,
                } ==> (is_ripe(state, core.floors, candidates[k], now) ==> s.due.contains(
                    DueView { candidate: candidates[k], files, state },
                )))
        }),
    decreases inspections.len(),
{
    let start = sweep_start(core, now, Some(candidates));
    let s = sweep_run(start, looks(inspections));
    if inspections.len() > 0 {
        let before = inspections.drop_last();
        let n = before.len();
        lemma_sweep_finds_what_is_ripe(core, now, candidates, before);
        assert(looks(inspections).drop_last() =~= looks(before));
        let t = sweep_run(start, looks(before));
        assert(s == sweep_next(t, SweepEventView::Inspected(inspections.last())));
        lemma_sweep_stays_ok(t, SweepEventView::Inspected(inspections.last()));
        lemma_looks_are_counted(t, n as usize, inspections.last());
        assert forall|k: int| #![trigger inspections[k]] 0 <= k < inspections.len() implies (
        inspections[k] matches InspectionView::Unacknowledged { files, state } ==> (is_ripe(
            state,
            core.floors,
            candidates[k],
            now,
        ) ==> s.due.contains(DueView { candidate: candidates[k], files, state }))) by {
            match inspections[k] {
                InspectionView::Unacknowledged { files, state } => {
                    let d = DueView { candidate: candidates[k], files, state };
                    if is_ripe(state, core.floors, candidates[k], now) {
                        if k < n {
                            assert(before[k] == inspections[k]);
                            assert(t.due.contains(d));
                            let m = choose|m: int| 0 <= m < t.due.len() && t.due[m] == d;
                            assert(s.due == t.due || s.due.drop_last() =~= t.due);
                            if s.due != t.due {
                                assert(s.due[m] == s.due.drop_last()[m]);
                            }
                            assert(s.due[m] == d);
                        } else {
                            lemma_ripe_segment_is_due(t, n as usize, files, state);
                            assert(s.due[t.due.len() as int] == d);
                        }
                    }
                },
                _ => {},
            }
        }
    } else {
        assert(looks(inspections) =~= Seq::<SweepEventView>::empty());
    }
}

/// A sweep that neither a failure nor a shutdown ends has tried every segment that was
/// due, and where it asked for the journal's status, has reached the journal.
pub proof fn lemma_every_due_segment_is_tried(s: SweepView, event: SweepEventView)
    requires
        sweep_ok(s),
        s.step != SweepStep::Done,
        s.summary.failure is None,
        !s.summary.cancelled,
        sweep_next(s, event).step == SweepStep::Done,
    ensures
        ({
            let after = sweep_next(s, event);
            ||| after.summary.cancelled
            ||| after.summary.failure is Some
            ||| after.summary.attempted == s.due.len() && (s.step == SweepStep::Asking
                ==> after.summary.contacted)
        }),
{
}

/// Uploads follow one another in the order of the segments: what is done with one leads
/// to the next, after every eighth progress is published and other work gets its turn,
/// and after the last one the sweep is over.
pub proof fn lemma_uploads_follow_one_another(s: SweepView, event: SweepEventView)
    requires
        sweep_ok(s),
    ensures
        ({
            let after = sweep_next(s, event);
            &&& s.step is Publishing && event is Proceed ==> after.step == SweepStep::Starting(0)
            &&& s.step is Starting && event is Proceed ==> after.step == SweepStep::Uploading(
                s.step->Starting_0,
            )
            &&& ((s.step is SavingState && event is StateSaved) || (s.step is SavingAck && event
                == SweepEventView::AckSaved(false)) || (s.step is Deleting && event is Proceed))
                ==> {
                let next = segment_at(s.step)->0 + 1;
                if next < s.due.len() && next % 8 != 0 {
                    after.step == SweepStep::Starting(next as usize)
                } else {
                    after.step == SweepStep::EndingBatch(next as usize)
                }
            }
            &&& s.step is EndingBatch && event is Proceed ==> {
                let done = s.step->EndingBatch_0;
                if done == s.due.len() {
                    after.step == SweepStep::Done
                } else {
                    after.step == SweepStep::Yielding(done)
                }
            }
            &&& s.step is Yielding && event is Proceed ==> after.step == SweepStep::Starting(
                s.step->Yielding_0,
            )
        }),
{
}

/// A segment for which the journal gave a valid receipt goes its whole way: what the
/// receipt says is written as its acknowledgement, then its retry state is cleared, and
/// it is removed here. It counts as taken into custody, one fewer waits, nothing is
/// remembered of it, and the journal counts as reached.
pub proof fn lemma_receipt_releases_the_segment(s: SweepView, i: usize, result: UploadView)
    requires
        sweep_ok(s),
        s.step == SweepStep::Uploading(i),
        assessment(result, s.due[i as int].files) is Valid,
    ensures
        ({
            let told = sweep_next(s, SweepEventView::Uploaded(Ok(result)));
            let saved = sweep_next(told, SweepEventView::AckSaved(true));
            let cleared = sweep_next(saved, SweepEventView::Proceed);
            let candidate = s.due[i as int].candidate;
            &&& told.step == SweepStep::SavingAck(i)
            &&& told.pending_ack is Some
            &&& told.pending_ack->0.files == assessment(result, s.due[i as int].files)->Valid_0
            &&& result.authoritative_key is Some ==> told.pending_ack->0.stored_key
                == result.authoritative_key->0
            &&& result.authoritative_key is None ==> told.pending_ack->0.stored_key
                == candidate.segment
            &&& told.summary.contacted
            &&& told.core.backoff.delay is None
            &&& told.core.backoff.next_delay == 0
            &&& told.due == s.due
            &&& saved.step == SweepStep::ClearingState(i)
            &&& saved.ack_write_errors == 0
            &&& saved.pending_ack == told.pending_ack
            &&& cleared.step == SweepStep::Deleting(i)
            &&& cleared.pending_ack == told.pending_ack
            &&& cleared.summary.custodied == s.summary.custodied + 1
            &&& s.core.facts.pending_segments > 0 ==> cleared.core.facts.pending_segments
                == s.core.facts.pending_segments - 1
            &&& !cleared.core.floors.contains_key(candidate)
            &&& forall|c: CandidateView|
                c != candidate ==> (#[trigger] cleared.core.floors.contains_key(c)
                    <==> s.core.floors.contains_key(c))
            &&& forall|c: CandidateView|
                c != candidate && s.core.floors.contains_key(c)
                    ==> #[trigger] cleared.core.floors[c] == s.core.floors[c]
        }),
{
}

/// A segment that the journal says it removed is acknowledged under its own name with
/// the files that are here, and goes the same way; it does not count as taken into
/// custody.
pub proof fn lemma_removed_segment_is_released(s: SweepView, i: usize)
    requires
        sweep_ok(s),
        s.step == SweepStep::Uploading(i),
    ensures
        ({
            let told = sweep_next(
                s,
                SweepEventView::Uploaded(Err(OperationErrorView::SegmentRemoved)),
            );
            let saved = sweep_next(told, SweepEventView::AckSaved(true));
            let cleared = sweep_next(saved, SweepEventView::Proceed);
            let files = s.due[i as int].files;
            &&& told.step == SweepStep::SavingAck(i)
            &&& told.pending_ack is Some
            &&& told.pending_ack->0.stored_key == s.due[i as int].candidate.segment
            &&& told.pending_ack->0.files.len() == files.len()
            &&& forall|k: int|
                0 <= k < files.len() ==> {
                    let file = #[trigger] told.pending_ack->0.files[k];
                    file.submitted == files[k].name && file.size == files[k].size && file.sha256
                        == files[k].sha256
                }
            &&& told.summary.contacted
            &&& told.summary.failure == s.summary.failure
            &&& told.summary.diagnostic == s.summary.diagnostic
            &&& told.core.backoff.delay is None
            &&& saved.step == SweepStep::ClearingState(i)
            &&& cleared.step == SweepStep::Deleting(i)
            &&& cleared.summary.custodied == s.summary.custodied
            &&& !cleared.core.floors.contains_key(s.due[i as int].candidate)
            &&& s.core.facts.pending_segments > 0 ==> cleared.core.facts.pending_segments
                == s.core.facts.pending_segments - 1
        }),
{
}

/// A segment whose upload proves nothing stays here and is put off: by a day where the
/// journal could not write what it received or gave this answer for the third time, by
/// an hour else. Its ledger names the answer, and no other segment changes.
pub proof fn lemma_unproved_upload_is_put_off(s: SweepView, i: usize, result: UploadView)
    requires
        sweep_ok(s),
        s.step == SweepStep::Uploading(i),
        !(assessment(result, s.due[i as int].files) is Valid),
    ensures
        ({
            let told = sweep_next(s, SweepEventView::Uploaded(Ok(result)));
            let receipt = assessment(result, s.due[i as int].files);
            let before = s.due[i as int].state;
            let state = told.due[i as int].state;
            &&& told.step == SweepStep::SavingState(i)
            &&& told.pending_ack == s.pending_ack
            &&& told.summary.contacted
            &&& told.core.backoff.delay is None
            &&& told.summary.custodied == s.summary.custodied
            &&& told.summary.failure == s.summary.failure
            &&& receipt is Absent ==> state.answer == Some("absent:descriptors_absent"@)
            &&& receipt is Invalid ==> state.answer == Some(
                "invalid:"@ + receipt->Invalid_0.text(),
            )
            &&& receipt is Invalid && receipt->Invalid_0 == ReceiptFault::ReceivedNotWritten
                ==> state.next_attempt_unix == Some((s.now + 86400) as i64)
            &&& !(receipt is Invalid && receipt->Invalid_0 == ReceiptFault::ReceivedNotWritten)
                ==> if before.answer == state.answer && before.answer_count >= 2 {
                state.next_attempt_unix == Some((s.now + 86400) as i64)
            } else {
                state.next_attempt_unix == Some((s.now + 3600) as i64)
            }
            &&& told.due.len() == s.due.len()
            &&& forall|k: int|
                0 <= k < s.due.len() && k != i ==> #[trigger] told.due[k] == s.due[k]
            &&& told.due[i as int].candidate == s.due[i as int].candidate
            &&& told.due[i as int].files == s.due[i as int].files
        }),
{
}

/// A segment that the journal refuses to take is put off under that answer, and the
/// refusal is told of; the journal still counts as reached, and the sweep goes on.
pub proof fn lemma_refused_segment_is_put_off(
    s: SweepView,
    i: usize,
    diagnostic: DiagnosticCode,
    answer: Seq<char>,
)
    requires
        sweep_ok(s),
        s.step == SweepStep::Uploading(i),
    ensures
        ({
            let told = sweep_next(
                s,
                SweepEventView::Uploaded(
                    Err(OperationErrorView::RetainCandidate { diagnostic, answer }),
                ),
            );
            let before = s.due[i as int].state;
            let state = told.due[i as int].state;
            &&& told.step == SweepStep::SavingState(i)
            &&& told.summary.diagnostic == Some(diagnostic)
            &&& told.summary.failure == s.summary.failure
            &&& told.summary.contacted
            &&& told.core.backoff.delay is None
            &&& told.summary.custodied == s.summary.custodied
            &&& state.answer == Some(answer)
            &&& if before.answer == Some(answer) && before.answer_count >= 2 {
                state.next_attempt_unix == Some((s.now + 86400) as i64)
            } else {
                state.next_attempt_unix == Some((s.now + 3600) as i64)
            }
            &&& told.due.len() == s.due.len()
            &&& forall|k: int|
                0 <= k < s.due.len() && k != i ==> #[trigger] told.due[k] == s.due[k]
        }),
{
}

/// Any other error ends the sweep at once, with its class and its diagnostic, and the
/// next sweep waits; one after an error in a row waits no shorter.
pub proof fn lemma_error_ends_the_sweep(s: SweepView, failure: SyncFailureClass, code: DiagnosticCode, told: bool)
    requires
        s.step is Uploading || s.step is Asking,
    ensures
        ({
            let error = if told {
                OperationErrorView::EndSweepDiagnostic(failure, code)
            } else {
                OperationErrorView::EndSweep(failure)
            };
            let event = if s.step is Asking {
                SweepEventView::StatusAnswered(Err(error))
            } else {
                SweepEventView::Uploaded(Err(error))
            };
            let after = sweep_next(s, event);
            &&& after.step == SweepStep::Done
            &&& after.summary.failure == Some(failure)
            &&& told ==> after.summary.diagnostic == Some(code)
            &&& !told ==> after.summary.diagnostic == s.summary.diagnostic
            &&& after.summary.contacted == s.summary.contacted
            &&& after.summary.cancelled == s.summary.cancelled
            &&& after.summary.custodied == s.summary.custodied
            &&& after.core.backoff.delay is Some
            &&& after.core.backoff.delay->0 >= 5
            &&& after.core.backoff.next_delay >= s.core.backoff.next_delay
                || s.core.backoff.next_delay > 3
            &&& after.core.floors == s.core.floors
            &&& after.core.facts == s.core.facts
            &&& after.due == s.due
        }),
{
}

/// Where nothing was due, an answer on the journal's status ends the sweep as one that
/// reached it.
pub proof fn lemma_status_answer_ends_the_sweep(s: SweepView)
    requires
        s.step is Asking,
    ensures
        ({
            let after = sweep_next(s, SweepEventView::StatusAnswered(Ok(())));
            &&& after.step == SweepStep::Done
            &&& after.summary.contacted
            &&& after.summary.failure == s.summary.failure
            &&& after.core.backoff.delay is None
            &&& after.core.backoff.next_delay == 0
            &&& after.core.facts == s.core.facts
        }),
{
}

/// A retry state that could not be written is remembered: the segment is put off until
/// the time that was to be written. One that was written leaves what is remembered.
pub proof fn lemma_unsaved_state_is_remembered(s: SweepView, i: usize)
    requires
        sweep_ok(s),
        s.step == SweepStep::SavingState(i),
    ensures
        ({
            let lost = sweep_next(s, SweepEventView::StateSaved(false));
            let kept = sweep_next(s, SweepEventView::StateSaved(true));
            let candidate = s.due[i as int].candidate;
            &&& lost.core.floors.contains_key(candidate)
            &&& s.due[i as int].state.next_attempt_unix is Some ==> lost.core.floors[candidate]
                == s.due[i as int].state.next_attempt_unix->0
            &&& s.due[i as int].state.next_attempt_unix is None ==> lost.core.floors[candidate]
                == s.now + 3600
            &&& forall|c: CandidateView|
                c != candidate ==> (#[trigger] lost.core.floors.contains_key(c)
                    <==> s.core.floors.contains_key(c))
            &&& kept.core == s.core
            &&& kept.summary == s.summary
            &&& lost.summary == s.summary
        }),
{
}

/// A segment whose acknowledgement could not be written stays as it is, and the third
/// such failure in a row is told of; one that was written ends the row.
pub proof fn lemma_unsaved_ack_keeps_the_segment(s: SweepView, i: usize)
    requires
        sweep_ok(s),
        s.step == SweepStep::SavingAck(i),
    ensures
        ({
            let lost = sweep_next(s, SweepEventView::AckSaved(false));
            let kept = sweep_next(s, SweepEventView::AckSaved(true));
            &&& !(lost.step is ClearingState || lost.step is Deleting)
            &&& lost.pending_ack is None
            &&& lost.core == s.core
            &&& lost.due == s.due
            &&& lost.summary.custodied == s.summary.custodied
            &&& lost.ack_write_errors == s.ack_write_errors + 1
            &&& s.ack_write_errors >= 2 ==> lost.summary.diagnostic == Some(
                DiagnosticCode::PrivateStateIo,
            )
            &&& s.ack_write_errors < 2 ==> lost.summary.diagnostic == s.summary.diagnostic
            &&& lost.summary.failure == s.summary.failure
            &&& kept.ack_write_errors == 0
            &&& kept.summary == s.summary
        }),
{
}

/// A shutdown never comes between the steps of a segment that was answered: what was
/// begun with it is finished first.
pub proof fn lemma_shutdown_waits_for_writes(s: SweepView)
    requires
        s.step is SavingState || s.step is SavingAck || s.step is ClearingState || s.step
            is Deleting,
    ensures
        sweep_next(s, SweepEventView::Shutdown) == s,
{
}

/// A shutdown keeps what the sweep has come to: only that it was cancelled is added.
pub proof fn lemma_shutdown_keeps_the_sum(s: SweepView)
    ensures
        ({
            let after = sweep_next(s, SweepEventView::Shutdown);
            &&& after.summary.attempted == s.summary.attempted
            &&& after.summary.contacted == s.summary.contacted
            &&& after.summary.custodied == s.summary.custodied
            &&& after.summary.failure == s.summary.failure
            &&& after.summary.diagnostic == s.summary.diagnostic
            &&& after.core.facts.pending_segments == s.core.facts.pending_segments
            &&& after.core.facts.paired == s.core.facts.paired
            &&& after.core.backoff == s.core.backoff
            &&& after.core.floors == s.core.floors
        }),
{
}

/// A sweep begins with the first segment, or with the question for the journal's status
/// where there is none. Segments that could not be listed end it before it begins, with
/// none pending and a wait before the next.
pub proof fn lemma_how_a_sweep_begins(core: CoreView, now: i64, candidates: Seq<CandidateView>)
    ensures
        ({
            let s = sweep_start(core, now, Some(candidates));
            &&& candidates.len() > 0 ==> s.step == SweepStep::Inspecting(0) && s.core == core
            &&& candidates.len() == 0 ==> s.step == SweepStep::Asking
                && s.core.facts.pending_segments == 0 && s.core.facts.sync_in_progress
                == core.facts.sync_in_progress
            &&& s.candidates == candidates
            &&& s.now == now
            &&& s.due.len() == 0
            &&& s.unacknowledged == 0
            &&& s.ack_write_errors == 0
            &&& s.summary.attempted == 0 && s.summary.custodied == 0
            &&& !s.summary.contacted && !s.summary.cancelled
            &&& s.summary.failure is None && s.summary.diagnostic is None
        }),
        ({
            let s = sweep_start(core, now, None);
            &&& s.step == SweepStep::Done
            &&& s.core.facts.pending_segments == 0
            &&& s.core.facts.paired == core.facts.paired
            &&& s.core.floors == core.floors
            &&& s.core.backoff.delay is Some
            &&& s.summary.failure == Some(SyncFailureClass::Contract)
            &&& s.summary.diagnostic == Some(DiagnosticCode::LocalSegmentInvalid)
            &&& !s.summary.contacted && !s.summary.cancelled
        }),
{
}

/// The counters tell the batches and the turns of other work apart: uploads begin a
/// batch, and so does each return from such a turn. Nothing else moves them.
pub proof fn lemma_batches_are_counted(step: SweepStep, event: SweepEventView, counters: SyncInstrumentation)
    requires
        counters.batches < usize::MAX,
        counters.batch_yields < usize::MAX,
    ensures
        ({
            let after = counted(step, event, counters);
            let begins = event is Proceed && (step is Publishing || step is Yielding);
            let turns = step is Yielding && (event is Proceed || event is Shutdown);
            &&& after.batches == counters.batches + (if begins {
                1int
            } else {
                0
            })
            &&& after.batch_yields == counters.batch_yields + (if turns {
                1int
            } else {
                0
            })
            &&& after.candidate_scans == counters.candidate_scans
        }),
{
}

} // verus!
