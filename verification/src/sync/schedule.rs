//! When sweeps run, and what happens to segments between them.

use vstd::prelude::*;
use vstd::string::*;

use crate::health::{DiagnosticCode, SyncFacts};
use crate::journal::{copy_local_files, local_views, LocalFile, LocalView};
use crate::sync::backoff::Backoff;
use crate::sync::candidates::{lookup, CandidateMap};
use crate::sync::failure::{diagnostic_for_failure, failure_diagnostic, SyncFailureClass};
use crate::sync::ledger::{AckVerdict, StateRecord, StateView};
use crate::sync::removal::{identity_views, same_identities, FileIdentity, FileIdentityView};
use crate::sync::segments::{ResolvedSegmentFiles, SegmentCandidate};
use crate::sync::sweep::{Inspection, InspectionView, SyncSweepSummary};
use crate::text::{same_texts, texts};

verus! {

/// Seconds between sweeps that nothing else asks for.
pub const PERIODIC_SYNC_INTERVAL: u64 = 60;

/// Seconds between health reports while nothing can be synchronised.
pub const HEALTH_REFRESH_INTERVAL: u64 = 60;

#[derive(Clone, Copy, Debug, PartialEq, Eq, Structural)]
pub enum SyncActivity {
    Idle,
    Working,
}

// ---------------------------------------------------------------------------
// Inventories
// ---------------------------------------------------------------------------

/// The files of a segment as they were when they were hashed.
#[derive(Debug)]
pub struct CachedInventory {
    pub names: Vec<String>,
    pub identities: Vec<FileIdentity>,
    pub inventory: Vec<LocalFile>,
}

/// The inventory is of these very files.
pub open spec fn is_current(
    cached: CachedInventory,
    names: Seq<Seq<char>>,
    identities: Seq<FileIdentityView>,
) -> bool {
    texts(cached.names@) == names && identity_views(cached.identities@) == identities
}

fn copy_identities(identities: &Vec<FileIdentity>) -> (r: Vec<FileIdentity>)
    ensures
        r@ == identities@,
{
    let mut out: Vec<FileIdentity> = Vec::new();
    let mut i: usize = 0;
    while i < identities.len()
        invariant
            i <= identities@.len(),
            out@ =~= identities@.take(i as int),
        decreases identities@.len() - i,
    {
        out.push(identities[i].clone());
        i = i + 1;
    }
    proof {
        assert(identities@.take(identities@.len() as int) =~= identities@);
    }
    out
}

/// The inventory of a segment, where its files are still those that were hashed;
/// else they are to be hashed again.
pub fn cached_inventory(
    inventories: &CandidateMap<CachedInventory>,
    candidate: &SegmentCandidate,
    names: &Vec<String>,
    identities: &Vec<FileIdentity>,
) -> (r: Option<Vec<LocalFile>>)
    ensures
        match lookup(inventories@, candidate@) {
            Some(cached) => if is_current(cached, texts(names@), identity_views(identities@)) {
                r is Some && r->0@ == cached.inventory@
            } else {
                r is None
            },
            None => r is None,
        },
{
    match inventories.get(candidate) {
        Some(cached) => {
            if same_texts(&cached.names, names) && same_identities(&cached.identities, identities) {
                Some(copy_local_files(&cached.inventory))
            } else {
                None
            }
        },
        None => None,
    }
}

/// The files that a removal of the segment expects: those that were hashed.
pub fn expected_identities(
    inventories: &CandidateMap<CachedInventory>,
    candidate: &SegmentCandidate,
) -> (r: Vec<FileIdentity>)
    ensures
        r@ == match lookup(inventories@, candidate@) {
            Some(cached) => cached.identities@,
            None => Seq::empty(),
        },
{
    match inventories.get(candidate) {
        Some(cached) => copy_identities(&cached.identities),
        None => Vec::new(),
    }
}

// ---------------------------------------------------------------------------
// Looking at a segment
// ---------------------------------------------------------------------------

/// What is done with a segment before a sweep.
#[derive(Clone, Copy, Debug, PartialEq, Eq, Structural)]
pub enum FinishChoice {
    /// It holds nothing and is removed.
    RemoveEmpty,
    /// The journal holds it and it is removed.
    RemoveConfirmed,
    Leave,
}

/// What is done with a segment before a sweep.
pub open spec fn finish_of(resolved: ResolvedSegmentFiles, ack: Option<AckVerdict>) -> FinishChoice {
    match resolved {
        ResolvedSegmentFiles::Empty => FinishChoice::RemoveEmpty,
        ResolvedSegmentFiles::Found(_) => if ack == Some(AckVerdict::Accepted) {
            FinishChoice::RemoveConfirmed
        } else {
            FinishChoice::Leave
        },
        _ => FinishChoice::Leave,
    }
}

/// Before a sweep a segment is removed only where nothing is lost: it holds no file, or
/// an accepted acknowledgement proves that the journal holds them. Such a one is removed.
pub proof fn lemma_finishing_loses_nothing(resolved: ResolvedSegmentFiles, ack: Option<AckVerdict>)
    ensures
        finish_of(resolved, ack) == FinishChoice::RemoveConfirmed <==> resolved is Found && ack
            == Some(AckVerdict::Accepted),
        finish_of(resolved, ack) == FinishChoice::RemoveEmpty <==> resolved is Empty,
{
}

/// What is done with a segment before a sweep. `ack` is nothing where there is no
/// acknowledgement, or the files could not be read.
pub fn finish_choice(resolved: &ResolvedSegmentFiles, ack: Option<AckVerdict>) -> (r: FinishChoice)
    ensures
        r == finish_of(*resolved, ack),
{
    match resolved {
        ResolvedSegmentFiles::Empty => FinishChoice::RemoveEmpty,
        ResolvedSegmentFiles::Found(_) => match ack {
            Some(AckVerdict::Accepted) => FinishChoice::RemoveConfirmed,
            _ => FinishChoice::Leave,
        },
        _ => FinishChoice::Leave,
    }
}

/// What a look at a segment comes to.
pub open spec fn inspection_of(
    resolved: ResolvedSegmentFiles,
    files: Option<Seq<LocalView>>,
    ack: Option<AckVerdict>,
    state: StateView,
) -> InspectionView {
    match resolved {
        ResolvedSegmentFiles::Empty => InspectionView::Missing,
        ResolvedSegmentFiles::Missing => InspectionView::Missing,
        ResolvedSegmentFiles::Invalid => InspectionView::Invalid,
        ResolvedSegmentFiles::Found(_) => match files {
            None => InspectionView::Invalid,
            Some(files) => if ack == Some(AckVerdict::Accepted) {
                InspectionView::Acknowledged
            } else {
                InspectionView::Unacknowledged { files, state }
            },
        },
    }
}

/// A segment whose files can be read is offered to the journal, with those files and
/// what the ledger knows of it, exactly while no acknowledgement of it is accepted. One
/// that cannot be read is never taken for one that is acknowledged or gone.
pub proof fn lemma_readable_segment_is_offered(
    resolved: ResolvedSegmentFiles,
    files: Option<Seq<LocalView>>,
    ack: Option<AckVerdict>,
    state: StateView,
)
    ensures
        resolved is Found && files is Some && ack != Some(AckVerdict::Accepted) ==> inspection_of(
            resolved,
            files,
            ack,
            state,
        ) == (InspectionView::Unacknowledged { files: files->0, state }),
        inspection_of(resolved, files, ack, state) is Acknowledged <==> resolved is Found && files
            is Some && ack == Some(AckVerdict::Accepted),
        inspection_of(resolved, files, ack, state) is Invalid <==> resolved is Invalid || (resolved
            is Found && files is None),
        inspection_of(resolved, files, ack, state) is Missing <==> resolved is Empty || resolved
            is Missing,
{
}

/// What a look at a segment comes to. `files` is nothing where they could not be
/// read, `ack` where there is no acknowledgement.
pub fn inspect_segment(
    resolved: &ResolvedSegmentFiles,
    files: Option<Vec<LocalFile>>,
    ack: Option<AckVerdict>,
    state: StateRecord,
) -> (r: Inspection)
    ensures
        r@ == inspection_of(
            *resolved,
            match files {
                Some(files) => Some(local_views(files@)),
                None => None,
            },
            ack,
            state@,
        ),
{
    match resolved {
        ResolvedSegmentFiles::Empty => Inspection::Missing,
        ResolvedSegmentFiles::Missing => Inspection::Missing,
        ResolvedSegmentFiles::Invalid => Inspection::Invalid,
        ResolvedSegmentFiles::Found(_) => match files {
            None => Inspection::Invalid,
            Some(files) => match ack {
                Some(AckVerdict::Accepted) => Inspection::Acknowledged,
                _ => Inspection::Unacknowledged { files, state },
            },
        },
    }
}

// ---------------------------------------------------------------------------
// Reporting
// ---------------------------------------------------------------------------

/// How far the last sweep got.
#[derive(Clone, Copy, Debug, PartialEq, Eq, Structural)]
pub enum Reach {
    Nowhere,
    Contacted,
    Synced,
}

/// What a sweep that ended says to the health report.
#[derive(Clone, Copy, Debug, PartialEq, Eq, Structural)]
pub struct SweepReport {
    pub reach: Reach,
    pub failure: Option<DiagnosticCode>,
}

/// What a sweep says to the health report: a diagnostic of its own comes before that
/// of its failure.
pub open spec fn sweep_report(summary: SyncSweepSummary) -> SweepReport {
    SweepReport {
        reach: if summary.custodied > 0 {
            Reach::Synced
        } else if summary.contacted {
            Reach::Contacted
        } else {
            Reach::Nowhere
        },
        failure: match summary.diagnostic {
            Some(code) => Some(code),
            None => match summary.failure {
                Some(failure) => Some(failure_diagnostic(failure)),
                None => None,
            },
        },
    }
}

/// The facts once a sweep is over.
pub open spec fn facts_after(facts: SyncFacts) -> SyncFacts {
    SyncFacts { sync_in_progress: false, ..facts }
}

/// A sweep has ended: what it says to the health report.
pub fn update_facts(facts: &mut SyncFacts, summary: &SyncSweepSummary) -> (r: SweepReport)
    ensures
        r == sweep_report(*summary),
        *final(facts) == facts_after(*old(facts)),
{
    facts.sync_in_progress = false;
    let reach = if summary.custodied > 0 {
        Reach::Synced
    } else if summary.contacted {
        Reach::Contacted
    } else {
        Reach::Nowhere
    };
    let failure = match summary.diagnostic {
        Some(code) => Some(code),
        None => match summary.failure {
            Some(failure) => Some(diagnostic_for_failure(failure)),
            None => None,
        },
    };
    SweepReport { reach, failure }
}

// ---------------------------------------------------------------------------
// The loop
// ---------------------------------------------------------------------------

/// What the synchronisation does next.
#[derive(Clone, Copy, Debug, PartialEq, Eq, Structural)]
pub enum ScheduleStep {
    /// Finish what is acknowledged, while a pause is on.
    Finishing,
    /// Wait for the end of the pause, a closed segment, the period or a shutdown.
    Pausing,
    /// Run a sweep.
    Sweeping,
    /// Wait for a closed segment, the period or a shutdown.
    Resting,
    Stopped,
}

/// What came of it.
#[derive(Clone, Copy, Debug, PartialEq, Eq, Structural)]
pub enum ScheduleEvent {
    /// What is acknowledged is finished; whether the pause is over by now.
    Finished { pause_over: bool },
    Shutdown,
    /// A segment was closed.
    Wake,
    /// The period has passed.
    Tick,
    /// The pause is over.
    PauseOver,
    /// A sweep has ended; whether a segment was closed meanwhile.
    Swept { cancelled: bool, failed: bool, woken: bool },
}

/// What a synchronisation that is asked for does first.
pub open spec fn requested_step(delay: Option<u64>) -> ScheduleStep {
    if delay is Some {
        ScheduleStep::Finishing
    } else {
        ScheduleStep::Sweeping
    }
}

/// Whether the event ends the pause.
pub open spec fn ends_pause(step: ScheduleStep, event: ScheduleEvent) -> bool {
    ||| step == ScheduleStep::Finishing && event == (ScheduleEvent::Finished { pause_over: true })
    ||| step == ScheduleStep::Pausing && event == ScheduleEvent::PauseOver
}

/// What is done after an event, with the delay that is left then. An event that was
/// not waited for changes nothing.
pub open spec fn schedule_next(
    step: ScheduleStep,
    delay: Option<u64>,
    event: ScheduleEvent,
) -> ScheduleStep {
    match (step, event) {
        (ScheduleStep::Finishing, ScheduleEvent::Finished { pause_over }) => if pause_over {
            ScheduleStep::Sweeping
        } else {
            ScheduleStep::Pausing
        },
        (ScheduleStep::Pausing, ScheduleEvent::Shutdown) => ScheduleStep::Stopped,
        (ScheduleStep::Pausing, ScheduleEvent::Wake) => requested_step(delay),
        (ScheduleStep::Pausing, ScheduleEvent::Tick) => requested_step(delay),
        (ScheduleStep::Pausing, ScheduleEvent::PauseOver) => ScheduleStep::Sweeping,
        (ScheduleStep::Sweeping, ScheduleEvent::Swept { cancelled, failed, woken }) => if cancelled {
            ScheduleStep::Stopped
        } else if failed || woken {
            requested_step(delay)
        } else {
            ScheduleStep::Resting
        },
        (ScheduleStep::Resting, ScheduleEvent::Shutdown) => ScheduleStep::Stopped,
        (ScheduleStep::Resting, ScheduleEvent::Wake) => requested_step(delay),
        (ScheduleStep::Resting, ScheduleEvent::Tick) => requested_step(delay),
        _ => step,
    }
}

/// Whether the health report is written after the event.
pub open spec fn publishes(step: ScheduleStep, event: ScheduleEvent) -> bool {
    match (step, event) {
        (ScheduleStep::Pausing, ScheduleEvent::Tick) => true,
        (ScheduleStep::Sweeping, ScheduleEvent::Swept { cancelled, .. }) => !cancelled,
        _ => false,
    }
}

/// The first thing that is done: a sweep, unless a pause is on.
pub fn first_step(backoff: &Backoff) -> (r: ScheduleStep)
    ensures
        r == requested_step(backoff.delay),
{
    match backoff.delay {
        Some(_) => ScheduleStep::Finishing,
        None => ScheduleStep::Sweeping,
    }
}

/// Takes an event in. The result is what is done next and whether the health report
/// is written first.
pub fn advance_schedule(step: ScheduleStep, backoff: &mut Backoff, event: ScheduleEvent) -> (r: (
    ScheduleStep,
    bool,
))
    ensures
        r.0 == schedule_next(step, old(backoff).delay, event),
        r.1 == publishes(step, event),
        *final(backoff) == if ends_pause(step, event) {
            Backoff { delay: None, ..*old(backoff) }
        } else {
            *old(backoff)
        },
{
    match (step, event) {
        (ScheduleStep::Finishing, ScheduleEvent::Finished { pause_over }) => {
            if pause_over {
                backoff.deadline_reached();
                (ScheduleStep::Sweeping, false)
            } else {
                (ScheduleStep::Pausing, false)
            }
        },
        (ScheduleStep::Pausing, ScheduleEvent::Shutdown) => (ScheduleStep::Stopped, false),
        (ScheduleStep::Pausing, ScheduleEvent::Wake) => (first_step(backoff), false),
        (ScheduleStep::Pausing, ScheduleEvent::Tick) => (first_step(backoff), true),
        (ScheduleStep::Pausing, ScheduleEvent::PauseOver) => {
            backoff.deadline_reached();
            (ScheduleStep::Sweeping, false)
        },
        (ScheduleStep::Sweeping, ScheduleEvent::Swept { cancelled, failed, woken }) => {
            if cancelled {
                (ScheduleStep::Stopped, false)
            } else if failed || woken {
                (first_step(backoff), true)
            } else {
                (ScheduleStep::Resting, true)
            }
        },
        (ScheduleStep::Resting, ScheduleEvent::Shutdown) => (ScheduleStep::Stopped, false),
        (ScheduleStep::Resting, ScheduleEvent::Wake) => (first_step(backoff), false),
        (ScheduleStep::Resting, ScheduleEvent::Tick) => (first_step(backoff), false),
        _ => (step, false),
    }
}

/// While a pause is on no sweep begins: neither a closed segment nor the period cuts
/// it short.
pub proof fn lemma_no_sweep_during_pause(
    step: ScheduleStep,
    delay: Option<u64>,
    event: ScheduleEvent,
)
    requires
        delay is Some,
        step != ScheduleStep::Sweeping,
        schedule_next(step, delay, event) == ScheduleStep::Sweeping,
    ensures
        ends_pause(step, event),
{
}

/// A sweep that failed is followed by another one: what failed is never dropped.
pub proof fn lemma_failed_sweep_is_repeated(delay: Option<u64>, woken: bool)
    ensures
        ({
            let after = schedule_next(
                ScheduleStep::Sweeping,
                delay,
                ScheduleEvent::Swept { cancelled: false, failed: true, woken },
            );
            after == ScheduleStep::Finishing || after == ScheduleStep::Sweeping
        }),
        schedule_next(
            ScheduleStep::Sweeping,
            delay,
            ScheduleEvent::Swept { cancelled: true, failed: true, woken },
        ) == ScheduleStep::Stopped,
{
}

/// Once stopped, nothing starts again.
pub proof fn lemma_stopped_stays(delay: Option<u64>, event: ScheduleEvent)
    ensures
        schedule_next(ScheduleStep::Stopped, delay, event) == ScheduleStep::Stopped,
{
}

/// A closed segment that nobody has taken notice of yet. It cannot be copied, so that
/// what one side notes the other finds.
#[derive(Debug, PartialEq, Eq, Structural)]
pub struct SyncWake {
    pub pending: bool,
}

impl Default for SyncWake {
    fn default() -> (r: Self)
        ensures
            r == (SyncWake { pending: false }),
    {
        SyncWake { pending: false }
    }
}

/// The wake after a segment was closed.
pub open spec fn wake_after(wake: SyncWake, finalized: bool) -> SyncWake {
    SyncWake { pending: wake.pending || finalized }
}

/// The wake after it was asked for.
pub open spec fn wake_taken(wake: SyncWake) -> SyncWake {
    SyncWake { pending: false }
}

impl SyncWake {
    /// A segment was closed; only one that was finalized wakes the synchronisation.
    pub fn segment_closed(&mut self, finalized: bool)
        ensures
            *final(self) == wake_after(*old(self), finalized),
    {
        if finalized {
            self.pending = true;
        }
    }

    /// Whether a segment was closed since the last time this was asked.
    pub fn take_pending(&mut self) -> (r: bool)
        ensures
            r == old(self).pending,
            *final(self) == wake_taken(*old(self)),
    {
        let pending = self.pending;
        self.pending = false;
        pending
    }
}

/// No rest outlasts the period: while the loop rests, a closed segment and a tick of the
/// period each ask for the next sweep. It begins at once, or after the pause that is on.
pub proof fn lemma_rest_ends_with_a_request(delay: Option<u64>, event: ScheduleEvent)
    requires
        event == ScheduleEvent::Wake || event == ScheduleEvent::Tick,
    ensures
        delay is None ==> schedule_next(ScheduleStep::Resting, delay, event)
            == ScheduleStep::Sweeping,
        delay is Some ==> schedule_next(ScheduleStep::Resting, delay, event)
            == ScheduleStep::Finishing,
{
}

/// A pause ends with a sweep, and only by its own end: what is acknowledged is finished
/// again for every request that comes meanwhile, and the pause goes on.
pub proof fn lemma_pause_ends_with_a_sweep(delay: Option<u64>)
    requires
        delay is Some,
    ensures
        schedule_next(ScheduleStep::Pausing, delay, ScheduleEvent::PauseOver)
            == ScheduleStep::Sweeping,
        schedule_next(
            ScheduleStep::Finishing,
            delay,
            ScheduleEvent::Finished { pause_over: true },
        ) == ScheduleStep::Sweeping,
        schedule_next(
            ScheduleStep::Finishing,
            delay,
            ScheduleEvent::Finished { pause_over: false },
        ) == ScheduleStep::Pausing,
        schedule_next(ScheduleStep::Pausing, delay, ScheduleEvent::Wake)
            == ScheduleStep::Finishing,
        schedule_next(ScheduleStep::Pausing, delay, ScheduleEvent::Tick)
            == ScheduleStep::Finishing,
        ends_pause(ScheduleStep::Pausing, ScheduleEvent::PauseOver),
        ends_pause(ScheduleStep::Finishing, ScheduleEvent::Finished { pause_over: true }),
        !ends_pause(ScheduleStep::Finishing, ScheduleEvent::Finished { pause_over: false }),
        forall|step: ScheduleStep, event: ScheduleEvent|
            #[trigger] ends_pause(step, event) ==> schedule_next(step, delay, event)
                == ScheduleStep::Sweeping,
{
}

/// After a sweep that worked the loop rests, unless a segment was closed meanwhile: then
/// it sweeps again. After one that failed it sweeps again too, behind the pause that the
/// failure brought.
pub proof fn lemma_what_follows_a_sweep(delay: Option<u64>, failed: bool, woken: bool)
    ensures
        ({
            let after = schedule_next(
                ScheduleStep::Sweeping,
                delay,
                ScheduleEvent::Swept { cancelled: false, failed, woken },
            );
            &&& after == ScheduleStep::Resting <==> !failed && !woken
            &&& after == ScheduleStep::Sweeping <==> (failed || woken) && delay is None
            &&& after == ScheduleStep::Finishing <==> (failed || woken) && delay is Some
        }),
{
}

/// A shutdown ends every wait.
pub proof fn lemma_shutdown_ends_every_wait(delay: Option<u64>)
    ensures
        schedule_next(ScheduleStep::Resting, delay, ScheduleEvent::Shutdown)
            == ScheduleStep::Stopped,
        schedule_next(ScheduleStep::Pausing, delay, ScheduleEvent::Shutdown)
            == ScheduleStep::Stopped,
        forall|failed: bool, woken: bool|
            #[trigger] schedule_next(
                ScheduleStep::Sweeping,
                delay,
                ScheduleEvent::Swept { cancelled: true, failed, woken },
            ) == ScheduleStep::Stopped,
{
}

/// Health is reported after every sweep that ran to its end, and with every period of a
/// pause; never after a sweep that a shutdown ended.
pub proof fn lemma_health_is_reported(failed: bool, woken: bool)
    ensures
        publishes(
            ScheduleStep::Sweeping,
            ScheduleEvent::Swept { cancelled: false, failed, woken },
        ),
        !publishes(ScheduleStep::Sweeping, ScheduleEvent::Swept { cancelled: true, failed, woken }),
        publishes(ScheduleStep::Pausing, ScheduleEvent::Tick),
        !publishes(ScheduleStep::Resting, ScheduleEvent::Tick),
        !publishes(ScheduleStep::Pausing, ScheduleEvent::Wake),
{
}

/// The report of a sweep says that something was synchronised exactly where a segment
/// came into custody, that the journal was reached where it was and nothing did, and
/// names a failure exactly where there was one: its own diagnostic before its class.
pub proof fn lemma_report_is_honest(summary: SyncSweepSummary)
    ensures
        sweep_report(summary).reach == Reach::Synced <==> summary.custodied > 0,
        sweep_report(summary).reach == Reach::Contacted <==> summary.custodied == 0
            && summary.contacted,
        sweep_report(summary).failure is None <==> summary.diagnostic is None && summary.failure
            is None,
        summary.diagnostic is Some ==> sweep_report(summary).failure == summary.diagnostic,
        summary.diagnostic is None && summary.failure == Some(SyncFailureClass::Auth)
            ==> sweep_report(summary).failure == Some(DiagnosticCode::JournalRevoked),
        summary.diagnostic is None && summary.failure == Some(SyncFailureClass::Timeout)
            ==> sweep_report(summary).failure == Some(DiagnosticCode::JournalTimeout),
        summary.diagnostic is None && summary.failure == Some(SyncFailureClass::Contract)
            ==> sweep_report(summary).failure == Some(DiagnosticCode::JournalContractInvalid),
        summary.diagnostic is None && (summary.failure == Some(SyncFailureClass::Direct)
            || summary.failure == Some(SyncFailureClass::Relay)) ==> sweep_report(summary).failure
            == Some(DiagnosticCode::JournalUnavailable),
{
}

/// A kept inventory is used exactly while the segment's files have the names and the
/// identities that they had when it was made, and a removal expects those very files.
pub proof fn lemma_inventory_is_of_these_files(
    inventories: CandidateMap<CachedInventory>,
    candidate: SegmentCandidate,
    names: Vec<String>,
    identities: Vec<FileIdentity>,
    r: Option<Vec<LocalFile>>,
    expected: Vec<FileIdentity>,
)
    requires
        call_ensures(cached_inventory, (&inventories, &candidate, &names, &identities), r),
        call_ensures(expected_identities, (&inventories, &candidate), expected),
    ensures
        r is Some ==> {
            let cached = inventories@[candidate@];
            &&& inventories@.contains_key(candidate@)
            &&& r->0@ == cached.inventory@
            &&& cached.names@.len() == names@.len()
            &&& forall|i: int| 0 <= i < names@.len() ==> (#[trigger] names@[i])@ == cached.names@[i]@
            &&& expected@ == cached.identities@
            &&& expected@.len() == identities@.len()
            &&& forall|i: int|
                0 <= i < identities@.len() ==> (#[trigger] identities@[i])@ == expected@[i]@
        },
        inventories@.contains_key(candidate@) && texts(inventories@[candidate@].names@) == texts(
            names@,
        ) && identity_views(inventories@[candidate@].identities@) == identity_views(identities@)
            ==> r is Some,
        !inventories@.contains_key(candidate@) ==> expected@.len() == 0,
{
    if r is Some {
        let cached = inventories@[candidate@];
        let a = texts(cached.names@);
        let b = texts(names@);
        let c = identity_views(cached.identities@);
        let d = identity_views(identities@);
        assert(a.len() == cached.names@.len() && b.len() == names@.len());
        assert(c.len() == cached.identities@.len() && d.len() == identities@.len());
        assert forall|i: int| 0 <= i < names@.len() implies (#[trigger] names@[i])@
            == cached.names@[i]@ by {
            assert(a[i] == cached.names@[i]@);
            assert(b[i] == names@[i]@);
        }
        assert forall|i: int| 0 <= i < identities@.len() implies (#[trigger] identities@[i])@
            == expected@[i]@ by {
            assert(c[i] == cached.identities@[i]@);
            assert(d[i] == identities@[i]@);
        }
    }
}

/// The first sweep comes at once, or after the pause that is on.
pub proof fn lemma_first_sweep_comes_at_once(backoff: Backoff, r: ScheduleStep)
    requires
        call_ensures(first_step, (&backoff,), r),
    ensures
        backoff.delay is None ==> r == ScheduleStep::Sweeping,
        backoff.delay is Some ==> r == ScheduleStep::Finishing,
{
}

/// A segment that was finalized is never overlooked: whatever is closed after it, the next
/// question finds it, and the one after that does not. One that was not finalized wakes
/// nothing.
pub proof fn lemma_closed_segment_is_noticed(wake: SyncWake, later: bool)
    ensures
        wake_after(wake, true).pending,
        wake_after(wake_after(wake, true), later).pending,
        !wake_after(wake_taken(wake), false).pending,
        wake_after(wake_taken(wake), true).pending,
        wake_after(wake, false) == wake,
{
}

/// Once a sweep is over nothing is in progress, and what is known besides stays.
pub proof fn lemma_sweep_is_over(facts: SyncFacts)
    ensures
        !facts_after(facts).sync_in_progress,
        facts_after(facts).pending_segments == facts.pending_segments,
        facts_after(facts).paired == facts.paired,
{
}

} // verus!
