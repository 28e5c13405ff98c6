//! The observer's life: polls until a shutdown, an orderly end, and what both come to.

use vstd::prelude::*;
use vstd::string::*;
use vstd::utf8::*;

use crate::health::DiagnosticCode;
use crate::name::{is_component, lemma_component_is_single_entry, DerivedName};
use crate::paths::{entries, join_path, joined_path, lemma_join_adds_one_entry, single_entry, SLASH};
use crate::storage::StorageError;
use crate::text::{concat, copy, opt_text, texts};

verus! {

#[derive(Clone, Copy, Debug, PartialEq, Eq, Structural)]
pub enum ShutdownEvent {
    SigInt,
    SigTerm,
    Injected,
}

/// The intervals in seconds.
#[derive(Clone, Copy, Debug, PartialEq, Eq, Structural)]
pub struct ObserverConfig {
    pub capture_interval: u64,
    pub segment_interval: u64,
}

/// What went wrong in an operation of the observer, in words.
#[derive(Clone, Debug, PartialEq, Eq)]
pub struct ObserverOperationError(pub String);

/// How the observer ended.
#[derive(Clone, Debug, PartialEq, Eq)]
pub struct ObserverExit {
    pub exit_code: i32,
    pub shutdown_event: Option<ShutdownEvent>,
    pub failures: Vec<String>,
}

pub ghost struct ExitView {
    pub exit_code: i32,
    pub shutdown_event: Option<ShutdownEvent>,
    pub failures: Seq<Seq<char>>,
}

impl View for ObserverExit {
    type V = ExitView;

    open spec fn view(&self) -> ExitView {
        ExitView {
            exit_code: self.exit_code,
            shutdown_event: self.shutdown_event,
            failures: texts(self.failures@),
        }
    }
}

/// Why a task came to no result.
#[derive(Debug)]
pub enum JoinFailure {
    /// It panicked, with a message where that was text.
    Panicked(Option<String>),
    Cancelled,
    Other(String),
}

pub open spec fn join_text(failure: JoinFailure) -> Seq<char> {
    match failure {
        JoinFailure::Panicked(Some(message)) => "panic: "@ + message@,
        JoinFailure::Panicked(None) => "panic: non-string panic payload"@,
        JoinFailure::Cancelled => "task was cancelled"@,
        JoinFailure::Other(said) => said@,
    }
}

pub fn join_error_message(failure: &JoinFailure) -> (r: String)
    ensures
        r@ == join_text(*failure),
{
    match failure {
        JoinFailure::Panicked(Some(message)) => concat("panic: ", message.as_str()),
        JoinFailure::Panicked(None) => copy("panic: non-string panic payload"),
        JoinFailure::Cancelled => copy("task was cancelled"),
        JoinFailure::Other(said) => said.clone(),
    }
}

// ---------------------------------------------------------------------------
// The observer
// ---------------------------------------------------------------------------

/// What the observer does next.
#[derive(Clone, Copy, Debug, PartialEq, Eq, Structural)]
pub enum ObserverStep {
    /// Wait for the next poll or a shutdown.
    Waiting,
    /// Capture, unless a shutdown comes first.
    Capturing,
    /// Store what was captured.
    Storing,
    /// Ask for the end, wait until it is granted, and close the segment.
    Closing,
    Done,
}

/// What came of it.
#[derive(Debug)]
pub enum ObserverEvent {
    Shutdown(ShutdownEvent),
    Tick,
    Captured,
    CaptureFailed(ObserverOperationError),
    CaptureCrashed(JoinFailure),
    CaptureLost,
    Stored,
    StoreFailed(ObserverOperationError),
    StoreCrashed(JoinFailure),
    Closed,
    CloseFailed(ObserverOperationError),
    CloseCrashed(JoinFailure),
}

/// An observer that runs.
#[derive(Debug)]
pub struct ObserverRun {
    pub step: ObserverStep,
    pub shutdown_event: Option<ShutdownEvent>,
    pub failures: Vec<String>,
}

pub ghost struct RunState {
    pub step: ObserverStep,
    pub shutdown_event: Option<ShutdownEvent>,
    pub failures: Seq<Seq<char>>,
}

impl View for ObserverRun {
    type V = RunState;

    open spec fn view(&self) -> RunState {
        RunState {
            step: self.step,
            shutdown_event: self.shutdown_event,
            failures: texts(self.failures@),
        }
    }
}

/// A failure is noted, and the observer goes on to that step.
pub open spec fn noted(s: RunState, failure: Seq<char>, step: ObserverStep) -> RunState {
    RunState { step, failures: s.failures.push(failure), ..s }
}

/// The observer after an event. One that was not waited for changes nothing. A crash
/// while storing loses the segment, so that there is nothing left to close.
pub open spec fn observer_next(s: RunState, event: ObserverEvent) -> RunState {
    match (s.step, event) {
        (ObserverStep::Waiting, ObserverEvent::Shutdown(shutdown)) => RunState {
            step: ObserverStep::Closing,
            shutdown_event: Some(shutdown),
            ..s
        },
        (ObserverStep::Waiting, ObserverEvent::Tick) => RunState {
            step: ObserverStep::Capturing,
            ..s
        },
        (ObserverStep::Capturing, ObserverEvent::Shutdown(shutdown)) => RunState {
            step: ObserverStep::Closing,
            shutdown_event: Some(shutdown),
            ..s
        },
        (ObserverStep::Capturing, ObserverEvent::Captured) => RunState {
            step: ObserverStep::Storing,
            ..s
        },
        (ObserverStep::Capturing, ObserverEvent::CaptureFailed(error)) => noted(
            s,
            "capture task exited: "@ + error.0@,
            ObserverStep::Closing,
        ),
        (ObserverStep::Capturing, ObserverEvent::CaptureCrashed(failure)) => noted(
            s,
            "capture task failed: "@ + join_text(failure),
            ObserverStep::Closing,
        ),
        (ObserverStep::Capturing, ObserverEvent::CaptureLost) => noted(
            s,
            "capture task exited without a result"@,
            ObserverStep::Closing,
        ),
        (ObserverStep::Storing, ObserverEvent::Stored) => RunState {
            step: ObserverStep::Waiting,
            ..s
        },
        (ObserverStep::Storing, ObserverEvent::StoreFailed(error)) => noted(
            s,
            "segment poll failed: "@ + error.0@,
            ObserverStep::Closing,
        ),
        (ObserverStep::Storing, ObserverEvent::StoreCrashed(failure)) => noted(
            s,
            "blocking segment task failed: "@ + join_text(failure),
            ObserverStep::Done,
        ),
        (ObserverStep::Closing, ObserverEvent::Closed) => RunState {
            step: ObserverStep::Done,
            ..s
        },
        (ObserverStep::Closing, ObserverEvent::CloseFailed(error)) => noted(
            s,
            "segment shutdown failed: "@ + error.0@,
            ObserverStep::Done,
        ),
        (ObserverStep::Closing, ObserverEvent::CloseCrashed(failure)) => noted(
            s,
            "blocking segment shutdown failed: "@ + join_text(failure),
            ObserverStep::Done,
        ),
        _ => s,
    }
}

/// How an observer ends: with an error wherever anything failed.
pub open spec fn exit_of(s: RunState) -> ExitView {
    ExitView {
        exit_code: if s.failures.len() > 0 {
            1
        } else {
            0
        },
        shutdown_event: s.shutdown_event,
        failures: s.failures,
    }
}

impl ObserverRun {
    pub fn new() -> (r: Self)
        ensures
            r@ == (RunState {
                step: ObserverStep::Waiting,
                shutdown_event: None,
                failures: Seq::empty(),
            }),
    {
        let run = ObserverRun {
            step: ObserverStep::Waiting,
            shutdown_event: None,
            failures: Vec::new(),
        };
        proof {
            assert(texts(run.failures@) =~= Seq::<Seq<char>>::empty());
        }
        run
    }

    fn note(&mut self, failure: String, step: ObserverStep)
        ensures
            final(self)@ == noted(old(self)@, failure@, step),
    {
        let ghost before = texts(self.failures@);
        self.failures.push(failure);
        self.step = step;
        proof {
            assert(texts(self.failures@) =~= before.push(failure@));
        }
    }

    /// Takes an event in; `step` then says what to do next.
    pub fn advance(&mut self, event: ObserverEvent)
        ensures
            final(self)@ == observer_next(old(self)@, event),
    {
        match (self.step, event) {
            (ObserverStep::Waiting, ObserverEvent::Shutdown(shutdown)) => {
                self.shutdown_event = Some(shutdown);
                self.step = ObserverStep::Closing;
            },
            (ObserverStep::Waiting, ObserverEvent::Tick) => {
                self.step = ObserverStep::Capturing;
            },
            (ObserverStep::Capturing, ObserverEvent::Shutdown(shutdown)) => {
                self.shutdown_event = Some(shutdown);
                self.step = ObserverStep::Closing;
            },
            (ObserverStep::Capturing, ObserverEvent::Captured) => {
                self.step = ObserverStep::Storing;
            },
            (ObserverStep::Capturing, ObserverEvent::CaptureFailed(error)) => {
                self.note(concat("capture task exited: ", error.0.as_str()), ObserverStep::Closing);
            },
            (ObserverStep::Capturing, ObserverEvent::CaptureCrashed(failure)) => {
                let said = join_error_message(&failure);
                self.note(concat("capture task failed: ", said.as_str()), ObserverStep::Closing);
            },
            (ObserverStep::Capturing, ObserverEvent::CaptureLost) => {
                self.note(copy("capture task exited without a result"), ObserverStep::Closing);
            },
            (ObserverStep::Storing, ObserverEvent::Stored) => {
                self.step = ObserverStep::Waiting;
            },
            (ObserverStep::Storing, ObserverEvent::StoreFailed(error)) => {
                self.note(concat("segment poll failed: ", error.0.as_str()), ObserverStep::Closing);
            },
            (ObserverStep::Storing, ObserverEvent::StoreCrashed(failure)) => {
                let said = join_error_message(&failure);
                self.note(
                    concat("blocking segment task failed: ", said.as_str()),
                    ObserverStep::Done,
                );
            },
            (ObserverStep::Closing, ObserverEvent::Closed) => {
                self.step = ObserverStep::Done;
            },
            (ObserverStep::Closing, ObserverEvent::CloseFailed(error)) => {
                self.note(
                    concat("segment shutdown failed: ", error.0.as_str()),
                    ObserverStep::Done,
                );
            },
            (ObserverStep::Closing, ObserverEvent::CloseCrashed(failure)) => {
                let said = join_error_message(&failure);
                self.note(
                    concat("blocking segment shutdown failed: ", said.as_str()),
                    ObserverStep::Done,
                );
            },
            _ => {},
        }
    }

    /// How the observer ended.
    pub fn exit(self) -> (r: ObserverExit)
        ensures
            r@ == exit_of(self@),
    {
        proof {
            assert(texts(self.failures@).len() == self.failures@.len());
        }
        let exit_code: i32 = if self.failures.len() > 0 {
            1
        } else {
            0
        };
        ObserverExit { exit_code, shutdown_event: self.shutdown_event, failures: self.failures }
    }
}

/// The segment is closed on every way out but one: a crash while storing, which has
/// lost it.
pub proof fn lemma_segment_is_closed(s: RunState, event: ObserverEvent)
    requires
        s.step != ObserverStep::Done,
        observer_next(s, event).step == ObserverStep::Done,
    ensures
        s.step == ObserverStep::Closing || (s.step == ObserverStep::Storing
            && event is StoreCrashed),
{
}

/// Failures are never forgotten, so that an observer in which anything failed ends
/// with an error, and only such a one.
pub proof fn lemma_failures_are_kept(s: RunState, event: ObserverEvent)
    ensures
        s.failures.is_prefix_of(observer_next(s, event).failures),
        exit_of(s).exit_code == 1 <==> s.failures.len() > 0,
{
}

// ---------------------------------------------------------------------------
// Supervision
// ---------------------------------------------------------------------------

/// What made the supervisor act.
#[derive(Clone, Copy, Debug, PartialEq, Eq, Structural)]
pub enum SupervisionTrigger {
    /// The observer has ended.
    Observer,
    /// The observer asks for its end.
    ObserverShutdown,
    /// The synchronisation has ended, which it should not.
    Sync,
    IndicatorFailed,
}

/// What the supervisor does, step by step.
#[derive(Clone, Copy, Debug, PartialEq, Eq, Structural)]
pub enum SupervisionOrder {
    StopSync,
    StopObserver,
    AwaitSync,
    ReleaseObserver,
    AwaitObserver,
}

/// What the supervisor does. The observer, which closes its segment once it is
/// released, is released only after the synchronisation has ended.
pub open spec fn supervision_orders(trigger: SupervisionTrigger) -> Seq<SupervisionOrder> {
    match trigger {
        SupervisionTrigger::Observer => seq![
            SupervisionOrder::StopSync,
            SupervisionOrder::AwaitSync,
            SupervisionOrder::ReleaseObserver,
        ],
        SupervisionTrigger::ObserverShutdown => seq![
            SupervisionOrder::StopSync,
            SupervisionOrder::AwaitSync,
            SupervisionOrder::ReleaseObserver,
            SupervisionOrder::AwaitObserver,
        ],
        SupervisionTrigger::Sync => seq![
            SupervisionOrder::StopObserver,
            SupervisionOrder::ReleaseObserver,
            SupervisionOrder::AwaitObserver,
        ],
        SupervisionTrigger::IndicatorFailed => seq![
            SupervisionOrder::StopSync,
            SupervisionOrder::StopObserver,
            SupervisionOrder::AwaitSync,
            SupervisionOrder::ReleaseObserver,
            SupervisionOrder::AwaitObserver,
        ],
    }
}

pub fn plan_supervision(trigger: SupervisionTrigger) -> (r: Vec<SupervisionOrder>)
    ensures
        r@ == supervision_orders(trigger),
{
    let mut out: Vec<SupervisionOrder> = Vec::new();
    match trigger {
        SupervisionTrigger::Observer => {
            out.push(SupervisionOrder::StopSync);
            out.push(SupervisionOrder::AwaitSync);
            out.push(SupervisionOrder::ReleaseObserver);
        },
        SupervisionTrigger::ObserverShutdown => {
            out.push(SupervisionOrder::StopSync);
            out.push(SupervisionOrder::AwaitSync);
            out.push(SupervisionOrder::ReleaseObserver);
            out.push(SupervisionOrder::AwaitObserver);
        },
        SupervisionTrigger::Sync => {
            out.push(SupervisionOrder::StopObserver);
            out.push(SupervisionOrder::ReleaseObserver);
            out.push(SupervisionOrder::AwaitObserver);
        },
        SupervisionTrigger::IndicatorFailed => {
            out.push(SupervisionOrder::StopSync);
            out.push(SupervisionOrder::StopObserver);
            out.push(SupervisionOrder::AwaitSync);
            out.push(SupervisionOrder::ReleaseObserver);
            out.push(SupervisionOrder::AwaitObserver);
        },
    }
    proof {
        assert(out@ =~= supervision_orders(trigger));
    }
    out
}

/// While the synchronisation runs the observer is not released: the stop and the wait
/// for its end come first.
pub proof fn lemma_sync_ends_before_release(trigger: SupervisionTrigger, k: int)
    requires
        trigger != SupervisionTrigger::Sync,
        0 <= k < supervision_orders(trigger).len(),
        supervision_orders(trigger)[k] == SupervisionOrder::ReleaseObserver,
    ensures
        exists|i: int, j: int|
            0 <= i < j < k && #[trigger] supervision_orders(trigger)[i]
                == SupervisionOrder::StopSync && #[trigger] supervision_orders(trigger)[j]
                == SupervisionOrder::AwaitSync,
{
    let orders = supervision_orders(trigger);
    match trigger {
        SupervisionTrigger::IndicatorFailed => {
            assert(orders[0] == SupervisionOrder::StopSync && orders[2]
                == SupervisionOrder::AwaitSync);
        },
        _ => {
            assert(orders[0] == SupervisionOrder::StopSync && orders[1]
                == SupervisionOrder::AwaitSync);
        },
    }
}

/// How the synchronisation ended.
#[derive(Clone, Copy, Debug, PartialEq, Eq, Structural)]
pub enum SyncOutcome {
    Finished,
    Failed(DiagnosticCode),
    Panicked,
    Cancelled,
}

/// The code under which an end of the synchronisation is reported. One that was asked
/// for and went well is not.
pub open spec fn sync_code(outcome: SyncOutcome, asked_for: bool) -> Option<DiagnosticCode> {
    match outcome {
        SyncOutcome::Finished => if asked_for {
            None
        } else {
            Some(DiagnosticCode::SyncTaskExited)
        },
        SyncOutcome::Failed(code) => Some(code),
        SyncOutcome::Panicked => Some(DiagnosticCode::SyncTaskPanicked),
        SyncOutcome::Cancelled => Some(DiagnosticCode::SyncTaskCancelled),
    }
}

pub fn sync_diagnostic(outcome: SyncOutcome, asked_for: bool) -> (r: Option<DiagnosticCode>)
    ensures
        r == sync_code(outcome, asked_for),
{
    match outcome {
        SyncOutcome::Finished => if asked_for {
            None
        } else {
            Some(DiagnosticCode::SyncTaskExited)
        },
        SyncOutcome::Failed(code) => Some(code),
        SyncOutcome::Panicked => Some(DiagnosticCode::SyncTaskPanicked),
        SyncOutcome::Cancelled => Some(DiagnosticCode::SyncTaskCancelled),
    }
}

/// What is said of an end of the synchronisation; `message` is that of its code.
pub fn sync_failure(outcome: SyncOutcome, message: &str) -> (r: String)
    ensures
        r@ == match outcome {
            SyncOutcome::Failed(_) => "sync task failed: "@ + message@,
            _ => message@,
        },
{
    match outcome {
        SyncOutcome::Failed(_) => concat("sync task failed: ", message),
        _ => copy(message),
    }
}

/// The observer's exit, or that of one that came to no result.
pub open spec fn observer_result(result: Result<ObserverExit, JoinFailure>) -> ExitView {
    match result {
        Ok(exit) => exit@,
        Err(failure) => ExitView {
            exit_code: 1,
            shutdown_event: None,
            failures: seq!["observer task failed: "@ + join_text(failure)],
        },
    }
}

pub fn observer_join_result(result: Result<ObserverExit, JoinFailure>) -> (r: ObserverExit)
    ensures
        r@ == observer_result(result),
{
    match result {
        Ok(exit) => exit,
        Err(failure) => {
            let said = join_error_message(&failure);
            let mut failures: Vec<String> = Vec::new();
            failures.push(concat("observer task failed: ", said.as_str()));
            proof {
                assert(texts(failures@) =~= seq!["observer task failed: "@ + join_text(failure)]);
            }
            ObserverExit { exit_code: 1, shutdown_event: None, failures }
        },
    }
}

/// What is said of the synchronisation, as a list of one or none.
pub open spec fn sync_part(failure: Option<Seq<char>>) -> Seq<Seq<char>> {
    match failure {
        Some(text) => seq![text],
        None => Seq::empty(),
    }
}

/// How it all ended: with an error wherever anything failed, or the observer itself
/// ended with one.
pub open spec fn supervision_exit(
    trigger: SupervisionTrigger,
    observer: ExitView,
    sync_failure: Option<Seq<char>>,
    indicator_failure: Seq<char>,
) -> ExitView {
    let failures = match trigger {
        SupervisionTrigger::Observer | SupervisionTrigger::ObserverShutdown => observer.failures
            + sync_part(sync_failure),
        SupervisionTrigger::Sync => sync_part(sync_failure) + observer.failures,
        SupervisionTrigger::IndicatorFailed => seq![indicator_failure] + sync_part(sync_failure)
            + observer.failures,
    };
    ExitView {
        exit_code: if failures.len() > 0 || trigger == SupervisionTrigger::Sync || trigger
            == SupervisionTrigger::IndicatorFailed {
            1
        } else {
            observer.exit_code
        },
        shutdown_event: observer.shutdown_event,
        failures,
    }
}

fn push_all(out: &mut Vec<String>, more: Vec<String>)
    ensures
        texts(final(out)@) == texts(old(out)@) + texts(more@),
{
    let mut i: usize = 0;
    proof {
        assert(texts(out@) =~= texts(old(out)@) + texts(more@).take(0));
    }
    while i < more.len()
        invariant
            i <= more@.len(),
            texts(out@) =~= texts(old(out)@) + texts(more@).take(i as int),
        decreases more@.len() - i,
    {
        let ghost before = texts(out@);
        out.push(more[i].clone());
        proof {
            assert(texts(out@) =~= before.push(more@[i as int]@));
            assert(texts(more@).take(i + 1) =~= texts(more@).take(i as int).push(
                more@[i as int]@,
            ));
        }
        i = i + 1;
    }
    proof {
        assert(texts(more@).take(more@.len() as int) =~= texts(more@));
    }
}

fn push_one(out: &mut Vec<String>, failure: Option<String>)
    ensures
        texts(final(out)@) == texts(old(out)@) + sync_part(opt_text(failure)),
{
    let ghost before = texts(out@);
    match failure {
        Some(text) => {
            out.push(text);
            proof {
                assert(texts(out@) =~= before + seq![text@]);
            }
        },
        None => {
            proof {
                assert(texts(out@) =~= before + Seq::<Seq<char>>::empty());
            }
        },
    }
}

/// How it all ended. `sync_failure` is what is said of the synchronisation where it
/// failed, `indicator_failure` what is said of the indicator where that made the end.
pub fn conclude_supervision(
    trigger: SupervisionTrigger,
    observer: ObserverExit,
    sync_failure: Option<String>,
    indicator_failure: String,
) -> (r: ObserverExit)
    ensures
        r@ == supervision_exit(
            trigger,
            observer@,
            opt_text(sync_failure),
            indicator_failure@,
        ),
{
    let mut failures: Vec<String> = Vec::new();
    proof {
        assert(texts(failures@) =~= Seq::<Seq<char>>::empty());
    }
    let mut exit_code: i32 = observer.exit_code;
    match trigger {
        SupervisionTrigger::Observer | SupervisionTrigger::ObserverShutdown => {
            push_all(&mut failures, observer.failures);
            push_one(&mut failures, sync_failure);
        },
        SupervisionTrigger::Sync => {
            exit_code = 1;
            push_one(&mut failures, sync_failure);
            push_all(&mut failures, observer.failures);
        },
        SupervisionTrigger::IndicatorFailed => {
            exit_code = 1;
            push_one(&mut failures, Some(indicator_failure));
            push_one(&mut failures, sync_failure);
            push_all(&mut failures, observer.failures);
        },
    }
    proof {
        assert(texts(failures@) =~= supervision_exit(
            trigger,
            observer@,
            opt_text(sync_failure),
            indicator_failure@,
        ).failures);
        assert(texts(failures@).len() == failures@.len());
    }
    if failures.len() > 0 {
        exit_code = 1;
    }
    ObserverExit { exit_code, shutdown_event: observer.shutdown_event, failures }
}

/// The end of all: the indicator was taken away, or that failed.
pub fn finish_supervision(exit: ObserverExit, restore_failure: Option<String>) -> (r: ObserverExit)
    ensures
        r@ == match restore_failure {
            None => exit@,
            Some(said) => ExitView {
                exit_code: 1,
                shutdown_event: exit.shutdown_event,
                failures: texts(exit.failures@).push("indicator shutdown failed: "@ + said@),
            },
        },
{
    match restore_failure {
        None => exit,
        Some(said) => {
            let mut failures = exit.failures;
            let ghost before = texts(failures@);
            let text = concat("indicator shutdown failed: ", said.as_str());
            failures.push(text);
            proof {
                assert(texts(failures@) =~= before.push(text@));
            }
            ObserverExit { exit_code: 1, shutdown_event: exit.shutdown_event, failures }
        },
    }
}

/// Whatever made the end, what failed is in the exit, and an exit with failures is an
/// error.
pub proof fn lemma_supervision_reports_failures(
    trigger: SupervisionTrigger,
    observer: ExitView,
    sync_failure: Option<Seq<char>>,
    indicator_failure: Seq<char>,
)
    ensures
        ({
            let exit = supervision_exit(trigger, observer, sync_failure, indicator_failure);
            &&& exit.failures.len() > 0 ==> exit.exit_code == 1
            &&& exit.failures.len() >= observer.failures.len()
            &&& sync_failure is Some ==> exit.exit_code == 1
            &&& trigger == SupervisionTrigger::IndicatorFailed ==> exit.failures[0]
                == indicator_failure
        }),
{
}

// ---------------------------------------------------------------------------
// Polls
// ---------------------------------------------------------------------------

/// What storing a poll does next.
#[derive(Clone, Copy, Debug, PartialEq, Eq, Structural)]
pub enum PollStep {
    /// Find out whether the segment is as long as it may be.
    Checking,
    /// Close the segment.
    Finalizing,
    /// Begin the next one.
    Creating,
    /// Append the capture of that number.
    Appending(usize),
    Done,
    Failed,
}

#[derive(Clone, Copy, Debug, PartialEq, Eq, Structural)]
pub enum PollEvent {
    Rotation { due: bool },
    Succeeded,
    /// The append was taken back and can be tried with the next poll.
    RolledBack,
    Failed,
}

/// What is appended after `count` captures.
pub open spec fn append_step(count: int, captures: int) -> PollStep {
    if count < captures {
        PollStep::Appending(count as usize)
    } else {
        PollStep::Done
    }
}

/// What storing a poll does after an event. An append that was taken back costs its
/// own capture and no other.
pub open spec fn poll_next(step: PollStep, captures: int, event: PollEvent) -> PollStep {
    match (step, event) {
        (PollStep::Checking, PollEvent::Rotation { due }) => if due {
            PollStep::Finalizing
        } else {
            append_step(0, captures)
        },
        (PollStep::Finalizing, PollEvent::Succeeded) => PollStep::Creating,
        (PollStep::Finalizing, PollEvent::Failed) => PollStep::Failed,
        (PollStep::Creating, PollEvent::Succeeded) => append_step(0, captures),
        (PollStep::Creating, PollEvent::Failed) => PollStep::Failed,
        (PollStep::Appending(i), PollEvent::Succeeded) => append_step(i + 1, captures),
        (PollStep::Appending(i), PollEvent::RolledBack) => append_step(i + 1, captures),
        (PollStep::Appending(_), PollEvent::Failed) => PollStep::Failed,
        _ => step,
    }
}

fn next_append(count: usize, captures: usize) -> (r: PollStep)
    ensures
        r == append_step(count as int, captures as int),
{
    if count < captures {
        PollStep::Appending(count)
    } else {
        PollStep::Done
    }
}

/// What storing a poll with so many captures does after an event.
pub fn advance_poll(step: PollStep, captures: usize, event: PollEvent) -> (r: PollStep)
    requires
        step matches PollStep::Appending(i) ==> i < captures,
    ensures
        r == poll_next(step, captures as int, event),
        r matches PollStep::Appending(i) ==> i < captures,
{
    match (step, event) {
        (PollStep::Checking, PollEvent::Rotation { due }) => if due {
            PollStep::Finalizing
        } else {
            next_append(0, captures)
        },
        (PollStep::Finalizing, PollEvent::Succeeded) => PollStep::Creating,
        (PollStep::Finalizing, PollEvent::Failed) => PollStep::Failed,
        (PollStep::Creating, PollEvent::Succeeded) => next_append(0, captures),
        (PollStep::Creating, PollEvent::Failed) => PollStep::Failed,
        (PollStep::Appending(i), PollEvent::Succeeded) => next_append(i + 1, captures),
        (PollStep::Appending(i), PollEvent::RolledBack) => next_append(i + 1, captures),
        (PollStep::Appending(_), PollEvent::Failed) => PollStep::Failed,
        _ => step,
    }
}

/// The warning about a capture whose append was taken back. It does not say which
/// session the capture is of.
pub fn retry_warning(error: &StorageError) -> (r: String)
    ensures
        r@ == "durable append rolled back and will retry: "@ + error.text(),
{
    concat("durable append rolled back and will retry: ", error.message().as_str())
}

/// The directory of a stream on a day.
pub open spec fn stream_path(data_root: Seq<u8>, date: Seq<char>, stream: Seq<char>) -> Seq<u8> {
    join_path(
        join_path(join_path(data_root, encode_utf8("captures"@)), encode_utf8(date)),
        encode_utf8(stream),
    )
}

/// The directory of the stream on the day that `date` names.
pub fn stream_directory(data_root: &[u8], stream: &DerivedName, date: &str) -> (r: Result<
    Vec<u8>,
    ObserverOperationError,
>)
    ensures
        r is Ok,
        r->Ok_0@ == stream_path(data_root@, date@, stream@),
{
    let captures = joined_path(data_root, "captures".as_bytes());
    let day = joined_path(captures.as_slice(), date.as_bytes());
    match stream.join_checked(day.as_slice()) {
        Ok(path) => Ok(path),
        Err(error) => Err(ObserverOperationError(error.message())),
    }
}

// ---------------------------------------------------------------------------
// What a run of the observer comes to
// ---------------------------------------------------------------------------

/// The steps of storing a poll under a list of events, the first step first.
pub open spec fn poll_steps(captures: int, events: Seq<PollEvent>) -> Seq<PollStep>
    decreases events.len(),
{
    if events.len() == 0 {
        seq![PollStep::Checking]
    } else {
        let before = poll_steps(captures, events.drop_last());
        before.push(poll_next(before.last(), captures, events.last()))
    }
}

/// The capture of that number was at hand at some time.
pub open spec fn was_at_hand(steps: Seq<PollStep>, i: int) -> bool {
    exists|k: int| 0 <= k < steps.len() && #[trigger] steps[k] == PollStep::Appending(i as usize)
}

/// How many captures come before the one that a step is about.
spec fn captures_behind(step: PollStep, captures: int) -> int {
    match step {
        PollStep::Appending(i) => i as int,
        PollStep::Done => captures,
        _ => 0,
    }
}

proof fn lemma_poll_trace(captures: int, events: Seq<PollEvent>)
    requires
        0 <= captures <= usize::MAX,
    ensures
        ({
            let steps = poll_steps(captures, events);
            &&& steps.len() == events.len() + 1
            &&& steps[0] == PollStep::Checking
            &&& steps.last() matches PollStep::Appending(i) ==> i < captures
            &&& forall|i: int|
                0 <= i < captures_behind(steps.last(), captures) ==> #[trigger] was_at_hand(
                    steps,
                    i,
                )
            &&& forall|k: int, i: usize|
                0 <= k < steps.len() && #[trigger] steps[k] == PollStep::Appending(i)
                    && #[trigger] is_number(i) ==> steps.last() == PollStep::Failed || i
                    <= captures_behind(steps.last(), captures)
        }),
    decreases events.len(),
{
    let steps = poll_steps(captures, events);
    if events.len() > 0 {
        let before = poll_steps(captures, events.drop_last());
        lemma_poll_trace(captures, events.drop_last());
        assert forall|i: int| 0 <= i < captures_behind(steps.last(), captures) implies
            #[trigger] was_at_hand(steps, i) by {
            if i < captures_behind(before.last(), captures) {
                assert(was_at_hand(before, i));
                let k = choose|k: int|
                    0 <= k < before.len() && #[trigger] before[k] == PollStep::Appending(
                        i as usize,
                    );
                assert(steps[k] == before[k]);
            } else {
                assert(before.last() == PollStep::Appending(i as usize));
                assert(steps[before.len() - 1] == before.last());
            }
        }
        assert forall|k: int, i: usize|
            0 <= k < steps.len() && #[trigger] steps[k] == PollStep::Appending(i)
                && #[trigger] is_number(i) implies steps.last() == PollStep::Failed || i
            <= captures_behind(steps.last(), captures) by {
            if k < before.len() {
                assert(before[k] == steps[k]);
            }
        }
    }
}

/// A number; it stands for itself in quantifiers.
spec fn is_number(i: usize) -> bool {
    true
}

/// Storing a poll is done only after each of its captures was at hand, whether or not
/// the segment was rotated first: none is left out.
pub proof fn lemma_poll_stores_every_capture(captures: int, events: Seq<PollEvent>, i: int)
    requires
        0 <= i < captures <= usize::MAX,
        poll_steps(captures, events).last() == PollStep::Done,
    ensures
        was_at_hand(poll_steps(captures, events), i),
{
    lemma_poll_trace(captures, events);
}

/// The captures of a poll are stored in order: one that was at hand comes before the one
/// that is.
pub proof fn lemma_captures_are_stored_in_order(
    captures: int,
    events: Seq<PollEvent>,
    k: int,
    i: usize,
    j: usize,
)
    requires
        0 <= captures <= usize::MAX,
        0 <= k < poll_steps(captures, events).len(),
        poll_steps(captures, events)[k] == PollStep::Appending(i),
        poll_steps(captures, events).last() == PollStep::Appending(j),
    ensures
        i <= j,
{
    lemma_poll_trace(captures, events);
    assert(is_number(i));
}

/// A poll that nothing fails comes to its end in as many steps as it has captures, and
/// two more where the segment is rotated. An append that was taken back counts as one.
pub proof fn lemma_poll_ends(captures: int, due: bool, rolled_back: Seq<bool>)
    requires
        0 <= captures <= usize::MAX,
        rolled_back.len() == captures,
    ensures
        poll_steps(captures, unfailing_events(due, rolled_back)).last() == PollStep::Done,
        due ==> poll_steps(captures, unfailing_events(due, rolled_back))[1] == PollStep::Finalizing
            && poll_steps(captures, unfailing_events(due, rolled_back))[2] == PollStep::Creating,
        !due ==> forall|k: int|
            0 <= k < poll_steps(captures, unfailing_events(due, rolled_back)).len() ==> !(
            #[trigger] poll_steps(captures, unfailing_events(due, rolled_back))[k] is Finalizing),
{
    lemma_unfailing_poll(captures, due, rolled_back);
}

/// The events of a poll that nothing fails.
pub open spec fn unfailing_events(due: bool, rolled_back: Seq<bool>) -> Seq<PollEvent> {
    let opening = if due {
        seq![PollEvent::Rotation { due: true }, PollEvent::Succeeded, PollEvent::Succeeded]
    } else {
        seq![PollEvent::Rotation { due: false }]
    };
    opening + rolled_back.map_values(
        |taken_back: bool|
            if taken_back {
                PollEvent::RolledBack
            } else {
                PollEvent::Succeeded
            },
    )
}

proof fn lemma_unfailing_poll(captures: int, due: bool, rolled_back: Seq<bool>)
    requires
        0 <= captures <= usize::MAX,
        rolled_back.len() <= captures,
    ensures
        ({
            let steps = poll_steps(captures, unfailing_events(due, rolled_back));
            let opening = if due {
                3int
            } else {
                1int
            };
            &&& steps.len() == opening + rolled_back.len() + 1
            &&& steps.last() == if rolled_back.len() < captures {
                PollStep::Appending(rolled_back.len() as usize)
            } else {
                PollStep::Done
            }
            &&& due ==> steps[1] == PollStep::Finalizing && steps[2] == PollStep::Creating
            &&& !due ==> forall|k: int|
                0 <= k < steps.len() ==> !(#[trigger] steps[k] is Finalizing)
        }),
    decreases rolled_back.len(),
{
    let events = unfailing_events(due, rolled_back);
    let steps = poll_steps(captures, events);
    if rolled_back.len() == 0 {
        if due {
            let three = seq![
                PollEvent::Rotation { due: true },
                PollEvent::Succeeded,
                PollEvent::Succeeded,
            ];
            assert(events =~= three);
            let two = three.drop_last();
            let one = two.drop_last();
            assert(one.drop_last() =~= Seq::<PollEvent>::empty());
            assert(poll_steps(captures, one.drop_last()) == seq![PollStep::Checking]);
            assert(poll_steps(captures, one).last() == PollStep::Finalizing);
            assert(poll_steps(captures, two).last() == PollStep::Creating);
        } else {
            assert(events =~= seq![PollEvent::Rotation { due: false }]);
            assert(events.drop_last() =~= Seq::<PollEvent>::empty());
            assert(poll_steps(captures, events.drop_last()) == seq![PollStep::Checking]);
        }
    } else {
        let shorter = rolled_back.drop_last();
        lemma_unfailing_poll(captures, due, shorter);
        assert(events.drop_last() =~= unfailing_events(due, shorter));
        let before = poll_steps(captures, events.drop_last());
        assert(events.last() == PollEvent::RolledBack || events.last() == PollEvent::Succeeded);
        assert forall|k: int| !due && 0 <= k < steps.len() implies !(
        #[trigger] steps[k] is Finalizing) by {
            if k < before.len() {
                assert(steps[k] == before[k]);
            }
        }
    }
}

/// A failure while a poll is stored ends it there.
pub proof fn lemma_failed_poll_ends(step: PollStep, captures: int)
    ensures
        step is Finalizing || step is Creating || step is Appending ==> poll_next(
            step,
            captures,
            PollEvent::Failed,
        ) == PollStep::Failed,
        forall|event: PollEvent|
            #[trigger] poll_next(PollStep::Failed, captures, event) == PollStep::Failed,
        forall|event: PollEvent|
            #[trigger] poll_next(PollStep::Done, captures, event) == PollStep::Done,
{
}

/// A shutdown is heeded while the observer waits and while it captures: the segment is
/// closed, nothing counts as failed, and the exit names the shutdown.
pub proof fn lemma_shutdown_is_heeded(s: RunState, shutdown: ShutdownEvent)
    requires
        s.step == ObserverStep::Waiting || s.step == ObserverStep::Capturing,
    ensures
        ({
            let after = observer_next(s, ObserverEvent::Shutdown(shutdown));
            &&& after.step == ObserverStep::Closing
            &&& after.failures == s.failures
            &&& exit_of(after).shutdown_event == Some(shutdown)
        }),
{
}

/// Polls go round until something ends them: a tick is followed by a capture, a capture
/// is stored, and then the next tick is waited for.
pub proof fn lemma_polls_go_round(s: RunState)
    requires
        s.step == ObserverStep::Waiting,
    ensures
        ({
            let capturing = observer_next(s, ObserverEvent::Tick);
            let storing = observer_next(capturing, ObserverEvent::Captured);
            let after = observer_next(storing, ObserverEvent::Stored);
            &&& capturing.step == ObserverStep::Capturing
            &&& storing.step == ObserverStep::Storing
            &&& after == s
        }),
{
}

/// Whatever fails in a poll ends the observer: the failure is noted, and the segment is
/// closed where there is one left.
pub proof fn lemma_failed_poll_ends_the_observer(s: RunState, event: ObserverEvent)
    requires
        s.step == ObserverStep::Capturing || s.step == ObserverStep::Storing,
        observer_next(s, event).failures.len() > s.failures.len(),
    ensures
        observer_next(s, event).failures.len() == s.failures.len() + 1,
        event is StoreCrashed ==> observer_next(s, event).step == ObserverStep::Done,
        !(event is StoreCrashed) ==> observer_next(s, event).step == ObserverStep::Closing,
        exit_of(observer_next(s, event)).exit_code == 1,
        event is CaptureFailed || event is CaptureCrashed || event is CaptureLost || event
            is StoreFailed || event is StoreCrashed,
{
}

/// What the supervisor does at the end is complete: a task that runs is told to stop and
/// waited for, the observer only once it was released; nothing is waited for that has
/// ended.
pub proof fn lemma_supervision_is_complete(trigger: SupervisionTrigger)
    ensures
        ({
            let orders = supervision_orders(trigger);
            &&& orders.contains(SupervisionOrder::ReleaseObserver)
            &&& orders.contains(SupervisionOrder::AwaitSync) == (trigger
                != SupervisionTrigger::Sync)
            &&& orders.contains(SupervisionOrder::StopSync) == (trigger
                != SupervisionTrigger::Sync)
            &&& orders.contains(SupervisionOrder::AwaitObserver) == (trigger
                != SupervisionTrigger::Observer)
            &&& orders.contains(SupervisionOrder::StopObserver) == (trigger
                == SupervisionTrigger::Sync || trigger == SupervisionTrigger::IndicatorFailed)
            &&& trigger != SupervisionTrigger::Observer ==> orders.last()
                == SupervisionOrder::AwaitObserver && orders[orders.len() - 2]
                == SupervisionOrder::ReleaseObserver
        }),
{
    let orders = supervision_orders(trigger);
    match trigger {
        SupervisionTrigger::Observer => {
            assert(orders[0] == SupervisionOrder::StopSync);
            assert(orders[1] == SupervisionOrder::AwaitSync);
            assert(orders[2] == SupervisionOrder::ReleaseObserver);
        },
        SupervisionTrigger::ObserverShutdown => {
            assert(orders[0] == SupervisionOrder::StopSync);
            assert(orders[1] == SupervisionOrder::AwaitSync);
            assert(orders[2] == SupervisionOrder::ReleaseObserver);
            assert(orders[3] == SupervisionOrder::AwaitObserver);
        },
        SupervisionTrigger::Sync => {
            assert(orders[0] == SupervisionOrder::StopObserver);
            assert(orders[1] == SupervisionOrder::ReleaseObserver);
            assert(orders[2] == SupervisionOrder::AwaitObserver);
        },
        SupervisionTrigger::IndicatorFailed => {
            assert(orders[0] == SupervisionOrder::StopSync);
            assert(orders[1] == SupervisionOrder::StopObserver);
            assert(orders[2] == SupervisionOrder::AwaitSync);
            assert(orders[3] == SupervisionOrder::ReleaseObserver);
            assert(orders[4] == SupervisionOrder::AwaitObserver);
        },
    }
}

/// The exit holds every failure and no other: those of the observer, in their order, what
/// is said of the synchronisation, and of the indicator where that made the end. Without
/// any, an observer that ended or was asked to ends as it did itself.
pub proof fn lemma_exit_holds_every_failure(
    trigger: SupervisionTrigger,
    observer: ExitView,
    sync_failure: Option<Seq<char>>,
    indicator_failure: Seq<char>,
    text: Seq<char>,
)
    ensures
        ({
            let exit = supervision_exit(trigger, observer, sync_failure, indicator_failure);
            &&& exit.shutdown_event == observer.shutdown_event
            &&& exit.failures.contains(text) <==> observer.failures.contains(text) || sync_failure
                == Some(text) || (trigger == SupervisionTrigger::IndicatorFailed && text
                == indicator_failure)
            &&& exit.failures.len() == observer.failures.len() + (if sync_failure is Some {
                1int
            } else {
                0int
            }) + (if trigger == SupervisionTrigger::IndicatorFailed {
                1int
            } else {
                0int
            })
            &&& (trigger == SupervisionTrigger::Observer || trigger
                == SupervisionTrigger::ObserverShutdown) && observer.failures.len() == 0
                && sync_failure is None ==> exit.exit_code == observer.exit_code
            &&& trigger == SupervisionTrigger::Sync || trigger
                == SupervisionTrigger::IndicatorFailed ==> exit.exit_code == 1
        }),
{
    let exit = supervision_exit(trigger, observer, sync_failure, indicator_failure);
    let part = sync_part(sync_failure);
    let all = exit.failures;
    let n = observer.failures.len() as int;
    let m = part.len() as int;
    if sync_failure is Some {
        assert(part[0] == sync_failure->0);
    }
    let first = match trigger {
        SupervisionTrigger::Observer | SupervisionTrigger::ObserverShutdown => 0int,
        SupervisionTrigger::Sync => m,
        SupervisionTrigger::IndicatorFailed => 1 + m,
    };
    let at_part = match trigger {
        SupervisionTrigger::Observer | SupervisionTrigger::ObserverShutdown => n,
        SupervisionTrigger::Sync => 0int,
        SupervisionTrigger::IndicatorFailed => 1int,
    };
    assert forall|i: int| 0 <= i < n implies all[first + i] == #[trigger] observer.failures[i] by {}
    if sync_failure is Some {
        assert(all[at_part] == sync_failure->0);
    }
    if trigger == SupervisionTrigger::IndicatorFailed {
        assert(all[0] == indicator_failure);
    }
    if all.contains(text) {
        let k = choose|k: int| 0 <= k < all.len() && all[k] == text;
        if first <= k < first + n {
            assert(observer.failures[k - first] == text);
        } else if sync_failure is Some && k == at_part {
        }
    }
    if observer.failures.contains(text) {
        let i = choose|i: int| 0 <= i < n && observer.failures[i] == text;
        assert(all[first + i] == text);
    }
}

/// An end of the synchronisation is reported unless it was asked for and went well, and
/// under a code of its own where it failed with one.
pub proof fn lemma_bad_ends_of_sync_are_reported(outcome: SyncOutcome, asked_for: bool)
    ensures
        sync_code(outcome, asked_for) is None <==> asked_for && outcome == SyncOutcome::Finished,
        outcome matches SyncOutcome::Failed(code) ==> sync_code(outcome, asked_for) == Some(code),
        outcome == SyncOutcome::Panicked ==> sync_code(outcome, asked_for) == Some(
            DiagnosticCode::SyncTaskPanicked,
        ),
        outcome == SyncOutcome::Cancelled ==> sync_code(outcome, asked_for) == Some(
            DiagnosticCode::SyncTaskCancelled,
        ),
        outcome == SyncOutcome::Finished && !asked_for ==> sync_code(outcome, asked_for) == Some(
            DiagnosticCode::SyncTaskExited,
        ),
{
}

/// The directory of a stream stands three entries below the data: the captures, the day
/// and the stream, each as it is named.
pub proof fn lemma_stream_has_its_own_directory(
    data_root: Seq<u8>,
    date: Seq<char>,
    stream: Seq<char>,
)
    requires
        single_entry(encode_utf8(date)),
        is_component(stream),
    ensures
        entries(stream_path(data_root, date, stream)) == entries(data_root).push(
            encode_utf8("captures"@),
        ).push(encode_utf8(date)).push(encode_utf8(stream)),
{
    reveal_strlit("captures");
    is_ascii_chars_encode_utf8("captures"@);
    let name = encode_utf8("captures"@);
    assert(single_entry(name)) by {
        assert forall|i: int| 0 <= i < name.len() implies #[trigger] name[i] != SLASH by {
            assert(name[i] as u32 == "captures"@[i] as u32);
        }
    }
    lemma_component_is_single_entry(stream);
    lemma_join_adds_one_entry(data_root, name);
    lemma_join_adds_one_entry(join_path(data_root, name), encode_utf8(date));
    lemma_join_adds_one_entry(
        join_path(join_path(data_root, name), encode_utf8(date)),
        encode_utf8(stream),
    );
}

/// An observer that ended is reported as it ended, and one that came to no result as a
/// failure.
pub proof fn lemma_lost_observer_is_a_failure(result: Result<ObserverExit, JoinFailure>)
    ensures
        result matches Ok(exit) ==> observer_result(result) == exit@,
        result is Err ==> observer_result(result).exit_code == 1 && observer_result(
            result,
        ).failures.len() == 1 && observer_result(result).shutdown_event is None,
{
}

/// A poll stores its captures from the first on, one after the other, whether or not the
/// segment is changed before; a change closes the old segment before the new one is made.
pub proof fn lemma_course_of_a_poll(captures: int, i: usize, event: PollEvent)
    requires
        0 < captures <= usize::MAX,
        i < captures,
        event == PollEvent::Succeeded || event == PollEvent::RolledBack,
    ensures
        poll_next(PollStep::Checking, captures, PollEvent::Rotation { due: false })
            == PollStep::Appending(0),
        poll_next(PollStep::Checking, captures, PollEvent::Rotation { due: true })
            == PollStep::Finalizing,
        poll_next(PollStep::Finalizing, captures, PollEvent::Succeeded) == PollStep::Creating,
        poll_next(PollStep::Creating, captures, PollEvent::Succeeded) == PollStep::Appending(0),
        i + 1 < captures ==> poll_next(PollStep::Appending(i), captures, event)
            == PollStep::Appending((i + 1) as usize),
        i + 1 == captures ==> poll_next(PollStep::Appending(i), captures, event) == PollStep::Done,
{
}

} // verus!
