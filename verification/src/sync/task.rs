//! The task around the synchronisation: whether it can run at all, and how it stays
//! connected.

use vstd::prelude::*;
use vstd::string::*;
use vstd::utf8::*;

use crate::config::{default_stream, host_stream};
use crate::digest::sha256_digest;
use crate::health::DiagnosticCode;
use crate::name::{derivation, derive_component, DerivedName};
use crate::post_connect::compute_pairing_generation;
use crate::sync::backoff::{rested, strained, Backoff};
use crate::sync::ledger::{IdentityView, JournalIdentity};
use crate::text::{copy, hex_string, hex_text, same_text};

verus! {

/// What came of reading the credential.
#[derive(Clone, Copy, Debug, PartialEq, Eq, Structural)]
pub enum CredentialLoad {
    Present,
    Absent,
    Failed(DiagnosticCode),
    /// The reading itself was lost.
    Lost,
}

/// What the task does first.
#[derive(Clone, Copy, Debug, PartialEq, Eq, Structural)]
pub enum TaskOpening {
    /// Report health until the end, with the code where there is one.
    Wait(Option<DiagnosticCode>),
    Connect,
}

/// The stream that a host's segments belong to.
pub open spec fn expected_stream(hostname: Seq<char>) -> Option<Seq<char>> {
    match host_stream(hostname) {
        Some(stream) => match derivation(stream) {
            Ok(name) => Some(name),
            Err(_) => None,
        },
        None => None,
    }
}

/// What the task does first: without a credential, or with another stream than the
/// host's, it only waits.
pub open spec fn task_opening(
    loaded: CredentialLoad,
    stream: Seq<char>,
    hostname: Seq<char>,
) -> Result<TaskOpening, DiagnosticCode> {
    match loaded {
        CredentialLoad::Lost => Err(DiagnosticCode::PrivateStateIo),
        CredentialLoad::Absent => Ok(TaskOpening::Wait(None)),
        CredentialLoad::Failed(code) => Ok(TaskOpening::Wait(Some(code))),
        CredentialLoad::Present => match expected_stream(hostname) {
            None => Err(DiagnosticCode::ConfiguredStreamMismatch),
            Some(expected) => if stream == expected {
                Ok(TaskOpening::Connect)
            } else {
                Ok(TaskOpening::Wait(Some(DiagnosticCode::ConfiguredStreamMismatch)))
            },
        },
    }
}

pub fn open_task(loaded: CredentialLoad, stream: &DerivedName, hostname: &str) -> (r: Result<
    TaskOpening,
    DiagnosticCode,
>)
    ensures
        r == task_opening(loaded, stream@, hostname@),
{
    match loaded {
        CredentialLoad::Lost => Err(DiagnosticCode::PrivateStateIo),
        CredentialLoad::Absent => Ok(TaskOpening::Wait(None)),
        CredentialLoad::Failed(code) => Ok(TaskOpening::Wait(Some(code))),
        CredentialLoad::Present => {
            let name = match default_stream(hostname) {
                Ok(name) => name,
                Err(_) => return Err(DiagnosticCode::ConfiguredStreamMismatch),
            };
            match derive_component(name.as_str()) {
                Ok(expected) => if same_text(stream.as_str(), expected.as_str()) {
                    Ok(TaskOpening::Connect)
                } else {
                    Ok(TaskOpening::Wait(Some(DiagnosticCode::ConfiguredStreamMismatch)))
                },
                Err(_) => Err(DiagnosticCode::ConfiguredStreamMismatch),
            }
        },
    }
}

/// The journal that a credential is paired with.
pub fn journal_identity(instance_id: &str, ca_fp_prefix: &[u8], client_cert_pem: &str) -> (r:
    JournalIdentity)
    ensures
        r@ == (IdentityView {
            instance_id: instance_id@,
            ca_fp_prefix_hex: hex_text(ca_fp_prefix@),
            pairing_generation_hex: hex_text(sha256_digest(encode_utf8(client_cert_pem@))),
        }),
{
    let generation = compute_pairing_generation(client_cert_pem);
    JournalIdentity {
        instance_id: copy(instance_id),
        ca_fp_prefix_hex: hex_string(ca_fp_prefix),
        pairing_generation_hex: hex_string(generation.as_slice()),
    }
}

/// What the task does.
#[derive(Clone, Copy, Debug, PartialEq, Eq, Structural)]
pub enum TaskStep {
    /// Start a session, unless a shutdown is asked for.
    Connecting,
    /// Wait until the next try, or for a shutdown.
    Waiting,
    /// Run the synchronisation until a shutdown.
    Running,
    /// End the session.
    Closing,
    Stopped,
    /// Ended with an error.
    Failed(DiagnosticCode),
}

#[derive(Clone, Copy, Debug, PartialEq, Eq, Structural)]
pub enum TaskEvent {
    Shutdown,
    Started,
    StartFailed(DiagnosticCode),
    RetryDue,
    /// The synchronisation has come to its end.
    Ended,
    /// The session has ended, with the code where that failed.
    Closed(Option<DiagnosticCode>),
}

/// A task that tries to be connected.
#[derive(Debug, PartialEq, Eq, Structural)]
pub struct TaskState {
    pub step: TaskStep,
    pub reconnect: Backoff,
}

/// The task after an event. One that was not waited for changes nothing.
pub open spec fn task_next(t: TaskState, event: TaskEvent) -> TaskState {
    match (t.step, event) {
        (TaskStep::Connecting, TaskEvent::Shutdown) => TaskState { step: TaskStep::Stopped, ..t },
        (TaskStep::Connecting, TaskEvent::Started) => TaskState { step: TaskStep::Running, ..t },
        (TaskStep::Connecting, TaskEvent::StartFailed(_)) => TaskState {
            step: TaskStep::Waiting,
            reconnect: strained(t.reconnect),
        },
        (TaskStep::Waiting, TaskEvent::Shutdown) => TaskState { step: TaskStep::Stopped, ..t },
        (TaskStep::Waiting, TaskEvent::RetryDue) => TaskState {
            step: TaskStep::Connecting,
            reconnect: Backoff { delay: None, ..t.reconnect },
        },
        (TaskStep::Running, TaskEvent::Ended) => TaskState { step: TaskStep::Closing, ..t },
        (TaskStep::Closing, TaskEvent::Closed(None)) => TaskState {
            step: TaskStep::Stopped,
            ..t
        },
        (TaskStep::Closing, TaskEvent::Closed(Some(code))) => TaskState {
            step: TaskStep::Failed(code),
            ..t
        },
        _ => t,
    }
}

/// The code that the health report gets, where an event brings one.
pub open spec fn task_report(t: TaskState, event: TaskEvent) -> Option<DiagnosticCode> {
    match (t.step, event) {
        (TaskStep::Connecting, TaskEvent::StartFailed(code)) => Some(code),
        (TaskStep::Closing, TaskEvent::Closed(Some(code))) => Some(code),
        _ => None,
    }
}

impl TaskState {
    pub fn new() -> (r: Self)
        ensures
            r == (TaskState { step: TaskStep::Connecting, reconnect: rested() }),
    {
        TaskState { step: TaskStep::Connecting, reconnect: Backoff::new() }
    }

    /// Takes an event in. The result is the code that the health report gets.
    pub fn advance(&mut self, event: TaskEvent) -> (r: Option<DiagnosticCode>)
        ensures
            *final(self) == task_next(*old(self), event),
            r == task_report(*old(self), event),
    {
        match (self.step, event) {
            (TaskStep::Connecting, TaskEvent::Shutdown) => {
                self.step = TaskStep::Stopped;
                None
            },
            (TaskStep::Connecting, TaskEvent::Started) => {
                self.step = TaskStep::Running;
                None
            },
            (TaskStep::Connecting, TaskEvent::StartFailed(code)) => {
                self.reconnect.failed_operation();
                self.step = TaskStep::Waiting;
                Some(code)
            },
            (TaskStep::Waiting, TaskEvent::Shutdown) => {
                self.step = TaskStep::Stopped;
                None
            },
            (TaskStep::Waiting, TaskEvent::RetryDue) => {
                self.reconnect.deadline_reached();
                self.step = TaskStep::Connecting;
                None
            },
            (TaskStep::Running, TaskEvent::Ended) => {
                self.step = TaskStep::Closing;
                None
            },
            (TaskStep::Closing, TaskEvent::Closed(None)) => {
                self.step = TaskStep::Stopped;
                None
            },
            (TaskStep::Closing, TaskEvent::Closed(Some(code))) => {
                self.step = TaskStep::Failed(code);
                Some(code)
            },
            _ => None,
        }
    }
}

/// A session that could not be started is tried again after a pause, and every pause
/// has an end.
pub proof fn lemma_failed_start_waits(t: TaskState, code: DiagnosticCode)
    requires
        t.step == TaskStep::Connecting,
    ensures
        ({
            let waiting = task_next(t, TaskEvent::StartFailed(code));
            &&& waiting.step == TaskStep::Waiting
            &&& waiting.reconnect.delay is Some
            &&& task_next(waiting, TaskEvent::RetryDue).step == TaskStep::Connecting
        }),
{
}

/// What is captured keeps waiting here while the journal cannot be had: without a
/// credential, and while no session can be started, the task waits, and nothing but a
/// shutdown or the end of a session ends it.
pub proof fn lemma_task_waits_for_journal(t: TaskState, event: TaskEvent, hostname: Seq<char>, stream: Seq<char>)
    ensures
        task_opening(CredentialLoad::Absent, stream, hostname) == Ok::<TaskOpening, DiagnosticCode>(
            TaskOpening::Wait(None),
        ),
        (t.step == TaskStep::Connecting || t.step == TaskStep::Waiting) && event
            != TaskEvent::Shutdown ==> {
            let after = task_next(t, event).step;
            after == TaskStep::Connecting || after == TaskStep::Waiting || after == TaskStep::Running
        },
{
}

/// Nothing is uploaded for a stream that is not the host's, nor without a credential.
pub proof fn lemma_connects_only_for_own_stream(
    loaded: CredentialLoad,
    stream: Seq<char>,
    hostname: Seq<char>,
)
    requires
        task_opening(loaded, stream, hostname) == Ok::<TaskOpening, DiagnosticCode>(
            TaskOpening::Connect,
        ),
    ensures
        loaded == CredentialLoad::Present,
        expected_stream(hostname) == Some(stream),
{
}

/// With a credential the task connects where its stream is the host's, and else reports
/// that it is not; a credential that cannot be read is reported by its own code, and only
/// where the reading was lost or the host has no stream does the task not begin.
pub proof fn lemma_how_the_task_opens(loaded: CredentialLoad, stream: Seq<char>, hostname: Seq<char>)
    ensures
        loaded == CredentialLoad::Present && expected_stream(hostname) == Some(stream)
            ==> task_opening(loaded, stream, hostname) == Ok::<TaskOpening, DiagnosticCode>(
            TaskOpening::Connect,
        ),
        loaded == CredentialLoad::Present && expected_stream(hostname) is Some
            && expected_stream(hostname) != Some(stream) ==> task_opening(loaded, stream, hostname)
            == Ok::<TaskOpening, DiagnosticCode>(
            TaskOpening::Wait(Some(DiagnosticCode::ConfiguredStreamMismatch)),
        ),
        forall|code: DiagnosticCode|
            loaded == CredentialLoad::Failed(code) ==> #[trigger] task_opening(
                CredentialLoad::Failed(code),
                stream,
                hostname,
            ) == Ok::<TaskOpening, DiagnosticCode>(TaskOpening::Wait(Some(code))),
        task_opening(loaded, stream, hostname) is Err <==> loaded == CredentialLoad::Lost || (loaded
            == CredentialLoad::Present && expected_stream(hostname) is None),
        loaded == CredentialLoad::Lost ==> task_opening(loaded, stream, hostname) == Err::<
            TaskOpening,
            DiagnosticCode,
        >(DiagnosticCode::PrivateStateIo),
{
}

/// A session that was started runs until the synchronisation ends, is then closed, and
/// leaves the task stopped, or failed with the code that closing it gave. A shutdown ends
/// every wait before that.
pub proof fn lemma_course_of_the_task(t: TaskState, code: DiagnosticCode)
    ensures
        t.step == TaskStep::Connecting ==> {
            &&& task_next(t, TaskEvent::Started).step == TaskStep::Running
            &&& task_next(t, TaskEvent::Shutdown).step == TaskStep::Stopped
            &&& task_report(t, TaskEvent::StartFailed(code)) == Some(code)
            &&& task_report(t, TaskEvent::Started) is None
        },
        t.step == TaskStep::Waiting ==> {
            &&& task_next(t, TaskEvent::Shutdown).step == TaskStep::Stopped
            &&& task_next(t, TaskEvent::RetryDue).step == TaskStep::Connecting
            &&& task_next(t, TaskEvent::RetryDue).reconnect.delay is None
            &&& task_next(t, TaskEvent::RetryDue).reconnect.next_delay == t.reconnect.next_delay
            &&& task_report(t, TaskEvent::RetryDue) is None
        },
        t.step == TaskStep::Running ==> {
            &&& task_next(t, TaskEvent::Ended).step == TaskStep::Closing
            &&& task_next(t, TaskEvent::Shutdown).step == TaskStep::Running
        },
        t.step == TaskStep::Closing ==> {
            &&& task_next(t, TaskEvent::Closed(None)).step == TaskStep::Stopped
            &&& task_next(t, TaskEvent::Closed(Some(code))).step == TaskStep::Failed(code)
            &&& task_report(t, TaskEvent::Closed(Some(code))) == Some(code)
            &&& task_report(t, TaskEvent::Closed(None)) is None
        },
        t.step == TaskStep::Stopped || t.step is Failed ==> forall|event: TaskEvent|
            #[trigger] task_next(t, event) == t,
{
}

/// The pauses between tries to connect grow with every try that fails.
pub proof fn lemma_reconnects_back_off(t: TaskState, first: DiagnosticCode, second: DiagnosticCode)
    requires
        t.step == TaskStep::Connecting,
        t.reconnect.next_delay < 3,
    ensures
        ({
            let once = task_next(t, TaskEvent::StartFailed(first));
            let again = task_next(task_next(once, TaskEvent::RetryDue), TaskEvent::StartFailed(second));
            &&& once.reconnect.delay is Some && again.reconnect.delay is Some
            &&& once.reconnect.delay->0 < again.reconnect.delay->0
        }),
{
}

} // verus!
