//! The codes under which a failure is reported.

use vstd::prelude::*;

verus! {

#[derive(Clone, Copy, Debug, PartialEq, Eq, Structural)]
pub enum DiagnosticCode {
    PrivateStateIo,
    PrivateStateInvalid,
    JournalUnavailable,
    JournalRevoked,
    JournalTimeout,
    JournalRejected,
    JournalContractInvalid,
    JournalResponseTooLarge,
    RequestTooLarge,
    LocalSegmentInvalid,
    ConfiguredStreamMismatch,
    BridgeUnavailable,
    SetupUnavailable,
    SetupInputInvalid,
    PairingFailed,
    IndicatorUpdateFailed,
    SyncTaskPanicked,
    SyncTaskCancelled,
    SyncTaskExited,
}

/// What a live run reports of its health.
#[derive(Clone, Copy, Debug, PartialEq, Eq, Structural)]
pub enum HealthState {
    Connected,
    Syncing,
    /// It is not connected.
    Offline,
}

/// Whether a run with that health has a live connection to the journal.
pub fn reports_connection(health: HealthState) -> (r: bool)
    ensures
        r == (health is Connected || health is Syncing),
{
    match health {
        HealthState::Connected => true,
        HealthState::Syncing => true,
        HealthState::Offline => false,
    }
}

/// What is known of the synchronisation, for the health report.
#[derive(Clone, Copy, Debug, PartialEq, Eq, Structural)]
pub struct SyncFacts {
    pub paired: bool,
    pub pending_segments: u64,
    pub sync_in_progress: bool,
}

impl Default for SyncFacts {
    fn default() -> (r: Self)
        ensures
            r == (SyncFacts { paired: false, pending_segments: 0, sync_in_progress: false }),
    {
        SyncFacts { paired: false, pending_segments: 0, sync_in_progress: false }
    }
}

} // verus!
