//! What an exchange with the journal that failed means for the sweep.

use vstd::prelude::*;
use vstd::string::*;

use crate::health::DiagnosticCode;
use crate::journal::{JournalError, JournalReasonCode};
use crate::text::{concat3, decimal, decimal_text};

verus! {

#[derive(Clone, Copy, Debug, PartialEq, Eq, Structural)]
pub enum SyncFailureClass {
    Direct,
    Relay,
    Auth,
    Timeout,
    Contract,
}

/// What a failed exchange asks of the sweep.
#[derive(Clone, Debug, PartialEq, Eq)]
pub enum SyncOperationError {
    /// The segment stays here and is tried again later; the sweep goes on.
    RetainCandidate { diagnostic: DiagnosticCode, answer: String },
    /// The journal had the segment and removed it.
    SegmentRemoved,
    EndSweep(SyncFailureClass),
    EndSweepDiagnostic(SyncFailureClass, DiagnosticCode),
}

pub ghost enum OperationErrorView {
    RetainCandidate { diagnostic: DiagnosticCode, answer: Seq<char> },
    SegmentRemoved,
    EndSweep(SyncFailureClass),
    EndSweepDiagnostic(SyncFailureClass, DiagnosticCode),
}

impl View for SyncOperationError {
    type V = OperationErrorView;

    open spec fn view(&self) -> OperationErrorView {
        match *self {
            SyncOperationError::RetainCandidate { diagnostic, answer } => {
                OperationErrorView::RetainCandidate { diagnostic, answer: answer@ }
            },
            SyncOperationError::SegmentRemoved => OperationErrorView::SegmentRemoved,
            SyncOperationError::EndSweep(class) => OperationErrorView::EndSweep(class),
            SyncOperationError::EndSweepDiagnostic(class, code) => {
                OperationErrorView::EndSweepDiagnostic(class, code)
            },
        }
    }
}

/// The diagnostic of a failure that names none.
pub open spec fn failure_diagnostic(failure: SyncFailureClass) -> DiagnosticCode {
    match failure {
        SyncFailureClass::Auth => DiagnosticCode::JournalRevoked,
        SyncFailureClass::Timeout => DiagnosticCode::JournalTimeout,
        SyncFailureClass::Contract => DiagnosticCode::JournalContractInvalid,
        SyncFailureClass::Direct | SyncFailureClass::Relay => DiagnosticCode::JournalUnavailable,
    }
}

pub fn diagnostic_for_failure(failure: SyncFailureClass) -> (r: DiagnosticCode)
    ensures
        r == failure_diagnostic(failure),
{
    match failure {
        SyncFailureClass::Auth => DiagnosticCode::JournalRevoked,
        SyncFailureClass::Timeout => DiagnosticCode::JournalTimeout,
        SyncFailureClass::Contract => DiagnosticCode::JournalContractInvalid,
        SyncFailureClass::Direct | SyncFailureClass::Relay => DiagnosticCode::JournalUnavailable,
    }
}

/// An answer as the ledger keeps it: where it came from and what it was.
pub open spec fn answer_text(status: Option<u16>, otherwise: Seq<char>, what: Seq<char>) -> Seq<
    char,
> {
    match status {
        Some(status) => decimal(status as nat) + ":"@ + what,
        None => otherwise + ":"@ + what,
    }
}

fn write_answer(status: Option<u16>, otherwise: &str, what: &str) -> (r: String)
    ensures
        r@ == answer_text(status, otherwise@, what@),
{
    match status {
        Some(status) => concat3(decimal_text(status as u64).as_str(), ":", what),
        None => concat3(otherwise, ":", what),
    }
}

/// What the journal's refusal of a request asks of the sweep. A refusal of the
/// device or of the protocol ends it; one of the segment does not.
pub open spec fn rejection(reason: Option<JournalReasonCode>, status: Option<u16>) -> OperationErrorView {
    match reason {
        Some(JournalReasonCode::SegmentRemoved) => OperationErrorView::SegmentRemoved,
        Some(JournalReasonCode::ContentConflict) => OperationErrorView::RetainCandidate {
            diagnostic: DiagnosticCode::JournalRejected,
            answer: answer_text(status, "409"@, "content_conflict"@),
        },
        Some(JournalReasonCode::AuthKeyInvalid)
        | Some(JournalReasonCode::AuthRequired)
        | Some(JournalReasonCode::PlRevoked) => OperationErrorView::EndSweepDiagnostic(
            SyncFailureClass::Auth,
            DiagnosticCode::JournalRevoked,
        ),
        Some(JournalReasonCode::IngestContractInvalid) => OperationErrorView::RetainCandidate {
            diagnostic: DiagnosticCode::LocalSegmentInvalid,
            answer: answer_text(status, "400"@, "ingest_contract_invalid"@),
        },
        Some(JournalReasonCode::IngestNoFiles) => OperationErrorView::RetainCandidate {
            diagnostic: DiagnosticCode::LocalSegmentInvalid,
            answer: answer_text(status, "400"@, "ingest_no_files"@),
        },
        Some(JournalReasonCode::IngestSidecarConflict) => OperationErrorView::RetainCandidate {
            diagnostic: DiagnosticCode::LocalSegmentInvalid,
            answer: answer_text(status, "400"@, "ingest_sidecar_conflict"@),
        },
        Some(JournalReasonCode::IngestStorageFailed) => OperationErrorView::EndSweepDiagnostic(
            SyncFailureClass::Direct,
            DiagnosticCode::JournalRejected,
        ),
        _ => OperationErrorView::EndSweepDiagnostic(
            SyncFailureClass::Contract,
            DiagnosticCode::JournalRejected,
        ),
    }
}

/// What a failed exchange asks of the sweep.
pub open spec fn operation_error(error: JournalError) -> OperationErrorView {
    match error.diagnostic {
        DiagnosticCode::RequestTooLarge => OperationErrorView::RetainCandidate {
            diagnostic: error.diagnostic,
            answer: answer_text(error.http_status, "local"@, "request_too_large"@),
        },
        DiagnosticCode::LocalSegmentInvalid => OperationErrorView::RetainCandidate {
            diagnostic: error.diagnostic,
            answer: answer_text(error.http_status, "local"@, "local_segment_invalid"@),
        },
        DiagnosticCode::JournalTimeout => OperationErrorView::EndSweepDiagnostic(
            SyncFailureClass::Timeout,
            DiagnosticCode::JournalTimeout,
        ),
        DiagnosticCode::JournalRejected => rejection(error.reason_code, error.http_status),
        DiagnosticCode::JournalContractInvalid
        | DiagnosticCode::JournalResponseTooLarge
        | DiagnosticCode::ConfiguredStreamMismatch
        | DiagnosticCode::PrivateStateInvalid
        | DiagnosticCode::PrivateStateIo => OperationErrorView::EndSweepDiagnostic(
            SyncFailureClass::Contract,
            error.diagnostic,
        ),
        _ => OperationErrorView::EndSweepDiagnostic(SyncFailureClass::Direct, error.diagnostic),
    }
}

fn map_rejection(reason: Option<JournalReasonCode>, status: Option<u16>) -> (r: SyncOperationError)
    ensures
        r@ == rejection(reason, status),
{
    match reason {
        Some(JournalReasonCode::SegmentRemoved) => SyncOperationError::SegmentRemoved,
        Some(JournalReasonCode::ContentConflict) => SyncOperationError::RetainCandidate {
            diagnostic: DiagnosticCode::JournalRejected,
            answer: write_answer(status, "409", "content_conflict"),
        },
        Some(JournalReasonCode::AuthKeyInvalid)
        | Some(JournalReasonCode::AuthRequired)
        | Some(JournalReasonCode::PlRevoked) => SyncOperationError::EndSweepDiagnostic(
            SyncFailureClass::Auth,
            DiagnosticCode::JournalRevoked,
        ),
        Some(JournalReasonCode::IngestContractInvalid) => SyncOperationError::RetainCandidate {
            diagnostic: DiagnosticCode::LocalSegmentInvalid,
            answer: write_answer(status, "400", "ingest_contract_invalid"),
        },
        Some(JournalReasonCode::IngestNoFiles) => SyncOperationError::RetainCandidate {
            diagnostic: DiagnosticCode::LocalSegmentInvalid,
            answer: write_answer(status, "400", "ingest_no_files"),
        },
        Some(JournalReasonCode::IngestSidecarConflict) => SyncOperationError::RetainCandidate {
            diagnostic: DiagnosticCode::LocalSegmentInvalid,
            answer: write_answer(status, "400", "ingest_sidecar_conflict"),
        },
        Some(JournalReasonCode::IngestStorageFailed) => SyncOperationError::EndSweepDiagnostic(
            SyncFailureClass::Direct,
            DiagnosticCode::JournalRejected,
        ),
        _ => SyncOperationError::EndSweepDiagnostic(
            SyncFailureClass::Contract,
            DiagnosticCode::JournalRejected,
        ),
    }
}

/// What a failed exchange asks of the sweep.
pub fn map_journal_error(error: JournalError) -> (r: SyncOperationError)
    ensures
        r@ == operation_error(error),
{
    match error.diagnostic {
        DiagnosticCode::RequestTooLarge => SyncOperationError::RetainCandidate {
            diagnostic: error.diagnostic,
            answer: write_answer(error.http_status, "local", "request_too_large"),
        },
        DiagnosticCode::LocalSegmentInvalid => SyncOperationError::RetainCandidate {
            diagnostic: error.diagnostic,
            answer: write_answer(error.http_status, "local", "local_segment_invalid"),
        },
        DiagnosticCode::JournalTimeout => SyncOperationError::EndSweepDiagnostic(
            SyncFailureClass::Timeout,
            DiagnosticCode::JournalTimeout,
        ),
        DiagnosticCode::JournalRejected => map_rejection(error.reason_code, error.http_status),
        DiagnosticCode::JournalContractInvalid
        | DiagnosticCode::JournalResponseTooLarge
        | DiagnosticCode::ConfiguredStreamMismatch
        | DiagnosticCode::PrivateStateInvalid
        | DiagnosticCode::PrivateStateIo => SyncOperationError::EndSweepDiagnostic(
            SyncFailureClass::Contract,
            error.diagnostic,
        ),
        _ => SyncOperationError::EndSweepDiagnostic(SyncFailureClass::Direct, error.diagnostic),
    }
}

/// As `map_journal_error`, with one exception: once the bridge has stopped dialling,
/// an unavailable journal is one that refuses this device, not an outage.
pub fn map_bridge_error(error: JournalError, stopped: bool) -> (r: SyncOperationError)
    ensures
        r@ == if error.diagnostic == DiagnosticCode::JournalUnavailable && stopped {
            OperationErrorView::EndSweepDiagnostic(
                SyncFailureClass::Auth,
                DiagnosticCode::JournalRevoked,
            )
        } else {
            operation_error(error)
        },
{
    if error.diagnostic == DiagnosticCode::JournalUnavailable && stopped {
        return SyncOperationError::EndSweepDiagnostic(
            SyncFailureClass::Auth,
            DiagnosticCode::JournalRevoked,
        );
    }
    map_journal_error(error)
}

/// A segment counts as removed on the journal only where the journal gave that very
/// reason for a refusal.
pub proof fn lemma_removed_only_on_reason(error: JournalError)
    requires
        operation_error(error) is SegmentRemoved,
    ensures
        error.diagnostic == DiagnosticCode::JournalRejected,
        error.reason_code == Some(JournalReasonCode::SegmentRemoved),
{
}

/// A refusal of the device, or of the protocol version, ends the sweep: no further
/// segment is offered.
pub proof fn lemma_device_refusal_ends_sweep(error: JournalError)
    requires
        error.diagnostic == DiagnosticCode::JournalRejected,
        ({
            ||| error.reason_code == Some(JournalReasonCode::LinkedDeviceRequired)
            ||| error.reason_code == Some(JournalReasonCode::ProtocolVersionLegacy)
            ||| error.reason_code == Some(JournalReasonCode::ProtocolVersionFuture)
            ||| error.reason_code == Some(JournalReasonCode::AuthKeyInvalid)
            ||| error.reason_code == Some(JournalReasonCode::AuthRequired)
            ||| error.reason_code == Some(JournalReasonCode::PlRevoked)
        }),
    ensures
        operation_error(error) is EndSweepDiagnostic,
{
}

/// A failed exchange leaves the sweep going exactly where it is about the segment at
/// hand: it is too large or not valid here, or the journal refuses it for a reason of its
/// own. The segment's ledger then names the status, or where there is none its source,
/// and the reason.
pub proof fn lemma_sweep_goes_on_after_segment_errors(error: JournalError)
    ensures
        operation_error(error) is RetainCandidate <==> ({
            ||| error.diagnostic == DiagnosticCode::RequestTooLarge
            ||| error.diagnostic == DiagnosticCode::LocalSegmentInvalid
            ||| error.diagnostic == DiagnosticCode::JournalRejected && ({
                ||| error.reason_code == Some(JournalReasonCode::ContentConflict)
                ||| error.reason_code == Some(JournalReasonCode::IngestContractInvalid)
                ||| error.reason_code == Some(JournalReasonCode::IngestNoFiles)
                ||| error.reason_code == Some(JournalReasonCode::IngestSidecarConflict)
            })
        }),
        operation_error(error) is RetainCandidate && error.diagnostic
            != DiagnosticCode::JournalRejected ==> operation_error(error)->diagnostic
            == error.diagnostic,
        operation_error(error) is RetainCandidate && error.diagnostic
            == DiagnosticCode::JournalRejected ==> operation_error(error)->diagnostic == (
        if error.reason_code == Some(JournalReasonCode::ContentConflict) {
            DiagnosticCode::JournalRejected
        } else {
            DiagnosticCode::LocalSegmentInvalid
        }),
        operation_error(error) is SegmentRemoved <==> error.diagnostic
            == DiagnosticCode::JournalRejected && error.reason_code == Some(
            JournalReasonCode::SegmentRemoved,
        ),
{
}

/// The answer in a segment's ledger begins with the status that the journal gave, and
/// ends with what was wrong.
pub proof fn lemma_answer_names_status_and_reason(error: JournalError, status: u16)
    requires
        error.http_status == Some(status),
        operation_error(error) is RetainCandidate,
    ensures
        ({
            let what = if error.diagnostic == DiagnosticCode::RequestTooLarge {
                "request_too_large"@
            } else if error.diagnostic == DiagnosticCode::LocalSegmentInvalid {
                "local_segment_invalid"@
            } else if error.reason_code == Some(JournalReasonCode::ContentConflict) {
                "content_conflict"@
            } else if error.reason_code == Some(JournalReasonCode::IngestContractInvalid) {
                "ingest_contract_invalid"@
            } else if error.reason_code == Some(JournalReasonCode::IngestNoFiles) {
                "ingest_no_files"@
            } else {
                "ingest_sidecar_conflict"@
            };
            operation_error(error)->answer == decimal(status as nat) + ":"@ + what
        }),
{
}

/// An answer without a status is kept under the status that stands for it, or as a
/// finding of this side.
pub proof fn lemma_answer_without_status(error: JournalError)
    requires
        error.http_status is None,
        operation_error(error) is RetainCandidate,
    ensures
        error.diagnostic == DiagnosticCode::RequestTooLarge ==> operation_error(error)->answer
            == "local"@ + ":"@ + "request_too_large"@,
        error.diagnostic == DiagnosticCode::LocalSegmentInvalid ==> operation_error(error)->answer
            == "local"@ + ":"@ + "local_segment_invalid"@,
        error.diagnostic == DiagnosticCode::JournalRejected && error.reason_code == Some(
            JournalReasonCode::ContentConflict,
        ) ==> operation_error(error)->answer == "409"@ + ":"@ + "content_conflict"@,
        error.diagnostic == DiagnosticCode::JournalRejected && error.reason_code == Some(
            JournalReasonCode::IngestContractInvalid,
        ) ==> operation_error(error)->answer == "400"@ + ":"@ + "ingest_contract_invalid"@,
        error.diagnostic == DiagnosticCode::JournalRejected && error.reason_code == Some(
            JournalReasonCode::IngestNoFiles,
        ) ==> operation_error(error)->answer == "400"@ + ":"@ + "ingest_no_files"@,
        error.diagnostic == DiagnosticCode::JournalRejected && error.reason_code == Some(
            JournalReasonCode::IngestSidecarConflict,
        ) ==> operation_error(error)->answer == "400"@ + ":"@ + "ingest_sidecar_conflict"@,
{
}

/// Every other failed exchange ends the sweep, and is told apart: a refusal of the
/// device, a timeout, a breach of the contract, or a journal that cannot be had. Its
/// diagnostic is that of the error, but for a refusal of the device, which is a
/// revocation.
pub proof fn lemma_other_errors_end_the_sweep(error: JournalError)
    requires
        !(operation_error(error) is RetainCandidate),
        !(operation_error(error) is SegmentRemoved),
    ensures
        operation_error(error) matches OperationErrorView::EndSweepDiagnostic(class, code) && ({
            let refused = error.diagnostic == DiagnosticCode::JournalRejected;
            let device = refused && (error.reason_code == Some(JournalReasonCode::AuthKeyInvalid)
                || error.reason_code == Some(JournalReasonCode::AuthRequired)
                || error.reason_code == Some(JournalReasonCode::PlRevoked));
            let storage = refused && error.reason_code == Some(
                JournalReasonCode::IngestStorageFailed,
            );
            let contract = error.diagnostic == DiagnosticCode::JournalContractInvalid
                || error.diagnostic == DiagnosticCode::JournalResponseTooLarge || error.diagnostic
                == DiagnosticCode::ConfiguredStreamMismatch || error.diagnostic
                == DiagnosticCode::PrivateStateInvalid || error.diagnostic
                == DiagnosticCode::PrivateStateIo;
            &&& class == SyncFailureClass::Auth <==> device
            &&& class == SyncFailureClass::Timeout <==> error.diagnostic
                == DiagnosticCode::JournalTimeout
            &&& class == SyncFailureClass::Contract <==> contract || (refused && !device
                && !storage)
            &&& class != SyncFailureClass::Relay
            &&& device ==> code == DiagnosticCode::JournalRevoked
            &&& !device ==> code == error.diagnostic
        }),
{
}

/// Only a bridge that has stopped turns an unavailable journal into a refusal of the
/// device; every other error keeps its meaning.
pub proof fn lemma_stopped_bridge_is_a_refusal(error: JournalError, stopped: bool, r: SyncOperationError)
    requires
        call_ensures(map_bridge_error, (error, stopped), r),
    ensures
        stopped && error.diagnostic == DiagnosticCode::JournalUnavailable ==> r@
            == OperationErrorView::EndSweepDiagnostic(
            SyncFailureClass::Auth,
            DiagnosticCode::JournalRevoked,
        ),
        !stopped || error.diagnostic != DiagnosticCode::JournalUnavailable ==> r@
            == operation_error(error),
        !stopped && error.diagnostic == DiagnosticCode::JournalUnavailable ==> r@
            == OperationErrorView::EndSweepDiagnostic(
            SyncFailureClass::Direct,
            DiagnosticCode::JournalUnavailable,
        ),
{
}

} // verus!
