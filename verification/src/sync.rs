//! Synchronisation of captured segments with the journal.

pub mod backoff;
pub mod candidates;
pub mod credentials;
pub mod failure;
pub mod ledger;
pub mod removal;
pub mod schedule;
pub mod segments;
pub mod sweep;
pub mod task;

pub use backoff::{Backoff, SyncInstrumentation, SyncInstrumentationSnapshot};
pub use credentials::{AccessAttempt, Credential, CredentialPersistenceIssue, CredentialStore, ReadyPublication};
pub use failure::{map_bridge_error, map_journal_error, SyncFailureClass, SyncOperationError};
pub use ledger::{AckRecord, JournalIdentity, StateRecord};
pub use removal::{FileIdentity, RemovalResult, RetentionFence, SegmentRemovalStage};
pub use schedule::{SyncActivity, SyncWake};
pub use segments::{ResolvedSegmentFiles, SegmentCandidate};
pub use sweep::{Sweep, SyncCore, SyncSweepSummary};
