//! Files that survive a crash: frames that are appended whole or not at all, and
//! contents that are replaced in one step.

use vstd::prelude::*;
use vstd::string::*;
use vstd::utf8::*;

use crate::name::{is_component, lemma_component_is_single_entry};
use crate::paths::{
    contains_marker, copy_bytes, file_name, holds_marker, in_directory, join_path, joined_path,
    last_piece_start, last_start, lemma_entry_is_last_piece, path_file_name, same_bytes,
    single_entry, TargetState, SLASH,
};
use crate::text::{
    concat, concat3, copy, decimal, decimal_text, digits_value, lemma_decimal_is_read_back,
    lemma_encoding_of_concatenation, lossy_decoding, lossy_text, same_text,
};

verus! {

#[derive(Clone, Copy, Debug, PartialEq, Eq, Structural)]
pub enum MetadataLifecycle {
    Creating,
    Open,
    Finalizing,
}

#[derive(Clone, Debug, PartialEq, Eq)]
pub struct SessionMetadata {
    pub session: String,
    pub filename: String,
    pub last_frame_id: u64,
    pub durable_offset: u64,
}

/// No session stands in the list twice.
pub open spec fn each_session_once(sessions: Seq<(String, SessionMetadata)>) -> bool {
    forall|i: int, j: int|
        0 <= i < j < sessions.len() ==> (#[trigger] sessions[i]).0@ != (#[trigger] sessions[j]).0@
}

/// What is kept of a segment beside its frames. The sessions stand under their names,
/// each name once (`each_session_once`).
#[derive(Clone, Debug, PartialEq, Eq)]
pub struct SegmentMetadata {
    pub schema_version: u32,
    pub lifecycle: MetadataLifecycle,
    pub incomplete_dir: String,
    pub finalized_dir: String,
    pub start_wall_unix_nanos: i128,
    pub local_offset_seconds: i32,
    pub elapsed_nanos: u64,
    pub last_durable_frame_id: u64,
    pub durable_frame_count: u64,
    pub has_durable_frames: bool,
    pub sessions: Vec<(String, SessionMetadata)>,
}

impl SegmentMetadata {
    pub const SCHEMA_VERSION: u32 = 1;

    /// Whether no session stands in the metadata twice.
    pub fn names_sessions_once(&self) -> (r: bool)
        ensures
            r == each_session_once(self.sessions@),
    {
        let mut j: usize = 0;
        while j < self.sessions.len()
            invariant
                j <= self.sessions@.len(),
                each_session_once(self.sessions@.take(j as int)),
            decreases self.sessions@.len() - j,
        {
            let mut i: usize = 0;
            while i < j
                invariant
                    i <= j < self.sessions@.len(),
                    forall|a: int|
                        0 <= a < i ==> (#[trigger] self.sessions@[a]).0@
                            != self.sessions@[j as int].0@,
                decreases j - i,
            {
                if same_text(self.sessions[i].0.as_str(), self.sessions[j].0.as_str()) {
                    proof {
                        assert(self.sessions@[i as int].0@ == self.sessions@[j as int].0@);
                    }
                    return false;
                }
                i = i + 1;
            }
            proof {
                let (before, after) = (self.sessions@.take(j as int), self.sessions@.take(j + 1));
                assert forall|a: int, b: int| 0 <= a < b < after.len() implies (
                #[trigger] after[a]).0@ != (#[trigger] after[b]).0@ by {
                    assert(after[a] == self.sessions@[a] && after[b] == self.sessions@[b]);
                    if b < j {
                        assert(before[a] == after[a] && before[b] == after[b]);
                    }
                }
            }
            j = j + 1;
        }
        proof {
            assert(self.sessions@.take(self.sessions@.len() as int) =~= self.sessions@);
        }
        true
    }

    /// The contents of the metadata file: the metadata as JSON, and a newline.
    /// `serialized` is the JSON, or what was said where there is none.
    pub fn to_bytes(serialized: Result<Vec<u8>, String>) -> (r: Result<Vec<u8>, StorageError>)
        ensures
            match serialized {
                Ok(json) => r is Ok && r->Ok_0@ == json@.push(0x0a),
                Err(said) => r == Err::<Vec<u8>, StorageError>(StorageError::Serialize(said)),
            },
    {
        match serialized {
            Ok(mut bytes) => {
                bytes.push(0x0a);
                Ok(bytes)
            },
            Err(said) => Err(StorageError::Serialize(said)),
        }
    }
}

/// A frame that is to be appended, and the metadata that holds once it is.
#[derive(Debug)]
pub struct AppendFrame<'a> {
    pub filename: &'a str,
    pub previous_offset: u64,
    pub bytes: &'a [u8],
    pub proposed_metadata: SegmentMetadata,
}

/// A frame that was appended for good.
#[derive(Debug)]
pub struct DurableAppend {
    metadata: SegmentMetadata,
}

impl DurableAppend {
    #[verifier::type_invariant]
    spec fn well_formed(self) -> bool {
        each_session_once(self.metadata.sessions@)
    }

    /// The metadata that holds now.
    pub closed spec fn metadata(self) -> SegmentMetadata {
        self.metadata
    }

    pub fn accepted(metadata: SegmentMetadata) -> (r: Self)
        requires
            each_session_once(metadata.sessions@),
        ensures
            r.metadata() == metadata,
    {
        DurableAppend { metadata }
    }

    pub fn into_metadata(self) -> (r: SegmentMetadata)
        ensures
            r == self.metadata(),
            each_session_once(r.sessions@),
    {
        proof {
            use_type_invariant(&self);
        }
        self.metadata
    }
}

#[derive(Clone, Copy, Debug, PartialEq, Eq, Structural)]
pub enum StorageStage {
    Append,
    Flush,
    JsonFsync,
    Metadata,
    Rollback,
}

/// Failures that are brought about on purpose, in order.
#[derive(Clone, Debug)]
pub struct FaultPlan {
    pub stages: Vec<StorageStage>,
}

impl Default for FaultPlan {
    fn default() -> (r: Self)
        ensures
            r.stages@ == Seq::<StorageStage>::empty(),
    {
        FaultPlan { stages: Vec::new() }
    }
}

impl FaultPlan {
    pub fn at(stages: Vec<StorageStage>) -> (r: Self)
        ensures
            r.stages == stages,
    {
        FaultPlan { stages }
    }

    /// Whether the stage is to fail now. The failure that was planned is used up.
    pub fn fail(&mut self, stage: StorageStage) -> (r: bool)
        ensures
            (final(self).stages@, r) == planned(old(self).stages@, stage),
    {
        if self.stages.len() > 0 && self.stages[0] == stage {
            self.stages.remove(0);
            proof {
                assert(self.stages@ =~= old(self).stages@.drop_first());
            }
            true
        } else {
            false
        }
    }
}

// ---------------------------------------------------------------------------
// Errors
// ---------------------------------------------------------------------------

/// The bytes begin with those of the text.
pub open spec fn begins_with(bytes: Seq<u8>, text: Seq<char>) -> bool {
    encode_utf8(text).len() <= bytes.len() && bytes.take(encode_utf8(text).len() as int)
        == encode_utf8(text)
}

fn has_prefix(bytes: &[u8], text: &str) -> (r: bool)
    ensures
        r == begins_with(bytes@, text@),
{
    let wanted = text.as_bytes();
    if wanted.len() > bytes.len() {
        return false;
    }
    let front = vstd::slice::slice_subrange(bytes, 0, wanted.len());
    proof {
        assert(front@ =~= bytes@.take(wanted@.len() as int));
    }
    same_bytes(front, wanted)
}

/// The path is that of a capture file, whose name holds that of a session, or of a
/// temporary file for one.
pub open spec fn is_capture_path(path: Seq<u8>) -> bool {
    let name = path.skip(last_start(path));
    &&& begins_with(name, "tmux_"@) || begins_with(name, ".tmux_"@)
    &&& holds_marker(name, encode_utf8("_screen.jsonl"@))
}

/// A path as it stands in an error: the name of a capture file is left out.
pub open spec fn shown_path(path: Seq<u8>) -> Seq<char> {
    if is_capture_path(path) {
        lossy_decoding(path.take(last_start(path))) + "tmux_*_screen.jsonl"@
    } else {
        lossy_decoding(path)
    }
}

fn show_path(path: &[u8]) -> (r: String)
    ensures
        r@ == shown_path(path@),
{
    let start: usize = last_piece_start(path);
    let name = vstd::slice::slice_subrange(path, start, path.len());
    proof {
        assert(name@ =~= path@.skip(start as int));
    }
    if (has_prefix(name, "tmux_") || has_prefix(name, ".tmux_")) && contains_marker(
        name,
        "_screen.jsonl".as_bytes(),
    ) {
        let directory = vstd::slice::slice_subrange(path, 0, start);
        proof {
            assert(directory@ =~= path@.take(start as int));
        }
        concat(lossy_text(directory).as_str(), "tmux_*_screen.jsonl")
    } else {
        lossy_text(path)
    }
}

/// The name of a session's capture file.
pub open spec fn capture_file(session: Seq<char>) -> Seq<char> {
    "tmux_"@ + session + "_screen.jsonl"@
}

/// An error about a session's capture file shows the directory, and of the file nothing
/// that depends on the session.
pub proof fn lemma_session_file_is_hidden(directory: Seq<u8>, session: Seq<char>)
    requires
        is_component(session),
    ensures
        is_capture_path(join_path(directory, encode_utf8(capture_file(session)))),
        shown_path(join_path(directory, encode_utf8(capture_file(session)))) == lossy_decoding(
            in_directory(directory),
        ) + "tmux_*_screen.jsonl"@,
{
    let (head, tail) = ("tmux_"@, "_screen.jsonl"@);
    reveal_strlit("tmux_");
    reveal_strlit("_screen.jsonl");
    lemma_encoding_of_concatenation(head + session, tail);
    lemma_encoding_of_concatenation(head, session);
    lemma_component_is_single_entry(session);
    is_ascii_chars_encode_utf8(head);
    is_ascii_chars_encode_utf8(tail);
    let name = encode_utf8(capture_file(session));
    let (h, m) = (encode_utf8(head), encode_utf8(session));
    assert(single_entry(name)) by {
        assert forall|i: int| 0 <= i < name.len() implies #[trigger] name[i] != SLASH by {
            if i < h.len() {
                assert(name[i] == h[i]);
                assert(h[i] as u32 == head[i] as u32);
            } else if i < h.len() + m.len() {
                assert(name[i] == m[i - h.len()]);
            } else {
                let k = i - h.len() - m.len();
                assert(name[i] == encode_utf8(tail)[k]);
                assert(encode_utf8(tail)[k] as u32 == tail[k] as u32);
            }
        }
    }
    lemma_entry_is_last_piece(directory, name);
    let path = join_path(directory, name);
    assert(path.skip(last_start(path)) =~= name);
    assert(path.take(last_start(path)) =~= in_directory(directory));
    assert(name.take(h.len() as int) =~= h);
    let (at, end) = (encode_utf8(head + session).len() as int, encode_utf8(tail));
    assert(name.subrange(at, at + end.len()) =~= end);
}

/// What went wrong with a file. Paths are bytes; what the system said is text.
#[derive(Debug)]
pub enum StorageError {
    Serialize(String),
    InvalidTarget(Vec<u8>),
    OffsetMismatch { path: Vec<u8>, expected: u64, actual: u64 },
    Io { stage: &'static str, path: Vec<u8>, source: String },
    /// The append failed, and everything is as it was before.
    Recoverable(Box<StorageError>),
    /// The append failed, and so did putting back what was there before.
    Poisoned { operation: Box<StorageError>, rollback: Box<StorageError> },
    RollbackGroup { json: Option<Box<StorageError>>, metadata: Option<Box<StorageError>> },
}

impl StorageError {
    pub fn is_poisoned(&self) -> (r: bool)
        ensures
            r == (*self is Poisoned),
    {
        match self {
            StorageError::Poisoned { .. } => true,
            _ => false,
        }
    }

    pub open spec fn text(self) -> Seq<char>
        decreases self,
    {
        match self {
            StorageError::Serialize(said) => "metadata serialization failed: "@ + said@,
            StorageError::InvalidTarget(path) => "invalid file target: "@ + shown_path(path@),
            StorageError::OffsetMismatch { path, expected, actual } => shown_path(path@)
                + " has length "@ + decimal(actual as nat) + ", expected durable offset "@
                + decimal(expected as nat),
            StorageError::Io { stage, path, source } => stage@ + " failed for "@ + shown_path(
                path@,
            ) + ": "@ + source@,
            StorageError::Recoverable(error) => "append rolled back: "@ + error.text(),
            StorageError::Poisoned { operation, rollback } =>
                "append failed and rollback failed: operation="@ + operation.text() + "; rollback="@
                + rollback.text(),
            StorageError::RollbackGroup { json, metadata } => "rollback group failed (JSONL="@ + (
            match json {
                Some(error) => error.text(),
                None => "ok"@,
            }) + ", metadata="@ + (match metadata {
                Some(error) => error.text(),
                None => "ok"@,
            }) + ")"@,
        }
    }

    /// The error in words.
    pub fn message(&self) -> (r: String)
        ensures
            r@ == self.text(),
        decreases self,
    {
        match self {
            StorageError::Serialize(said) => {
                let mut out = copy("metadata serialization failed: ");
                out.append(said.as_str());
                out
            },
            StorageError::InvalidTarget(path) => {
                let mut out = copy("invalid file target: ");
                out.append(show_path(path.as_slice()).as_str());
                out
            },
            StorageError::OffsetMismatch { path, expected, actual } => {
                let mut out = show_path(path.as_slice());
                out.append(" has length ");
                out.append(decimal_text(*actual).as_str());
                out.append(", expected durable offset ");
                out.append(decimal_text(*expected).as_str());
                out
            },
            StorageError::Io { stage, path, source } => {
                let mut out = concat3(
                    stage,
                    " failed for ",
                    show_path(path.as_slice()).as_str(),
                );
                out.append(": ");
                out.append(source.as_str());
                out
            },
            StorageError::Recoverable(error) => {
                let mut out = copy("append rolled back: ");
                out.append(error.message().as_str());
                out
            },
            StorageError::Poisoned { operation, rollback } => {
                let mut out = copy("append failed and rollback failed: operation=");
                out.append(operation.message().as_str());
                out.append("; rollback=");
                out.append(rollback.message().as_str());
                out
            },
            StorageError::RollbackGroup { json, metadata } => {
                let mut out = copy("rollback group failed (JSONL=");
                match json {
                    Some(error) => out.append(error.message().as_str()),
                    None => out.append("ok"),
                }
                out.append(", metadata=");
                match metadata {
                    Some(error) => out.append(error.message().as_str()),
                    None => out.append("ok"),
                }
                out.append(")");
                out
            },
        }
    }
}

/// The paths differ at most in the name of a capture file.
pub open spec fn paths_alike(a: Seq<u8>, b: Seq<u8>) -> bool {
    a == b || (is_capture_path(a) && is_capture_path(b) && a.take(last_start(a)) == b.take(
        last_start(b),
    ))
}

/// The errors differ at most in the names of capture files.
pub open spec fn errors_alike(a: StorageError, b: StorageError) -> bool
    decreases a,
{
    match (a, b) {
        (StorageError::Serialize(x), StorageError::Serialize(y)) => x@ == y@,
        (StorageError::InvalidTarget(x), StorageError::InvalidTarget(y)) => paths_alike(x@, y@),
        (
            StorageError::OffsetMismatch { path, expected, actual },
            StorageError::OffsetMismatch { path: p, expected: e, actual: n },
        ) => paths_alike(path@, p@) && expected == e && actual == n,
        (
            StorageError::Io { stage, path, source },
            StorageError::Io { stage: s, path: p, source: t },
        ) => stage@ == s@ && paths_alike(path@, p@) && source@ == t@,
        (StorageError::Recoverable(x), StorageError::Recoverable(y)) => errors_alike(*x, *y),
        (
            StorageError::Poisoned { operation, rollback },
            StorageError::Poisoned { operation: o, rollback: r },
        ) => errors_alike(*operation, *o) && errors_alike(*rollback, *r),
        (
            StorageError::RollbackGroup { json, metadata },
            StorageError::RollbackGroup { json: j, metadata: m },
        ) => (match (json, j) {
            (Some(x), Some(y)) => errors_alike(*x, *y),
            (None, None) => true,
            _ => false,
        }) && (match (metadata, m) {
            (Some(x), Some(y)) => errors_alike(*x, *y),
            (None, None) => true,
            _ => false,
        }),
        _ => false,
    }
}

/// What an error says does not depend on the name of a session: errors that differ only
/// in the names of capture files read alike.
pub proof fn lemma_errors_name_no_session(a: StorageError, b: StorageError)
    requires
        errors_alike(a, b),
    ensures
        a.text() == b.text(),
    decreases a,
{
    match (a, b) {
        (StorageError::Recoverable(x), StorageError::Recoverable(y)) => {
            lemma_errors_name_no_session(*x, *y);
        },
        (
            StorageError::Poisoned { operation, rollback },
            StorageError::Poisoned { operation: o, rollback: r },
        ) => {
            lemma_errors_name_no_session(*operation, *o);
            lemma_errors_name_no_session(*rollback, *r);
        },
        (
            StorageError::RollbackGroup { json, metadata },
            StorageError::RollbackGroup { json: j, metadata: m },
        ) => {
            match (json, j) {
                (Some(x), Some(y)) => lemma_errors_name_no_session(*x, *y),
                _ => {},
            }
            match (metadata, m) {
                (Some(x), Some(y)) => lemma_errors_name_no_session(*x, *y),
                _ => {},
            }
        },
        _ => {},
    }
}

/// The error is that of an operation on a file.
pub open spec fn is_io(error: StorageError, stage: Seq<char>, path: Seq<u8>, source: Seq<char>) -> bool {
    error matches StorageError::Io { stage: at, path: on, source: said } && at@ == stage && on@ == path
        && said@ == source
}

pub(crate) fn io_error(stage: &'static str, path: &Vec<u8>, source: String) -> (r: StorageError)
    ensures
        is_io(r, stage@, path@, source@),
{
    StorageError::Io { stage, path: copy_bytes(path.as_slice()), source }
}

// ---------------------------------------------------------------------------
// Appending
// ---------------------------------------------------------------------------

/// What an append does next.
#[derive(Clone, Copy, Debug, PartialEq, Eq, Structural)]
pub enum AppendStep {
    Opening,
    /// Find out how long the file is.
    Measuring,
    Seeking,
    /// Write only so many bytes of the frame, since a failure is planned.
    WritingPart(usize),
    Writing,
    Flushing,
    Syncing,
    SyncingDirectory,
    Done,
    Failed,
}

#[derive(Debug)]
pub enum AppendEvent {
    Succeeded,
    /// The file is so long.
    Measured(u64),
    Failed(String),
    NotOpened(StorageError),
}

/// An append under way.
#[derive(Debug)]
pub struct AppendRun {
    pub path: Vec<u8>,
    pub directory: Vec<u8>,
    pub previous_offset: u64,
    pub length: usize,
    pub append_fault: bool,
    pub flush_fault: bool,
    pub fsync_fault: bool,
    pub step: AppendStep,
}

/// Half of the bytes, the odd one included.
pub open spec fn partial_length(length: usize) -> usize {
    (length / 2 + length % 2) as usize
}

/// What an append does after an event; an event that was not waited for changes
/// nothing.
pub open spec fn append_next(run: AppendRun, event: AppendEvent) -> AppendStep {
    match (run.step, event) {
        (AppendStep::Opening, AppendEvent::Succeeded) => AppendStep::Measuring,
        (AppendStep::Opening, AppendEvent::NotOpened(_)) => AppendStep::Failed,
        (AppendStep::Measuring, AppendEvent::Measured(length)) => if length == run.previous_offset {
            AppendStep::Seeking
        } else {
            AppendStep::Failed
        },
        (AppendStep::Measuring, AppendEvent::Failed(_)) => AppendStep::Failed,
        (AppendStep::Seeking, AppendEvent::Succeeded) => if run.append_fault {
            AppendStep::WritingPart(partial_length(run.length))
        } else {
            AppendStep::Writing
        },
        (AppendStep::Seeking, AppendEvent::Failed(_)) => AppendStep::Failed,
        (AppendStep::WritingPart(_), AppendEvent::Succeeded) => AppendStep::Failed,
        (AppendStep::WritingPart(_), AppendEvent::Failed(_)) => AppendStep::Failed,
        (AppendStep::Writing, AppendEvent::Succeeded) => if run.flush_fault {
            AppendStep::Failed
        } else {
            AppendStep::Flushing
        },
        (AppendStep::Writing, AppendEvent::Failed(_)) => AppendStep::Failed,
        (AppendStep::Flushing, AppendEvent::Succeeded) => if run.fsync_fault {
            AppendStep::Failed
        } else {
            AppendStep::Syncing
        },
        (AppendStep::Flushing, AppendEvent::Failed(_)) => AppendStep::Failed,
        (AppendStep::Syncing, AppendEvent::Succeeded) => AppendStep::SyncingDirectory,
        (AppendStep::Syncing, AppendEvent::Failed(_)) => AppendStep::Failed,
        (AppendStep::SyncingDirectory, AppendEvent::Succeeded) => AppendStep::Done,
        (AppendStep::SyncingDirectory, AppendEvent::Failed(_)) => AppendStep::Failed,
        _ => run.step,
    }
}

/// The error with which an event fails an append.
pub open spec fn is_append_error(run: AppendRun, event: AppendEvent, error: StorageError) -> bool {
    match (run.step, event) {
        (AppendStep::Opening, AppendEvent::NotOpened(said)) => error == said,
        (AppendStep::Measuring, AppendEvent::Measured(length)) => {
            error matches StorageError::OffsetMismatch { path, expected, actual } && path@
                == run.path@ && expected == run.previous_offset && actual == length
        },
        (AppendStep::Measuring, AppendEvent::Failed(said)) => is_io(
            error,
            "inspect append offset"@,
            run.path@,
            said@,
        ),
        (AppendStep::Seeking, AppendEvent::Failed(said)) => is_io(
            error,
            "seek append"@,
            run.path@,
            said@,
        ),
        (AppendStep::WritingPart(_), AppendEvent::Succeeded) => is_io(
            error,
            "append injection"@,
            run.path@,
            "injected Append failure"@,
        ),
        (AppendStep::WritingPart(_), AppendEvent::Failed(said)) => is_io(
            error,
            "partial append"@,
            run.path@,
            said@,
        ),
        (AppendStep::Writing, AppendEvent::Succeeded) => is_io(
            error,
            "flush injection"@,
            run.path@,
            "injected Flush failure"@,
        ),
        (AppendStep::Writing, AppendEvent::Failed(said)) => is_io(
            error,
            "append"@,
            run.path@,
            said@,
        ),
        (AppendStep::Flushing, AppendEvent::Succeeded) => is_io(
            error,
            "JSONL fsync injection"@,
            run.path@,
            "injected JsonFsync failure"@,
        ),
        (AppendStep::Flushing, AppendEvent::Failed(said)) => is_io(
            error,
            "flush"@,
            run.path@,
            said@,
        ),
        (AppendStep::Syncing, AppendEvent::Failed(said)) => is_io(
            error,
            "fsync JSONL"@,
            run.path@,
            said@,
        ),
        (AppendStep::SyncingDirectory, AppendEvent::Failed(said)) => is_io(
            error,
            "fsync directory"@,
            run.directory@,
            said@,
        ),
        _ => false,
    }
}

/// The planned failures that are left, and whether the stage fails.
pub open spec fn planned(stages: Seq<StorageStage>, stage: StorageStage) -> (
    Seq<StorageStage>,
    bool,
) {
    if stages.len() > 0 && stages[0] == stage {
        (stages.drop_first(), true)
    } else {
        (stages, false)
    }
}

impl AppendRun {
    /// An append of so many bytes at the end of the file, which must be at
    /// `previous_offset`. The failures that are planned for it are used up at once.
    pub fn begin(
        faults: &mut FaultPlan,
        directory: &[u8],
        filename: &str,
        previous_offset: u64,
        length: usize,
    ) -> (r: Self)
        ensures
            ({
                let append = planned(old(faults).stages@, StorageStage::Append);
                let flush = planned(append.0, StorageStage::Flush);
                let fsync = planned(flush.0, StorageStage::JsonFsync);
                &&& final(faults).stages@ == fsync.0
                &&& r.append_fault == append.1
                &&& r.flush_fault == flush.1
                &&& r.fsync_fault == fsync.1
            }),
            r.path@ == join_path(directory@, encode_utf8(filename@)),
            r.directory@ == directory@,
            r.previous_offset == previous_offset,
            r.length == length,
            r.step == AppendStep::Opening,
    {
        let append_fault = faults.fail(StorageStage::Append);
        let flush_fault = faults.fail(StorageStage::Flush);
        let fsync_fault = faults.fail(StorageStage::JsonFsync);
        AppendRun {
            path: joined_path(directory, filename.as_bytes()),
            directory: copy_bytes(directory),
            previous_offset,
            length,
            append_fault,
            flush_fault,
            fsync_fault,
            step: AppendStep::Opening,
        }
    }

    /// Takes an event in. The result is the error where the append has failed with it.
    pub fn advance(&mut self, event: AppendEvent) -> (r: Option<StorageError>)
        ensures
            *final(self) == (AppendRun { step: append_next(*old(self), event), ..*old(self) }),
            match r {
                Some(error) => final(self).step == AppendStep::Failed && old(self).step
                    != AppendStep::Failed && is_append_error(*old(self), event, error),
                None => final(self).step == AppendStep::Failed ==> old(self).step
                    == AppendStep::Failed,
            },
    {
        let (next, error) = match (self.step, event) {
            (AppendStep::Opening, AppendEvent::Succeeded) => (AppendStep::Measuring, None),
            (AppendStep::Opening, AppendEvent::NotOpened(error)) => (
                AppendStep::Failed,
                Some(error),
            ),
            (AppendStep::Measuring, AppendEvent::Measured(length)) => {
                if length == self.previous_offset {
                    (AppendStep::Seeking, None)
                } else {
                    (
                        AppendStep::Failed,
                        Some(
                            StorageError::OffsetMismatch {
                                path: copy_bytes(self.path.as_slice()),
                                expected: self.previous_offset,
                                actual: length,
                            },
                        ),
                    )
                }
            },
            (AppendStep::Measuring, AppendEvent::Failed(said)) => (
                AppendStep::Failed,
                Some(io_error("inspect append offset", &self.path, said)),
            ),
            (AppendStep::Seeking, AppendEvent::Succeeded) => {
                if self.append_fault {
                    let part: usize = self.length / 2 + self.length % 2;
                    (AppendStep::WritingPart(part), None)
                } else {
                    (AppendStep::Writing, None)
                }
            },
            (AppendStep::Seeking, AppendEvent::Failed(said)) => (
                AppendStep::Failed,
                Some(io_error("seek append", &self.path, said)),
            ),
            (AppendStep::WritingPart(_), AppendEvent::Succeeded) => (
                AppendStep::Failed,
                Some(io_error("append injection", &self.path, copy("injected Append failure"))),
            ),
            (AppendStep::WritingPart(_), AppendEvent::Failed(said)) => (
                AppendStep::Failed,
                Some(io_error("partial append", &self.path, said)),
            ),
            (AppendStep::Writing, AppendEvent::Succeeded) => {
                if self.flush_fault {
                    (
                        AppendStep::Failed,
                        Some(
                            io_error("flush injection", &self.path, copy("injected Flush failure")),
                        ),
                    )
                } else {
                    (AppendStep::Flushing, None)
                }
            },
            (AppendStep::Writing, AppendEvent::Failed(said)) => (
                AppendStep::Failed,
                Some(io_error("append", &self.path, said)),
            ),
            (AppendStep::Flushing, AppendEvent::Succeeded) => {
                if self.fsync_fault {
                    (
                        AppendStep::Failed,
                        Some(
                            io_error(
                                "JSONL fsync injection",
                                &self.path,
                                copy("injected JsonFsync failure"),
                            ),
                        ),
                    )
                } else {
                    (AppendStep::Syncing, None)
                }
            },
            (AppendStep::Flushing, AppendEvent::Failed(said)) => (
                AppendStep::Failed,
                Some(io_error("flush", &self.path, said)),
            ),
            (AppendStep::Syncing, AppendEvent::Succeeded) => (AppendStep::SyncingDirectory, None),
            (AppendStep::Syncing, AppendEvent::Failed(said)) => (
                AppendStep::Failed,
                Some(io_error("fsync JSONL", &self.path, said)),
            ),
            (AppendStep::SyncingDirectory, AppendEvent::Succeeded) => (AppendStep::Done, None),
            (AppendStep::SyncingDirectory, AppendEvent::Failed(said)) => (
                AppendStep::Failed,
                Some(io_error("fsync directory", &self.directory, said)),
            ),
            _ => (self.step, None),
        };
        self.step = next;
        error
    }
}

/// The bytes of a frame are written only at the offset that the metadata names: a
/// file of another length is never written to.
pub proof fn lemma_write_needs_offset(run: AppendRun, event: AppendEvent)
    requires
        append_next(run, event) == AppendStep::Seeking,
        run.step != AppendStep::Seeking,
    ensures
        run.step == AppendStep::Measuring,
        event == AppendEvent::Measured(run.previous_offset),
{
}

/// An append counts as done only after the file and its directory were synced.
pub proof fn lemma_done_is_synced(run: AppendRun, event: AppendEvent)
    requires
        append_next(run, event) == AppendStep::Done,
        run.step != AppendStep::Done,
    ensures
        run.step == AppendStep::SyncingDirectory,
        event is Succeeded,
{
}

/// The error where a failure is planned for the metadata.
pub fn planned_metadata_failure(faults: &mut FaultPlan, path: &Vec<u8>) -> (r: Option<StorageError>)
    ensures
        final(faults).stages@ == planned(old(faults).stages@, StorageStage::Metadata).0,
        r is Some == planned(old(faults).stages@, StorageStage::Metadata).1,
        r is Some ==> is_io(
            r->0,
            "metadata injection"@,
            path@,
            "injected Metadata failure"@,
        ),
{
    if faults.fail(StorageStage::Metadata) {
        Some(io_error("metadata injection", path, copy("injected Metadata failure")))
    } else {
        None
    }
}

/// The error of an append that failed with `operation`: recoverable where the file was
/// put back, else poisoned by the error of putting it back.
pub open spec fn is_failed_append(
    error: StorageError,
    operation: StorageError,
    rollback: Option<StorageError>,
) -> bool {
    match rollback {
        None => error matches StorageError::Recoverable(inner) && *inner == operation,
        Some(failed) => error matches StorageError::Poisoned { operation: first, rollback: second }
            && *first == operation && *second == failed,
    }
}

/// What a failed append comes to. `rollback` is the error of putting the file back,
/// where that failed too.
pub fn conclude_failed_append(operation: StorageError, rollback: Option<StorageError>) -> (r:
    StorageError)
    ensures
        is_failed_append(r, operation, rollback),
{
    match rollback {
        None => StorageError::Recoverable(Box::new(operation)),
        Some(failed) => StorageError::Poisoned {
            operation: Box::new(operation),
            rollback: Box::new(failed),
        },
    }
}

fn boxed(error: Option<StorageError>) -> (r: Option<Box<StorageError>>)
    ensures
        match error {
            Some(error) => r is Some && *r->0 == error,
            None => r is None,
        },
{
    match error {
        Some(error) => Some(Box::new(error)),
        None => None,
    }
}

/// The error in the box, where there is one.
pub open spec fn unboxed(error: Option<Box<StorageError>>) -> Option<StorageError> {
    match error {
        Some(error) => Some(*error),
        None => None,
    }
}

/// The error of an append whose frame was written and whose metadata failed with
/// `operation`: recoverable where both files were put back, else poisoned.
pub open spec fn is_failed_metadata(
    error: StorageError,
    operation: StorageError,
    json: Option<StorageError>,
    metadata: Option<StorageError>,
) -> bool {
    if json is None && metadata is None {
        error matches StorageError::Recoverable(inner) && *inner == operation
    } else {
        error matches StorageError::Poisoned { operation: first, rollback } && *first == operation
            && (*rollback matches StorageError::RollbackGroup { json: frames, metadata: rest }
            && unboxed(frames) == json && unboxed(rest) == metadata)
    }
}

/// What an append comes to whose frame was written and whose metadata was not. `json`
/// and `metadata` are the errors of putting the two files back, where that failed.
pub fn conclude_failed_metadata(
    operation: StorageError,
    json: Option<StorageError>,
    metadata: Option<StorageError>,
) -> (r: StorageError)
    ensures
        is_failed_metadata(r, operation, json, metadata),
{
    if json.is_none() && metadata.is_none() {
        return StorageError::Recoverable(Box::new(operation));
    }
    StorageError::Poisoned {
        operation: Box::new(operation),
        rollback: Box::new(
            StorageError::RollbackGroup { json: boxed(json), metadata: boxed(metadata) },
        ),
    }
}

// ---------------------------------------------------------------------------
// Replacing contents
// ---------------------------------------------------------------------------

/// What a replacement does next.
#[derive(Clone, Copy, Debug, PartialEq, Eq, Structural)]
pub enum AtomicStep {
    /// Create the temporary file, which must not be there.
    Creating,
    Restricting,
    Writing,
    Flushing,
    Syncing,
    /// Put the temporary file in the place of the other one.
    Renaming,
    SyncingDirectory,
    Done,
    /// Remove the temporary file.
    Failed,
}

/// A replacement under way.
#[derive(Debug)]
pub struct AtomicWrite {
    pub path: Vec<u8>,
    pub parent: Vec<u8>,
    pub temporary: Vec<u8>,
    pub bytes: Vec<u8>,
    pub step: AtomicStep,
}

/// The name of the temporary file.
pub open spec fn temporary_name(name: Seq<u8>, process_id: u32, counter: u64) -> Seq<char> {
    "."@ + lossy_decoding(name) + "."@ + decimal(process_id as nat) + "."@ + decimal(counter as nat)
        + ".tmp"@
}

/// The step after one that worked.
pub open spec fn atomic_next(step: AtomicStep) -> AtomicStep {
    match step {
        AtomicStep::Creating => AtomicStep::Restricting,
        AtomicStep::Restricting => AtomicStep::Writing,
        AtomicStep::Writing => AtomicStep::Flushing,
        AtomicStep::Flushing => AtomicStep::Syncing,
        AtomicStep::Syncing => AtomicStep::Renaming,
        AtomicStep::Renaming => AtomicStep::SyncingDirectory,
        AtomicStep::SyncingDirectory => AtomicStep::Done,
        AtomicStep::Done => AtomicStep::Done,
        AtomicStep::Failed => AtomicStep::Failed,
    }
}

/// A replacement that has come to its end.
pub open spec fn is_settled(step: AtomicStep) -> bool {
    step == AtomicStep::Done || step == AtomicStep::Failed
}

/// What a step is called in an error.
pub open spec fn atomic_stage(step: AtomicStep) -> Seq<char> {
    match step {
        AtomicStep::Creating => "create metadata temporary"@,
        AtomicStep::Restricting => "set metadata permissions"@,
        AtomicStep::Writing => "write metadata"@,
        AtomicStep::Flushing => "flush metadata"@,
        AtomicStep::Syncing => "fsync metadata"@,
        AtomicStep::Renaming => "rename metadata"@,
        _ => "fsync directory"@,
    }
}

/// The path that a step is about.
pub open spec fn atomic_path(write: AtomicWrite) -> Seq<u8> {
    match write.step {
        AtomicStep::Renaming => write.path@,
        AtomicStep::SyncingDirectory => write.parent@,
        _ => write.temporary@,
    }
}

/// What keeps a replacement from beginning.
pub open spec fn is_target_error(
    path: Seq<u8>,
    target: TargetState,
    said: Seq<char>,
    error: StorageError,
) -> bool {
    if target == TargetState::Unreadable {
        is_io(error, "inspect atomic write target"@, path, said)
    } else {
        (target == TargetState::NotRegular || file_name(path) is None)
            && (error matches StorageError::InvalidTarget(at) && at@ == path)
    }
}

/// A replacement of the contents of the file at `path`: it must be a regular file, or
/// not be there. `said` is what the system said where it could not be looked at.
pub fn atomic_write_bytes(
    path: &[u8],
    parent: &[u8],
    bytes: Vec<u8>,
    target: TargetState,
    said: String,
    process_id: u32,
    counter: u64,
) -> (r: Result<AtomicWrite, StorageError>)
    ensures
        match r {
            Ok(write) => {
                &&& target == TargetState::Regular || target == TargetState::NotFound
                &&& file_name(path@) is Some
                &&& write.path@ == path@
                &&& write.parent@ == parent@
                &&& write.bytes == bytes
                &&& write.step == AtomicStep::Creating
                &&& write.temporary@ == join_path(
                    parent@,
                    encode_utf8(temporary_name(file_name(path@)->0, process_id, counter)),
                )
            },
            Err(error) => is_target_error(path@, target, said@, error),
        },
{
    match target {
        TargetState::NotRegular => {
            return Err(StorageError::InvalidTarget(copy_bytes(path)));
        },
        TargetState::Unreadable => {
            return Err(
                StorageError::Io {
                    stage: "inspect atomic write target",
                    path: copy_bytes(path),
                    source: said,
                },
            );
        },
        _ => {},
    }
    let name = match path_file_name(path) {
        Some(name) => name,
        None => return Err(StorageError::InvalidTarget(copy_bytes(path))),
    };
    let mut file = concat3(".", lossy_text(name.as_slice()).as_str(), ".");
    file.append(decimal_text(process_id as u64).as_str());
    file.append(".");
    file.append(decimal_text(counter).as_str());
    file.append(".tmp");
    Ok(
        AtomicWrite {
            path: copy_bytes(path),
            parent: copy_bytes(parent),
            temporary: joined_path(parent, file.as_str().as_bytes()),
            bytes,
            step: AtomicStep::Creating,
        },
    )
}

/// A replacement of the metadata file by the metadata that was serialized.
pub fn atomic_write_metadata(
    path: &[u8],
    parent: &[u8],
    serialized: Result<Vec<u8>, String>,
    target: TargetState,
    said: String,
    process_id: u32,
    counter: u64,
) -> (r: Result<AtomicWrite, StorageError>)
    ensures
        match serialized {
            Err(reason) => r == Err::<AtomicWrite, StorageError>(StorageError::Serialize(reason)),
            Ok(json) => match r {
                Ok(write) => {
                    &&& target == TargetState::Regular || target == TargetState::NotFound
                    &&& file_name(path@) is Some
                    &&& write.path@ == path@
                    &&& write.parent@ == parent@
                    &&& write.bytes@ == json@.push(0x0a)
                    &&& write.step == AtomicStep::Creating
                    &&& write.temporary@ == join_path(
                        parent@,
                        encode_utf8(temporary_name(file_name(path@)->0, process_id, counter)),
                    )
                },
                Err(error) => is_target_error(path@, target, said@, error),
            },
        },
{
    match SegmentMetadata::to_bytes(serialized) {
        Ok(bytes) => atomic_write_bytes(path, parent, bytes, target, said, process_id, counter),
        Err(error) => Err(error),
    }
}

impl AtomicWrite {
    /// The step at hand worked, or failed with what the system said. The result is the
    /// error where it failed.
    pub fn advance(&mut self, failed: Option<String>) -> (r: Option<StorageError>)
        ensures
            final(self).path == old(self).path,
            final(self).parent == old(self).parent,
            final(self).temporary == old(self).temporary,
            final(self).bytes == old(self).bytes,
            match failed {
                None => r is None && final(self).step == atomic_next(old(self).step),
                Some(said) => if is_settled(old(self).step) {
                    r is None && final(self).step == old(self).step
                } else {
                    &&& final(self).step == AtomicStep::Failed
                    &&& r is Some
                    &&& is_io(r->0, atomic_stage(old(self).step), atomic_path(*old(self)), said@)
                },
            },
    {
        let said = match failed {
            None => {
                self.step = match self.step {
                    AtomicStep::Creating => AtomicStep::Restricting,
                    AtomicStep::Restricting => AtomicStep::Writing,
                    AtomicStep::Writing => AtomicStep::Flushing,
                    AtomicStep::Flushing => AtomicStep::Syncing,
                    AtomicStep::Syncing => AtomicStep::Renaming,
                    AtomicStep::Renaming => AtomicStep::SyncingDirectory,
                    AtomicStep::SyncingDirectory => AtomicStep::Done,
                    AtomicStep::Done => AtomicStep::Done,
                    AtomicStep::Failed => AtomicStep::Failed,
                };
                return None;
            },
            Some(said) => said,
        };
        let error = match self.step {
            AtomicStep::Creating => io_error("create metadata temporary", &self.temporary, said),
            AtomicStep::Restricting => io_error("set metadata permissions", &self.temporary, said),
            AtomicStep::Writing => io_error("write metadata", &self.temporary, said),
            AtomicStep::Flushing => io_error("flush metadata", &self.temporary, said),
            AtomicStep::Syncing => io_error("fsync metadata", &self.temporary, said),
            AtomicStep::Renaming => io_error("rename metadata", &self.path, said),
            AtomicStep::SyncingDirectory => io_error("fsync directory", &self.parent, said),
            _ => return None,
        };
        self.step = AtomicStep::Failed;
        Some(error)
    }
}

/// Where a replacement stands after its steps worked (`true`) or failed.
pub open spec fn atomic_run(outcomes: Seq<bool>) -> AtomicStep
    decreases outcomes.len(),
{
    if outcomes.len() == 0 {
        AtomicStep::Creating
    } else {
        let before = atomic_run(outcomes.drop_last());
        if outcomes.last() || is_settled(before) {
            atomic_next(before)
        } else {
            AtomicStep::Failed
        }
    }
}

/// How many steps have worked where a replacement has got so far.
pub open spec fn steps_behind(step: AtomicStep) -> int {
    match step {
        AtomicStep::Creating => 0,
        AtomicStep::Restricting => 1,
        AtomicStep::Writing => 2,
        AtomicStep::Flushing => 3,
        AtomicStep::Syncing => 4,
        AtomicStep::Renaming => 5,
        AtomicStep::SyncingDirectory => 6,
        AtomicStep::Done => 7,
        AtomicStep::Failed => 0,
    }
}

/// The old contents are replaced only after the new ones were written to the temporary
/// file, flushed and synced: a replacement that gets to the renaming has every step
/// before it behind it, and one that is done has all of them.
pub proof fn lemma_replaced_only_when_synced(outcomes: Seq<bool>)
    ensures
        steps_behind(atomic_run(outcomes)) <= outcomes.len(),
        forall|i: int| 0 <= i < steps_behind(atomic_run(outcomes)) ==> #[trigger] outcomes[i],
        atomic_run(outcomes) == AtomicStep::Renaming ==> outcomes.len() == 5,
    decreases outcomes.len(),
{
    if outcomes.len() > 0 {
        let before = outcomes.drop_last();
        lemma_replaced_only_when_synced(before);
        lemma_unsettled_counts(before);
        assert forall|i: int| 0 <= i < steps_behind(atomic_run(outcomes)) implies #[trigger] outcomes[i] by {
            if i < before.len() {
                assert(before[i] == outcomes[i]);
            }
        }
    }
}

proof fn lemma_unsettled_counts(outcomes: Seq<bool>)
    ensures
        !is_settled(atomic_run(outcomes)) ==> steps_behind(atomic_run(outcomes)) == outcomes.len(),
    decreases outcomes.len(),
{
    if outcomes.len() > 0 {
        lemma_unsettled_counts(outcomes.drop_last());
    }
}

/// An append whose every step works, with no failure planned, to a file of the length that
/// is expected, is done.
pub proof fn lemma_append_without_failure_is_done(run: AppendRun)
    requires
        !run.append_fault,
        !run.flush_fault,
        !run.fsync_fault,
    ensures
        run.step == AppendStep::Opening ==> append_next(run, AppendEvent::Succeeded)
            == AppendStep::Measuring,
        run.step == AppendStep::Measuring ==> append_next(
            run,
            AppendEvent::Measured(run.previous_offset),
        ) == AppendStep::Seeking,
        run.step == AppendStep::Seeking ==> append_next(run, AppendEvent::Succeeded)
            == AppendStep::Writing,
        run.step == AppendStep::Writing ==> append_next(run, AppendEvent::Succeeded)
            == AppendStep::Flushing,
        run.step == AppendStep::Flushing ==> append_next(run, AppendEvent::Succeeded)
            == AppendStep::Syncing,
        run.step == AppendStep::Syncing ==> append_next(run, AppendEvent::Succeeded)
            == AppendStep::SyncingDirectory,
        run.step == AppendStep::SyncingDirectory ==> append_next(run, AppendEvent::Succeeded)
            == AppendStep::Done,
{
}

/// Whatever fails, and a file of another length, fails the append at once, at whatever
/// step it stands.
pub proof fn lemma_append_fails_with_its_step(run: AppendRun, said: String, length: u64, error: StorageError)
    ensures
        run.step == AppendStep::Opening ==> append_next(run, AppendEvent::NotOpened(error))
            == AppendStep::Failed,
        run.step == AppendStep::Measuring && length != run.previous_offset ==> append_next(
            run,
            AppendEvent::Measured(length),
        ) == AppendStep::Failed,
        !(run.step == AppendStep::Opening || run.step == AppendStep::Done) ==> append_next(
            run,
            AppendEvent::Failed(said),
        ) == AppendStep::Failed,
        run.step == AppendStep::Done ==> append_next(run, AppendEvent::Failed(said))
            == AppendStep::Done,
{
}

/// A failure that is planned comes at its stage: after a part of the frame was written,
/// before it is flushed, or before it is synced. The part is never more than the frame.
pub proof fn lemma_planned_failures_come(run: AppendRun)
    ensures
        run.append_fault && run.step == AppendStep::Seeking ==> append_next(
            run,
            AppendEvent::Succeeded,
        ) is WritingPart,
        run.append_fault && run.step == AppendStep::Seeking && run.length > 0 ==> 0 < append_next(
            run,
            AppendEvent::Succeeded,
        )->WritingPart_0 <= run.length,
        run.step is WritingPart ==> append_next(run, AppendEvent::Succeeded)
            == AppendStep::Failed,
        run.flush_fault && run.step == AppendStep::Writing ==> append_next(
            run,
            AppendEvent::Succeeded,
        ) == AppendStep::Failed,
        run.fsync_fault && run.step == AppendStep::Flushing ==> append_next(
            run,
            AppendEvent::Succeeded,
        ) == AppendStep::Failed,
{
}

/// A failed append is recoverable exactly where everything was put back, and always tells
/// what failed first; one that could not be put back also tells why.
pub proof fn lemma_recoverable_only_when_put_back(
    operation: StorageError,
    json: Option<StorageError>,
    metadata: Option<StorageError>,
    append: StorageError,
    whole: StorageError,
)
    requires
        call_ensures(conclude_failed_append, (operation, json), append),
        call_ensures(conclude_failed_metadata, (operation, json, metadata), whole),
    ensures
        append is Recoverable <==> json is None,
        append is Poisoned <==> json is Some,
        append matches StorageError::Recoverable(inner) ==> *inner == operation,
        append matches StorageError::Poisoned { operation: first, rollback } ==> *first == operation
            && *rollback == json->0,
        whole is Recoverable <==> json is None && metadata is None,
        whole is Poisoned <==> json is Some || metadata is Some,
        whole matches StorageError::Recoverable(inner) ==> *inner == operation,
        whole matches StorageError::Poisoned { operation: first, .. } ==> *first == operation,
{
}

/// A replacement whose every step works is done after the seventh, and one whose step
/// failed is never done.
pub proof fn lemma_replacement_is_done(outcomes: Seq<bool>)
    ensures
        outcomes.len() >= 7 && (forall|i: int| 0 <= i < outcomes.len() ==> #[trigger] outcomes[i])
            ==> atomic_run(outcomes) == AtomicStep::Done,
        outcomes.len() <= 7 && (exists|i: int| 0 <= i < outcomes.len() && !#[trigger] outcomes[i])
            ==> atomic_run(outcomes) == AtomicStep::Failed,
    decreases outcomes.len(),
{
    if outcomes.len() >= 7 && (forall|i: int|
        0 <= i < outcomes.len() ==> #[trigger] outcomes[i]) {
        lemma_steps_that_work(outcomes);
    }
    if outcomes.len() > 0 && outcomes.len() <= 7 && (exists|i: int|
        0 <= i < outcomes.len() && !#[trigger] outcomes[i]) {
        let before = outcomes.drop_last();
        let i = choose|i: int| 0 <= i < outcomes.len() && !#[trigger] outcomes[i];
        lemma_replacement_is_done(before);
        if i < before.len() {
            assert(!before[i]);
        } else if exists|j: int| 0 <= j < before.len() && !#[trigger] before[j] {
        } else {
            assert forall|j: int| 0 <= j < before.len() implies #[trigger] before[j] by {}
            lemma_steps_that_work(before);
        }
    }
}

proof fn lemma_steps_that_work(outcomes: Seq<bool>)
    requires
        forall|i: int| 0 <= i < outcomes.len() ==> #[trigger] outcomes[i],
    ensures
        atomic_run(outcomes) != AtomicStep::Failed,
        outcomes.len() < 7 ==> steps_behind(atomic_run(outcomes)) == outcomes.len(),
        outcomes.len() >= 7 ==> atomic_run(outcomes) == AtomicStep::Done,
    decreases outcomes.len(),
{
    if outcomes.len() > 0 {
        let before = outcomes.drop_last();
        assert forall|i: int| 0 <= i < before.len() implies #[trigger] before[i] by {
            assert(before[i] == outcomes[i]);
        }
        lemma_steps_that_work(before);
        assert(outcomes[outcomes.len() - 1]);
    }
}

/// Contents are replaced exactly where the target is a regular file or is not there and
/// its path ends in a name; the new contents and the target are those that were named.
pub proof fn lemma_what_can_be_replaced(
    path: &[u8],
    parent: &[u8],
    bytes: Vec<u8>,
    target: TargetState,
    said: String,
    process_id: u32,
    counter: u64,
    r: Result<AtomicWrite, StorageError>,
)
    requires
        call_ensures(
            atomic_write_bytes,
            (path, parent, bytes, target, said, process_id, counter),
            r,
        ),
    ensures
        r is Ok <==> (target == TargetState::Regular || target == TargetState::NotFound)
            && file_name(path@) is Some,
        r is Ok ==> r->Ok_0.bytes@ == bytes@ && r->Ok_0.path@ == path@ && r->Ok_0.parent@ == parent@
            && r->Ok_0.step == AtomicStep::Creating,
        target == TargetState::NotRegular ==> r is Err && r->Err_0 is InvalidTarget,
        target == TargetState::Unreadable ==> r is Err && r->Err_0 is Io,
{
}

/// Two replacements of one process never share a temporary file, as long as their numbers
/// differ.
pub proof fn lemma_temporary_files_differ(name: Seq<u8>, process_id: u32, a: u64, b: u64)
    requires
        a != b,
    ensures
        temporary_name(name, process_id, a) != temporary_name(name, process_id, b),
{
    reveal_strlit(".tmp");
    let x = temporary_name(name, process_id, a);
    let y = temporary_name(name, process_id, b);
    let front = "."@ + lossy_decoding(name) + "."@ + decimal(process_id as nat) + "."@;
    let n = front.len() as int;
    lemma_decimal_is_read_back(a as nat, a as nat);
    lemma_decimal_is_read_back(b as nat, b as nat);
    assert(x =~= front + decimal(a as nat) + ".tmp"@);
    assert(y =~= front + decimal(b as nat) + ".tmp"@);
    if x == y {
        assert(x.subrange(n, x.len() - 4) =~= decimal(a as nat));
        assert(y.subrange(n, y.len() - 4) =~= decimal(b as nat));
        assert(digits_value(decimal(a as nat)) == digits_value(decimal(b as nat)));
    }
}

/// Metadata is written as its JSON with a newline behind it.
pub proof fn lemma_metadata_ends_with_a_newline(
    serialized: Result<Vec<u8>, String>,
    r: Result<Vec<u8>, StorageError>,
)
    requires
        call_ensures(SegmentMetadata::to_bytes, (serialized,), r),
    ensures
        r is Ok <==> serialized is Ok,
        r is Ok ==> r->Ok_0@.drop_last() == serialized->Ok_0@ && r->Ok_0@.last() == 0x0a,
        r is Err ==> r->Err_0 == StorageError::Serialize(serialized->Err_0),
{
    if r is Ok {
        assert(r->Ok_0@.drop_last() =~= serialized->Ok_0@);
    }
}

/// A planned failure comes exactly when its stage is next in the plan, and is then used
/// up; the others keep their order.
pub proof fn lemma_failures_come_in_order(first: StorageStage, rest: Seq<StorageStage>, stage: StorageStage)
    ensures
        ({
            let plan = seq![first] + rest;
            &&& stage == first ==> planned(plan, stage) == (rest, true)
            &&& stage != first ==> planned(plan, stage) == (plan, false)
        }),
        planned(Seq::<StorageStage>::empty(), stage) == (Seq::<StorageStage>::empty(), false),
{
    let plan = seq![first] + rest;
    assert(plan[0] == first);
    assert(plan.drop_first() =~= rest);
}

/// The error of an append names the file that it was about: the directory where that could
/// not be synced, and the file of the frames else.
pub proof fn lemma_append_error_names_its_file(run: AppendRun, event: AppendEvent, error: StorageError)
    requires
        is_append_error(run, event, error),
    ensures
        error matches StorageError::Io { path, .. } ==> (!(event is NotOpened) ==> path@ == (
        if run.step == AppendStep::SyncingDirectory {
            run.directory@
        } else {
            run.path@
        })),
        event matches AppendEvent::Measured(length) ==> (
        error matches StorageError::OffsetMismatch { path, expected, actual } && path@ == run.path@
            && expected == run.previous_offset && actual == length),
        event matches AppendEvent::NotOpened(said) ==> error == said,
        event matches AppendEvent::Failed(said) ==> (error matches StorageError::Io { source, .. }
            && source@ == said@),
{
}

/// The error of a replacement names the file that its step was about: the target where it
/// was to be renamed, the directory where that was to be synced, and the temporary file
/// before.
pub proof fn lemma_replacement_error_names_its_file(write: AtomicWrite)
    ensures
        write.step == AtomicStep::Renaming ==> atomic_path(write) == write.path@,
        write.step == AtomicStep::SyncingDirectory ==> atomic_path(write) == write.parent@,
        write.step == AtomicStep::Creating || write.step == AtomicStep::Restricting || write.step
            == AtomicStep::Writing || write.step == AtomicStep::Flushing || write.step
            == AtomicStep::Syncing ==> atomic_path(write) == write.temporary@,
{
}

/// A session can be added exactly where its name does not stand in the list yet.
pub proof fn lemma_session_is_added_once(sessions: Seq<(String, SessionMetadata)>, added: (String, SessionMetadata))
    ensures
        each_session_once(Seq::<(String, SessionMetadata)>::empty()),
        each_session_once(sessions.push(added)) <==> each_session_once(sessions) && forall|i: int|
            0 <= i < sessions.len() ==> (#[trigger] sessions[i]).0@ != added.0@,
{
    let all = sessions.push(added);
    let n = sessions.len() as int;
    assert forall|i: int| 0 <= i < n implies #[trigger] sessions[i] == all[i] by {}
    assert(all[n] == added);
    if each_session_once(all) {
        assert forall|i: int| 0 <= i < n implies (#[trigger] sessions[i]).0@ != added.0@ by {
            assert(all[i].0@ != all[n].0@);
        }
        assert forall|i: int, j: int| 0 <= i < j < n implies (#[trigger] sessions[i]).0@ != (
        #[trigger] sessions[j]).0@ by {
            assert(all[i].0@ != all[j].0@);
        }
    }
    if each_session_once(sessions) && (forall|i: int|
        0 <= i < sessions.len() ==> (#[trigger] sessions[i]).0@ != added.0@) {
        assert forall|i: int, j: int| 0 <= i < j < all.len() implies (#[trigger] all[i]).0@ != (
        #[trigger] all[j]).0@ by {
            assert(all[i] == sessions[i]);
            if j < n {
                assert(all[j] == sessions[j]);
            }
        }
    }
}

/// The error of an operation on a file says which it was, on which file, and what the
/// system said.
pub proof fn lemma_io_error_says_all(stage: &'static str, path: Vec<u8>, source: String, s: Seq<char>, p: Seq<u8>, w: Seq<char>)
    ensures
        is_io(StorageError::Io { stage, path, source }, s, p, w) <==> stage@ == s && path@ == p
            && source@ == w,
        !is_io(StorageError::InvalidTarget(path), s, p, w),
{
}

/// An append that the system failed is told by the step that failed.
pub proof fn lemma_append_error_names_its_step(run: AppendRun, said: String, error: StorageError)
    requires
        is_append_error(run, AppendEvent::Failed(said), error),
    ensures
        error is Io,
        run.step == AppendStep::Measuring ==> error->stage@ == "inspect append offset"@,
        run.step == AppendStep::Seeking ==> error->stage@ == "seek append"@,
        run.step is WritingPart ==> error->stage@ == "partial append"@,
        run.step == AppendStep::Writing ==> error->stage@ == "append"@,
        run.step == AppendStep::Flushing ==> error->stage@ == "flush"@,
        run.step == AppendStep::Syncing ==> error->stage@ == "fsync JSONL"@,
        run.step == AppendStep::SyncingDirectory ==> error->stage@ == "fsync directory"@,
{
}

/// A replacement that the system failed is told by the step that failed.
pub proof fn lemma_replacement_error_names_its_step()
    ensures
        atomic_stage(AtomicStep::Creating) == "create metadata temporary"@,
        atomic_stage(AtomicStep::Restricting) == "set metadata permissions"@,
        atomic_stage(AtomicStep::Writing) == "write metadata"@,
        atomic_stage(AtomicStep::Flushing) == "flush metadata"@,
        atomic_stage(AtomicStep::Syncing) == "fsync metadata"@,
        atomic_stage(AtomicStep::Renaming) == "rename metadata"@,
        atomic_stage(AtomicStep::SyncingDirectory) == "fsync directory"@,
{
}

/// A target that could not be looked at is told from one that cannot be replaced.
pub proof fn lemma_target_errors(path: Seq<u8>, target: TargetState, said: Seq<char>, error: StorageError)
    requires
        is_target_error(path, target, said, error),
    ensures
        target == TargetState::Unreadable <==> error is Io,
        error is Io ==> error->stage@ == "inspect atomic write target"@ && error->Io_path@ == path
            && error->Io_source@ == said,
        error matches StorageError::InvalidTarget(at) ==> at@ == path,
        target == TargetState::Regular || target == TargetState::NotFound ==> file_name(path)
            is None,
{
}

} // verus!
