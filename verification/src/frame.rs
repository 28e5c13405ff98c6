//! A frame with its metadata: appended as one, or undone, and what the two files hold
//! then.

use vstd::prelude::*;
use vstd::string::*;
use vstd::utf8::*;

use crate::paths::{copy_bytes, file_name, join_path, TargetState};
use crate::storage::{
    append_next, atomic_run, atomic_write_bytes, atomic_write_metadata, conclude_failed_append,
    conclude_failed_metadata, io_error, is_failed_append, is_failed_metadata, is_io,
    is_target_error, partial_length, planned, temporary_name, AppendEvent, AppendRun, AppendStep,
    AtomicStep, AtomicWrite, FaultPlan, StorageError, StorageStage,
};
use crate::text::copy;

verus! {

// ---------------------------------------------------------------------------
// Putting a file back
// ---------------------------------------------------------------------------

/// What putting a file back does next.
#[derive(Clone, Copy, Debug, PartialEq, Eq, Structural)]
pub enum RollbackStep {
    /// Give the file the length that it had.
    Truncating,
    Seeking,
    Flushing,
    Syncing,
    Done,
    Failed,
}

/// What a step is called in an error.
pub open spec fn rollback_stage(step: RollbackStep) -> Seq<char> {
    match step {
        RollbackStep::Truncating => "truncate rollback"@,
        RollbackStep::Seeking => "seek rollback"@,
        RollbackStep::Flushing => "flush rollback"@,
        _ => "fsync rollback"@,
    }
}

/// The step after one that worked or failed.
pub open spec fn rollback_next(step: RollbackStep, worked: bool) -> RollbackStep {
    match step {
        RollbackStep::Done => RollbackStep::Done,
        RollbackStep::Failed => RollbackStep::Failed,
        _ => if !worked {
            RollbackStep::Failed
        } else {
            match step {
                RollbackStep::Truncating => RollbackStep::Seeking,
                RollbackStep::Seeking => RollbackStep::Flushing,
                RollbackStep::Flushing => RollbackStep::Syncing,
                _ => RollbackStep::Done,
            }
        },
    }
}

/// A file that is being put back to the length that it had.
#[derive(Debug)]
pub struct Rollback {
    pub path: Vec<u8>,
    /// The length to cut the file back to, and the place to go on from.
    pub offset: u64,
    pub step: RollbackStep,
}

impl Rollback {
    /// Putting the file back to `offset` bytes; the error where a failure is planned for
    /// it. A file that is not open was not touched, and nothing is done.
    pub fn begin(faults: &mut FaultPlan, path: Vec<u8>, offset: u64, open: bool) -> (r: Result<
        Self,
        StorageError,
    >)
        ensures
            final(faults).stages@ == planned(old(faults).stages@, StorageStage::Rollback).0,
            match r {
                Ok(rollback) => {
                    &&& !planned(old(faults).stages@, StorageStage::Rollback).1
                    &&& rollback.path == path
                    &&& rollback.offset == offset
                    &&& rollback.step == if open {
                        RollbackStep::Truncating
                    } else {
                        RollbackStep::Done
                    }
                },
                Err(error) => planned(old(faults).stages@, StorageStage::Rollback).1 && is_io(
                    error,
                    "rollback injection"@,
                    path@,
                    "injected Rollback failure"@,
                ),
            },
    {
        if faults.fail(StorageStage::Rollback) {
            return Err(io_error("rollback injection", &path, copy("injected Rollback failure")));
        }
        let step = if open {
            RollbackStep::Truncating
        } else {
            RollbackStep::Done
        };
        Ok(Rollback { path, offset, step })
    }

    /// The step at hand worked, or failed with what the system said. The result is the
    /// error where it failed.
    pub fn advance(&mut self, failed: Option<String>) -> (r: Option<StorageError>)
        ensures
            *final(self) == (Rollback {
                step: rollback_next(old(self).step, failed is None),
                ..*old(self)
            }),
            match failed {
                Some(said) => if old(self).step == RollbackStep::Done || old(self).step
                    == RollbackStep::Failed {
                    r is None
                } else {
                    r is Some && is_io(
                        r->0,
                        rollback_stage(old(self).step),
                        old(self).path@,
                        said@,
                    )
                },
                None => r is None,
            },
    {
        let said = match failed {
            Some(said) => said,
            None => {
                self.step = match self.step {
                    RollbackStep::Truncating => RollbackStep::Seeking,
                    RollbackStep::Seeking => RollbackStep::Flushing,
                    RollbackStep::Flushing => RollbackStep::Syncing,
                    RollbackStep::Failed => RollbackStep::Failed,
                    _ => RollbackStep::Done,
                };
                return None;
            },
        };
        let error = match self.step {
            RollbackStep::Truncating => io_error("truncate rollback", &self.path, said),
            RollbackStep::Seeking => io_error("seek rollback", &self.path, said),
            RollbackStep::Flushing => io_error("flush rollback", &self.path, said),
            RollbackStep::Syncing => io_error("fsync rollback", &self.path, said),
            _ => return None,
        };
        self.step = RollbackStep::Failed;
        Some(error)
    }
}

// ---------------------------------------------------------------------------
// Frames with their metadata
// ---------------------------------------------------------------------------

/// What the append of a frame with its metadata does next.
#[derive(Clone, Copy, Debug, PartialEq, Eq, Structural)]
pub enum FrameStep {
    /// Read the metadata as it is, so that it can be put back.
    ReadingMetadata,
    /// Append the frame.
    Appending,
    /// Put the file of the frame back, which was not appended.
    UndoingAppend,
    /// Write the metadata that holds now.
    WritingMetadata,
    /// Put the file of the frame back, since the metadata was not written.
    UndoingFrame,
    /// Put the metadata back.
    UndoingMetadata,
    Accepted,
    Failed,
}

/// What came of it.
#[derive(Debug)]
pub enum FrameEvent {
    /// The metadata as it is.
    MetadataRead(Vec<u8>),
    Worked,
    Failed(StorageError),
}

/// The append of a frame with its metadata.
#[derive(Debug)]
pub struct FrameAppend {
    /// The length that the file of the frame must have, and is put back to.
    pub previous_offset: u64,
    /// The metadata that is to hold, as JSON, or why there is none.
    pub proposed: Result<Vec<u8>, String>,
    /// The metadata as it was.
    pub previous_metadata: Vec<u8>,
    pub step: FrameStep,
    /// Why it is undone.
    pub operation: Option<StorageError>,
    /// Why the file of the frame could not be put back.
    pub json: Option<StorageError>,
}

pub ghost struct FrameView {
    pub previous_offset: nat,
    /// The contents of the metadata file that is to hold, or why there are none.
    pub proposed: Result<Seq<u8>, Seq<char>>,
    pub previous_metadata: Seq<u8>,
    pub step: FrameStep,
    pub operation: Option<StorageError>,
    pub json: Option<StorageError>,
}

/// The contents of a metadata file with that JSON.
pub open spec fn metadata_contents(serialized: Result<Vec<u8>, String>) -> Result<
    Seq<u8>,
    Seq<char>,
> {
    match serialized {
        Ok(json) => Ok(json@.push(0x0a)),
        Err(reason) => Err(reason@),
    }
}

impl View for FrameAppend {
    type V = FrameView;

    open spec fn view(&self) -> FrameView {
        FrameView {
            previous_offset: self.previous_offset as nat,
            proposed: metadata_contents(self.proposed),
            previous_metadata: self.previous_metadata@,
            step: self.step,
            operation: self.operation,
            json: self.json,
        }
    }
}

/// How the append of a frame begins.
pub open spec fn frame_start(
    previous_offset: nat,
    proposed: Result<Seq<u8>, Seq<char>>,
) -> FrameView {
    FrameView {
        previous_offset,
        proposed,
        previous_metadata: Seq::empty(),
        step: FrameStep::ReadingMetadata,
        operation: None,
        json: None,
    }
}

/// The append after an event; an event that was not waited for changes nothing.
pub open spec fn frame_next(a: FrameView, event: FrameEvent) -> FrameView {
    match (a.step, event) {
        (FrameStep::ReadingMetadata, FrameEvent::MetadataRead(bytes)) => FrameView {
            previous_metadata: bytes@,
            step: FrameStep::Appending,
            ..a
        },
        (FrameStep::ReadingMetadata, FrameEvent::Failed(_)) => FrameView {
            step: FrameStep::Failed,
            ..a
        },
        (FrameStep::Appending, FrameEvent::Worked) => FrameView {
            step: FrameStep::WritingMetadata,
            ..a
        },
        (FrameStep::Appending, FrameEvent::Failed(error)) => FrameView {
            step: FrameStep::UndoingAppend,
            operation: Some(error),
            ..a
        },
        (FrameStep::UndoingAppend, FrameEvent::Worked) => FrameView {
            step: FrameStep::Failed,
            operation: None,
            ..a
        },
        (FrameStep::UndoingAppend, FrameEvent::Failed(_)) => FrameView {
            step: FrameStep::Failed,
            operation: None,
            ..a
        },
        (FrameStep::WritingMetadata, FrameEvent::Worked) => FrameView {
            step: FrameStep::Accepted,
            ..a
        },
        (FrameStep::WritingMetadata, FrameEvent::Failed(error)) => FrameView {
            step: FrameStep::UndoingFrame,
            operation: Some(error),
            ..a
        },
        (FrameStep::UndoingFrame, FrameEvent::Worked) => FrameView {
            step: FrameStep::UndoingMetadata,
            json: None,
            ..a
        },
        (FrameStep::UndoingFrame, FrameEvent::Failed(error)) => FrameView {
            step: FrameStep::UndoingMetadata,
            json: Some(error),
            ..a
        },
        (FrameStep::UndoingMetadata, FrameEvent::Worked) => FrameView {
            step: FrameStep::Failed,
            operation: None,
            json: None,
            ..a
        },
        (FrameStep::UndoingMetadata, FrameEvent::Failed(_)) => FrameView {
            step: FrameStep::Failed,
            operation: None,
            json: None,
            ..a
        },
        _ => a,
    }
}

/// The error that an event brings, where it failed.
pub open spec fn event_error(event: FrameEvent) -> Option<StorageError> {
    match event {
        FrameEvent::Failed(error) => Some(error),
        _ => None,
    }
}

/// The event ends the append with a failure.
pub open spec fn ends_in_failure(a: FrameView, event: FrameEvent) -> bool {
    a.step != FrameStep::Failed && frame_next(a, event).step == FrameStep::Failed
}

/// The error of the whole append where an event ends it with a failure.
pub open spec fn is_frame_error(a: FrameView, event: FrameEvent, error: StorageError) -> bool {
    match a.step {
        FrameStep::ReadingMetadata => Some(error) == event_error(event),
        FrameStep::UndoingAppend => is_failed_append(error, a.operation->0, event_error(event)),
        FrameStep::UndoingMetadata => is_failed_metadata(
            error,
            a.operation->0,
            a.json,
            event_error(event),
        ),
        _ => false,
    }
}

/// A step that undoes something.
pub open spec fn is_undoing(step: FrameStep) -> bool {
    step == FrameStep::UndoingAppend || step == FrameStep::UndoingFrame || step
        == FrameStep::UndoingMetadata
}

fn only_error(event: FrameEvent) -> (r: Option<StorageError>)
    ensures
        r == event_error(event),
{
    match event {
        FrameEvent::Failed(error) => Some(error),
        _ => None,
    }
}

impl FrameAppend {
    /// What is undone is undone for a reason.
    pub open spec fn well_formed(self) -> bool {
        is_undoing(self.step) ==> self.operation is Some
    }

    /// The append of a frame behind `previous_offset` bytes, with the metadata that holds
    /// once it is there.
    pub fn begin(previous_offset: u64, serialized: Result<Vec<u8>, String>) -> (r: Self)
        ensures
            r@ == frame_start(previous_offset as nat, metadata_contents(serialized)),
            r.well_formed(),
    {
        let append = FrameAppend {
            previous_offset,
            proposed: serialized,
            previous_metadata: Vec::new(),
            step: FrameStep::ReadingMetadata,
            operation: None,
            json: None,
        };
        proof {
            assert(append.previous_metadata@ =~= Seq::<u8>::empty());
        }
        append
    }

    /// Takes an event in. The result is the error of the whole append where it has
    /// failed with it.
    pub fn advance(&mut self, event: FrameEvent) -> (r: Option<StorageError>)
        requires
            old(self).well_formed(),
        ensures
            final(self).well_formed(),
            final(self)@ == frame_next(old(self)@, event),
            final(self).proposed == old(self).proposed,
            match r {
                Some(error) => ends_in_failure(old(self)@, event) && is_frame_error(
                    old(self)@,
                    event,
                    error,
                ),
                None => !ends_in_failure(old(self)@, event),
            },
    {
        match (self.step, event) {
            (FrameStep::ReadingMetadata, FrameEvent::MetadataRead(bytes)) => {
                self.previous_metadata = bytes;
                self.step = FrameStep::Appending;
                None
            },
            (FrameStep::ReadingMetadata, FrameEvent::Failed(error)) => {
                self.step = FrameStep::Failed;
                Some(error)
            },
            (FrameStep::Appending, FrameEvent::Worked) => {
                self.step = FrameStep::WritingMetadata;
                None
            },
            (FrameStep::Appending, FrameEvent::Failed(error)) => {
                self.operation = Some(error);
                self.step = FrameStep::UndoingAppend;
                None
            },
            (FrameStep::WritingMetadata, FrameEvent::Worked) => {
                self.step = FrameStep::Accepted;
                None
            },
            (FrameStep::WritingMetadata, FrameEvent::Failed(error)) => {
                self.operation = Some(error);
                self.step = FrameStep::UndoingFrame;
                None
            },
            (_, FrameEvent::MetadataRead(_)) => None,
            (FrameStep::UndoingAppend, event) => {
                let undone = only_error(event);
                self.step = FrameStep::Failed;
                match self.operation.take() {
                    Some(operation) => Some(conclude_failed_append(operation, undone)),
                    None => None,
                }
            },
            (FrameStep::UndoingFrame, event) => {
                self.json = only_error(event);
                self.step = FrameStep::UndoingMetadata;
                None
            },
            (FrameStep::UndoingMetadata, event) => {
                let undone = only_error(event);
                self.step = FrameStep::Failed;
                match self.operation.take() {
                    Some(operation) => Some(
                        conclude_failed_metadata(operation, self.json.take(), undone),
                    ),
                    None => None,
                }
            },
            _ => None,
        }
    }

    /// The append of the frame's bytes, so many of them, to the file in the directory.
    pub fn append(
        &self,
        faults: &mut FaultPlan,
        directory: &[u8],
        filename: &str,
        length: usize,
    ) -> (r: AppendRun)
        ensures
            ({
                let append = planned(old(faults).stages@, StorageStage::Append);
                let flush = planned(append.0, StorageStage::Flush);
                let fsync = planned(flush.0, StorageStage::JsonFsync);
                &&& final(faults).stages@ == fsync.0
                &&& r.append_fault == append.1
                &&& r.flush_fault == flush.1
                &&& r.fsync_fault == fsync.1
            }),
            r.path@ == join_path(directory@, encode_utf8(filename@)),
            r.directory@ == directory@,
            r.previous_offset == self@.previous_offset,
            r.length == length,
            r.step == AppendStep::Opening,
    {
        AppendRun::begin(faults, directory, filename, self.previous_offset, length)
    }

    /// Putting the file of the frame back to the length before the append.
    pub fn rollback(&self, faults: &mut FaultPlan, path: Vec<u8>, open: bool) -> (r: Result<
        Rollback,
        StorageError,
    >)
        ensures
            final(faults).stages@ == planned(old(faults).stages@, StorageStage::Rollback).0,
            match r {
                Ok(rollback) => {
                    &&& !planned(old(faults).stages@, StorageStage::Rollback).1
                    &&& rollback.path == path
                    &&& rollback.offset == self@.previous_offset
                    &&& rollback.step == if open {
                        RollbackStep::Truncating
                    } else {
                        RollbackStep::Done
                    }
                },
                Err(error) => planned(old(faults).stages@, StorageStage::Rollback).1 && is_io(
                    error,
                    "rollback injection"@,
                    path@,
                    "injected Rollback failure"@,
                ),
            },
    {
        Rollback::begin(faults, path, self.previous_offset, open)
    }

    /// The replacement of the metadata file by the metadata that is to hold.
    pub fn metadata_write(
        &self,
        path: &[u8],
        parent: &[u8],
        target: TargetState,
        said: String,
        process_id: u32,
        counter: u64,
    ) -> (r: Result<AtomicWrite, StorageError>)
        ensures
            match self@.proposed {
                Err(reason) => r is Err && (r->Err_0 matches StorageError::Serialize(text) && text@
                    == reason),
                Ok(bytes) => match r {
                    Ok(write) => (target == TargetState::Regular || target
                        == TargetState::NotFound) && is_write_of(
                        write,
                        path@,
                        parent@,
                        process_id,
                        counter,
                    ) && write.bytes@ == bytes,
                    Err(error) => is_target_error(path@, target, said@, error),
                },
            },
    {
        let serialized = match &self.proposed {
            Ok(json) => Ok(copy_bytes(json.as_slice())),
            Err(reason) => Err(reason.clone()),
        };
        atomic_write_metadata(path, parent, serialized, target, said, process_id, counter)
    }

    /// The replacement of the metadata file by the metadata as it was.
    pub fn metadata_undo(
        &self,
        path: &[u8],
        parent: &[u8],
        target: TargetState,
        said: String,
        process_id: u32,
        counter: u64,
    ) -> (r: Result<AtomicWrite, StorageError>)
        ensures
            match r {
                Ok(write) => (target == TargetState::Regular || target == TargetState::NotFound)
                    && is_write_of(write, path@, parent@, process_id, counter) && write.bytes@
                    == self@.previous_metadata,
                Err(error) => is_target_error(path@, target, said@, error),
            },
    {
        let bytes = copy_bytes(self.previous_metadata.as_slice());
        atomic_write_bytes(path, parent, bytes, target, said, process_id, counter)
    }
}

/// An append that fails has touched nothing, or was undone: the file of the frame after
/// an append that failed, and both files, one after the other, after metadata that
/// failed.
pub proof fn lemma_failed_frame_was_undone(a: FrameView, event: FrameEvent)
    ensures
        ends_in_failure(a, event) ==> a.step == FrameStep::ReadingMetadata || a.step
            == FrameStep::UndoingAppend || a.step == FrameStep::UndoingMetadata,
        frame_next(a, event).step == FrameStep::UndoingMetadata ==> a.step
            == FrameStep::UndoingFrame || a.step == FrameStep::UndoingMetadata,
{
}

/// A replacement of the file at `path` that is about to begin.
pub open spec fn is_write_of(
    write: AtomicWrite,
    path: Seq<u8>,
    parent: Seq<u8>,
    process_id: u32,
    counter: u64,
) -> bool {
    &&& file_name(path) is Some
    &&& write.path@ == path
    &&& write.parent@ == parent
    &&& write.step == AtomicStep::Creating
    &&& write.temporary@ == join_path(
        parent,
        encode_utf8(temporary_name(file_name(path)->0, process_id, counter)),
    )
}

// ---------------------------------------------------------------------------
// What the file of the frames holds
// ---------------------------------------------------------------------------

/// A file as its handle sees it. A file that is not there holds nothing.
pub ghost struct Handle {
    pub bytes: Seq<u8>,
    pub open: bool,
    pub position: int,
}

/// The bytes after `data` was written at `position`.
pub open spec fn overwritten(bytes: Seq<u8>, position: int, data: Seq<u8>) -> Seq<u8> {
    let end = position + data.len();
    bytes.take(position) + data + if end < bytes.len() {
        bytes.skip(end)
    } else {
        Seq::empty()
    }
}

/// The bytes of a file that was given the length `n`: cut off, or with zeros behind.
pub open spec fn resized(bytes: Seq<u8>, n: nat) -> Seq<u8> {
    if bytes.len() >= n {
        bytes.take(n as int)
    } else {
        bytes + Seq::new((n - bytes.len()) as nat, |i: int| 0u8)
    }
}

/// What is written at a step of an append.
pub open spec fn step_data(step: AppendStep, frame: Seq<u8>) -> Seq<u8> {
    match step {
        AppendStep::WritingPart(count) => frame.take(count as int),
        _ => frame,
    }
}

/// What a step of an append does to the file. Of a write that failed some first part may
/// have got there; a step that does not write leaves the bytes alone, and an event that
/// is none of the step's stands for nothing done.
pub open spec fn append_effect(
    run: AppendRun,
    frame: Seq<u8>,
    event: AppendEvent,
    before: Handle,
    after: Handle,
) -> bool {
    match (run.step, event) {
        (AppendStep::Opening, AppendEvent::Succeeded) => after.bytes == before.bytes && after.open,
        (AppendStep::Measuring, AppendEvent::Measured(length)) => after == before && length
            == before.bytes.len(),
        (AppendStep::Seeking, AppendEvent::Succeeded) => after == (Handle {
            position: run.previous_offset as int,
            ..before
        }),
        (AppendStep::WritingPart(_), AppendEvent::Succeeded) => after.open == before.open
            && after.bytes == overwritten(
            before.bytes,
            before.position,
            step_data(run.step, frame),
        ),
        (AppendStep::Writing, AppendEvent::Succeeded) => after.open == before.open && after.bytes
            == overwritten(before.bytes, before.position, step_data(run.step, frame)),
        (AppendStep::WritingPart(_), AppendEvent::Failed(_)) => after.open == before.open
            && is_part_written(before, step_data(run.step, frame), after.bytes),
        (AppendStep::Writing, AppendEvent::Failed(_)) => after.open == before.open
            && is_part_written(before, step_data(run.step, frame), after.bytes),
        (AppendStep::WritingPart(_), _) => after == before,
        (AppendStep::Writing, _) => after == before,
        _ => after.bytes == before.bytes && after.open == before.open,
    }
}

/// Some first part of `data` was written.
pub open spec fn is_part_written(before: Handle, data: Seq<u8>, after: Seq<u8>) -> bool {
    exists|k: int|
        0 <= k <= data.len() && after == overwritten(
            before.bytes,
            before.position,
            #[trigger] data.take(k),
        )
}

/// Where an append stands after a list of events.
pub open spec fn append_at(run: AppendRun, events: Seq<AppendEvent>) -> AppendRun
    decreases events.len(),
{
    if events.len() == 0 {
        run
    } else {
        let before = append_at(run, events.drop_last());
        AppendRun { step: append_next(before, events.last()), ..before }
    }
}

/// The files are those between the events of an append.
pub open spec fn is_append_trace(
    run: AppendRun,
    frame: Seq<u8>,
    events: Seq<AppendEvent>,
    files: Seq<Handle>,
) -> bool {
    &&& files.len() == events.len() + 1
    &&& forall|k: int|
        0 <= k < events.len() ==> append_effect(
            append_at(run, events.take(k)),
            frame,
            #[trigger] events[k],
            files[k],
            files[k + 1],
        )
}

/// What an append does to the file of the frames. One that worked found the file at its
/// length and put the frame behind it. One that failed left the bytes alone, or put
/// something behind them.
pub open spec fn appended(
    before: Seq<u8>,
    previous_offset: nat,
    frame: Seq<u8>,
    worked: bool,
    after: Seq<u8>,
    open: bool,
) -> bool {
    if worked {
        open && before.len() == previous_offset && after == before + frame
    } else {
        after == before || (open && before.len() == previous_offset && before.is_prefix_of(after))
    }
}

/// What holds of the file at a step of an append.
spec fn append_holds(run: AppendRun, frame: Seq<u8>, start: Seq<u8>, file: Handle) -> bool {
    let at_end = start.len() == run.previous_offset && file.open;
    match run.step {
        AppendStep::Opening => file.bytes == start,
        AppendStep::Measuring => file.bytes == start && file.open,
        AppendStep::Seeking => file.bytes == start && at_end,
        AppendStep::WritingPart(count) => file.bytes == start && at_end && file.position
            == run.previous_offset && count <= frame.len(),
        AppendStep::Writing => file.bytes == start && at_end && file.position
            == run.previous_offset,
        AppendStep::Failed => appended(
            start,
            run.previous_offset as nat,
            frame,
            false,
            file.bytes,
            file.open,
        ),
        _ => appended(start, run.previous_offset as nat, frame, true, file.bytes, file.open),
    }
}

proof fn lemma_append_step_holds(
    run: AppendRun,
    frame: Seq<u8>,
    start: Seq<u8>,
    event: AppendEvent,
    before: Handle,
    after: Handle,
)
    requires
        run.length == frame.len(),
        append_holds(run, frame, start, before),
        append_effect(run, frame, event, before, after),
    ensures
        append_holds(
            AppendRun { step: append_next(run, event), ..run },
            frame,
            start,
            after,
        ),
{
    let data = step_data(run.step, frame);
    assert(start.is_prefix_of(start + frame));
    assert(partial_length(run.length) <= frame.len());
    match (run.step, event) {
        (AppendStep::Writing, AppendEvent::Succeeded) => {
            assert(after.bytes =~= start + frame);
        },
        (AppendStep::WritingPart(_), AppendEvent::Succeeded) => {
            assert(after.bytes =~= start + data);
            assert(start.is_prefix_of(start + data));
        },
        (AppendStep::Writing, AppendEvent::Failed(_)) => {
            let k = choose|k: int|
                0 <= k <= data.len() && after.bytes == overwritten(
                    before.bytes,
                    before.position,
                    #[trigger] data.take(k),
                );
            assert(after.bytes =~= start + data.take(k));
            assert(start.is_prefix_of(start + data.take(k)));
        },
        (AppendStep::WritingPart(_), AppendEvent::Failed(_)) => {
            let k = choose|k: int|
                0 <= k <= data.len() && after.bytes == overwritten(
                    before.bytes,
                    before.position,
                    #[trigger] data.take(k),
                );
            assert(after.bytes =~= start + data.take(k));
            assert(start.is_prefix_of(start + data.take(k)));
        },
        _ => {},
    }
}

/// An append that is done has put the frame behind the bytes that were there, and they
/// were as many as the metadata says. One that failed has not changed them.
pub proof fn lemma_append_keeps_old_bytes(
    run: AppendRun,
    frame: Seq<u8>,
    events: Seq<AppendEvent>,
    files: Seq<Handle>,
)
    requires
        run.step == AppendStep::Opening,
        run.length == frame.len(),
        is_append_trace(run, frame, events, files),
    ensures
        append_at(run, events).step == AppendStep::Done ==> appended(
            files[0].bytes,
            run.previous_offset as nat,
            frame,
            true,
            files.last().bytes,
            files.last().open,
        ),
        append_at(run, events).step == AppendStep::Failed ==> appended(
            files[0].bytes,
            run.previous_offset as nat,
            frame,
            false,
            files.last().bytes,
            files.last().open,
        ),
{
    lemma_append_trace_holds(run, frame, events, files);
}

proof fn lemma_append_trace_holds(
    run: AppendRun,
    frame: Seq<u8>,
    events: Seq<AppendEvent>,
    files: Seq<Handle>,
)
    requires
        run.step == AppendStep::Opening,
        run.length == frame.len(),
        is_append_trace(run, frame, events, files),
    ensures
        append_holds(append_at(run, events), frame, files[0].bytes, files.last()),
        append_at(run, events) == (AppendRun { step: append_at(run, events).step, ..run }),
    decreases events.len(),
{
    if events.len() > 0 {
        let (before, earlier) = (events.drop_last(), files.drop_last());
        let n = events.len() - 1;
        assert forall|k: int| 0 <= k < before.len() implies append_effect(
            append_at(run, before.take(k)),
            frame,
            #[trigger] before[k],
            earlier[k],
            earlier[k + 1],
        ) by {
            assert(before.take(k) =~= events.take(k));
            assert(before[k] == events[k]);
        }
        lemma_append_trace_holds(run, frame, before, earlier);
        assert(events.take(n) =~= before);
        assert(append_effect(
            append_at(run, events.take(n)),
            frame,
            events[n],
            files[n],
            files[n + 1],
        ));
        lemma_append_step_holds(
            append_at(run, before),
            frame,
            files[0].bytes,
            events[n],
            files[n],
            files[n + 1],
        );
    }
}

/// What a step of putting a file back does to its bytes. Of a cut that failed nothing is
/// known.
pub open spec fn rollback_effect(
    rollback: Rollback,
    worked: bool,
    before: Seq<u8>,
    after: Seq<u8>,
) -> bool {
    match rollback.step {
        RollbackStep::Truncating => worked ==> after == resized(before, rollback.offset as nat),
        _ => after == before,
    }
}

/// Where putting a file back stands after its steps worked (`true`) or failed.
pub open spec fn rollback_at(rollback: Rollback, outcomes: Seq<bool>) -> Rollback
    decreases outcomes.len(),
{
    if outcomes.len() == 0 {
        rollback
    } else {
        let before = rollback_at(rollback, outcomes.drop_last());
        Rollback { step: rollback_next(before.step, outcomes.last()), ..before }
    }
}

/// What putting a file back does to it: an open file gets the length that it had, one
/// that is not open is left alone.
pub open spec fn cut_back(
    before: Seq<u8>,
    previous_offset: nat,
    open: bool,
    after: Seq<u8>,
) -> bool {
    after == if open {
        resized(before, previous_offset)
    } else {
        before
    }
}

/// A file that was put back has the length that it had before the append, and of its
/// bytes those that were there.
pub proof fn lemma_rollback_cuts_back(
    rollback: Rollback,
    outcomes: Seq<bool>,
    files: Seq<Seq<u8>>,
)
    requires
        rollback.step == RollbackStep::Truncating || rollback.step == RollbackStep::Done,
        files.len() == outcomes.len() + 1,
        forall|k: int|
            0 <= k < outcomes.len() ==> rollback_effect(
                rollback_at(rollback, outcomes.take(k)),
                #[trigger] outcomes[k],
                files[k],
                files[k + 1],
            ),
        rollback_at(rollback, outcomes).step == RollbackStep::Done,
    ensures
        cut_back(
            files[0],
            rollback.offset as nat,
            rollback.step == RollbackStep::Truncating,
            files.last(),
        ),
{
    lemma_rollback_trace_holds(rollback, outcomes, files);
}

proof fn lemma_rollback_trace_holds(
    rollback: Rollback,
    outcomes: Seq<bool>,
    files: Seq<Seq<u8>>,
)
    requires
        rollback.step == RollbackStep::Truncating || rollback.step == RollbackStep::Done,
        files.len() == outcomes.len() + 1,
        forall|k: int|
            0 <= k < outcomes.len() ==> rollback_effect(
                rollback_at(rollback, outcomes.take(k)),
                #[trigger] outcomes[k],
                files[k],
                files[k + 1],
            ),
    ensures
        rollback_at(rollback, outcomes).offset == rollback.offset,
        rollback_at(rollback, outcomes).step != RollbackStep::Truncating
            && rollback_at(rollback, outcomes).step != RollbackStep::Failed ==> cut_back(
            files[0],
            rollback.offset as nat,
            rollback.step == RollbackStep::Truncating,
            files.last(),
        ),
        rollback_at(rollback, outcomes).step == RollbackStep::Truncating ==> files.last()
            == files[0] && rollback.step == RollbackStep::Truncating,
    decreases outcomes.len(),
{
    if outcomes.len() > 0 {
        let (before, earlier) = (outcomes.drop_last(), files.drop_last());
        let n = outcomes.len() - 1;
        assert forall|k: int| 0 <= k < before.len() implies rollback_effect(
            rollback_at(rollback, before.take(k)),
            #[trigger] before[k],
            earlier[k],
            earlier[k + 1],
        ) by {
            assert(before.take(k) =~= outcomes.take(k));
            assert(before[k] == outcomes[k]);
        }
        lemma_rollback_trace_holds(rollback, before, earlier);
        assert(outcomes.take(n) =~= before);
        assert(rollback_effect(
            rollback_at(rollback, outcomes.take(n)),
            outcomes[n],
            files[n],
            files[n + 1],
        ));
    }
}

// ---------------------------------------------------------------------------
// What the metadata file holds
// ---------------------------------------------------------------------------

/// A file and the temporary one that is to take its place.
pub ghost struct FilePair {
    pub target: Seq<u8>,
    pub temporary: Seq<u8>,
}

/// What a step of a replacement does to the two files. A renaming that fails leaves the
/// file as it is; of the temporary file nothing is known after a step that failed.
pub open spec fn replace_effect(
    step: AtomicStep,
    bytes: Seq<u8>,
    worked: bool,
    before: FilePair,
    after: FilePair,
) -> bool {
    match step {
        AtomicStep::Creating => after.target == before.target && (worked ==> after.temporary
            == Seq::<u8>::empty()),
        AtomicStep::Writing => after.target == before.target && (worked ==> after.temporary
            == before.temporary + bytes),
        AtomicStep::Renaming => after.target == if worked {
            before.temporary
        } else {
            before.target
        },
        AtomicStep::Done => after.target == before.target,
        AtomicStep::Failed => after.target == before.target,
        AtomicStep::SyncingDirectory => after.target == before.target,
        _ => after.target == before.target && (worked ==> after.temporary == before.temporary),
    }
}

/// What a replacement does to the file: all of it or nothing.
pub open spec fn replaced(before: Seq<u8>, bytes: Seq<u8>, worked: bool, after: Seq<u8>) -> bool {
    if worked {
        after == bytes
    } else {
        after == before || after == bytes
    }
}

/// What holds of the two files at a step of a replacement.
spec fn replace_holds(step: AtomicStep, bytes: Seq<u8>, start: Seq<u8>, files: FilePair) -> bool {
    match step {
        AtomicStep::Creating => files.target == start,
        AtomicStep::Restricting => files.target == start && files.temporary == Seq::<u8>::empty(),
        AtomicStep::Writing => files.target == start && files.temporary == Seq::<u8>::empty(),
        AtomicStep::Flushing => files.target == start && files.temporary == bytes,
        AtomicStep::Syncing => files.target == start && files.temporary == bytes,
        AtomicStep::Renaming => files.target == start && files.temporary == bytes,
        AtomicStep::SyncingDirectory => files.target == bytes,
        AtomicStep::Done => files.target == bytes,
        AtomicStep::Failed => files.target == start || files.target == bytes,
    }
}

/// Whatever fails, the file holds its old contents or the new ones, whole; once the
/// replacement is done, the new ones.
pub proof fn lemma_replacement_is_whole(
    bytes: Seq<u8>,
    outcomes: Seq<bool>,
    files: Seq<FilePair>,
)
    requires
        files.len() == outcomes.len() + 1,
        forall|k: int|
            0 <= k < outcomes.len() ==> replace_effect(
                atomic_run(outcomes.take(k)),
                bytes,
                #[trigger] outcomes[k],
                files[k],
                files[k + 1],
            ),
    ensures
        replaced(
            files[0].target,
            bytes,
            atomic_run(outcomes) == AtomicStep::Done,
            files.last().target,
        ),
{
    lemma_replacement_holds(bytes, outcomes, files);
}

proof fn lemma_replacement_holds(bytes: Seq<u8>, outcomes: Seq<bool>, files: Seq<FilePair>)
    requires
        files.len() == outcomes.len() + 1,
        forall|k: int|
            0 <= k < outcomes.len() ==> replace_effect(
                atomic_run(outcomes.take(k)),
                bytes,
                #[trigger] outcomes[k],
                files[k],
                files[k + 1],
            ),
    ensures
        replace_holds(atomic_run(outcomes), bytes, files[0].target, files.last()),
    decreases outcomes.len(),
{
    if outcomes.len() > 0 {
        let (before, earlier) = (outcomes.drop_last(), files.drop_last());
        let n = outcomes.len() - 1;
        assert forall|k: int| 0 <= k < before.len() implies replace_effect(
            atomic_run(before.take(k)),
            bytes,
            #[trigger] before[k],
            earlier[k],
            earlier[k + 1],
        ) by {
            assert(before.take(k) =~= outcomes.take(k));
            assert(before[k] == outcomes[k]);
        }
        lemma_replacement_holds(bytes, before, earlier);
        assert(outcomes.take(n) =~= before);
        assert(replace_effect(
            atomic_run(outcomes.take(n)),
            bytes,
            outcomes[n],
            files[n],
            files[n + 1],
        ));
        if atomic_run(before) == AtomicStep::Writing && outcomes[n] {
            assert(files[n + 1].temporary =~= bytes);
        }
    }
}

// ---------------------------------------------------------------------------
// What the two files hold together
// ---------------------------------------------------------------------------

/// The file of the frames and the metadata file.
pub ghost struct Disk {
    pub frames: Seq<u8>,
    /// Whether the file of the frames is open.
    pub open: bool,
    pub metadata: Seq<u8>,
}

/// What a step of the append of a frame does to the two files: an append, a cut or a
/// replacement, each as it was run to its end.
pub open spec fn frame_effect(
    a: FrameView,
    frame: Seq<u8>,
    event: FrameEvent,
    before: Disk,
    after: Disk,
) -> bool {
    let worked = event is Worked;
    match (a.step, event) {
        (_, FrameEvent::MetadataRead(bytes)) => after == before && bytes@ == before.metadata,
        (FrameStep::Appending, _) => after.metadata == before.metadata && appended(
            before.frames,
            a.previous_offset,
            frame,
            worked,
            after.frames,
            after.open,
        ),
        (FrameStep::UndoingAppend, _) => after.metadata == before.metadata && (worked ==> cut_back(
            before.frames,
            a.previous_offset,
            before.open,
            after.frames,
        )),
        (FrameStep::UndoingFrame, _) => after.metadata == before.metadata && (worked ==> cut_back(
            before.frames,
            a.previous_offset,
            before.open,
            after.frames,
        )),
        (FrameStep::WritingMetadata, _) => after.frames == before.frames && after.open
            == before.open && match a.proposed {
            Ok(bytes) => replaced(before.metadata, bytes, worked, after.metadata),
            Err(_) => !worked && after.metadata == before.metadata,
        },
        (FrameStep::UndoingMetadata, _) => after.frames == before.frames && replaced(
            before.metadata,
            a.previous_metadata,
            worked,
            after.metadata,
        ),
        _ => after == before,
    }
}

/// Where the append of a frame stands after a list of events.
pub open spec fn frame_at(a: FrameView, events: Seq<FrameEvent>) -> FrameView
    decreases events.len(),
{
    if events.len() == 0 {
        a
    } else {
        frame_next(frame_at(a, events.drop_last()), events.last())
    }
}

/// The disks are those between the events of the append of a frame.
pub open spec fn is_frame_trace(
    a: FrameView,
    frame: Seq<u8>,
    events: Seq<FrameEvent>,
    disks: Seq<Disk>,
) -> bool {
    &&& disks.len() == events.len() + 1
    &&& forall|k: int|
        0 <= k < events.len() ==> frame_effect(
            frame_at(a, events.take(k)),
            frame,
            #[trigger] events[k],
            disks[k],
            disks[k + 1],
        )
}

/// The frame stands behind the bytes that were there.
spec fn frame_is_behind(a: FrameView, frame: Seq<u8>, start: Disk, disk: Disk) -> bool {
    start.frames.len() == a.previous_offset && disk.frames == start.frames + frame && disk.open
}

/// What holds of the two files at a step of the append of a frame.
spec fn frame_holds(a: FrameView, frame: Seq<u8>, start: Disk, disk: Disk) -> bool {
    match a.step {
        FrameStep::ReadingMetadata => disk == start,
        FrameStep::Appending => disk == start && a.previous_metadata == start.metadata,
        FrameStep::UndoingAppend => disk.metadata == start.metadata && a.operation is Some
            && appended(
            start.frames,
            a.previous_offset,
            frame,
            false,
            disk.frames,
            disk.open,
        ),
        FrameStep::WritingMetadata => frame_is_behind(a, frame, start, disk) && disk.metadata
            == start.metadata && a.previous_metadata == start.metadata,
        FrameStep::UndoingFrame => frame_is_behind(a, frame, start, disk) && a.previous_metadata
            == start.metadata && a.operation is Some,
        FrameStep::UndoingMetadata => a.previous_metadata == start.metadata && a.operation is Some
            && (a.json is None ==> disk.frames == start.frames),
        FrameStep::Accepted => frame_is_behind(a, frame, start, disk) && a.proposed == Ok::<
            Seq<u8>,
            Seq<char>,
        >(disk.metadata),
        FrameStep::Failed => true,
    }
}

proof fn lemma_frame_step_holds(
    a: FrameView,
    frame: Seq<u8>,
    start: Disk,
    event: FrameEvent,
    before: Disk,
    after: Disk,
)
    requires
        frame_holds(a, frame, start, before),
        frame_effect(a, frame, event, before, after),
    ensures
        frame_holds(frame_next(a, event), frame, start, after),
        frame_next(a, event).previous_offset == a.previous_offset,
        frame_next(a, event).proposed == a.proposed,
{
    if a.step == FrameStep::UndoingFrame && event is Worked {
        assert(after.frames =~= start.frames);
    }
}

proof fn lemma_frame_trace_holds(
    a: FrameView,
    frame: Seq<u8>,
    events: Seq<FrameEvent>,
    disks: Seq<Disk>,
)
    requires
        a == frame_start(a.previous_offset, a.proposed),
        is_frame_trace(a, frame, events, disks),
    ensures
        frame_holds(frame_at(a, events), frame, disks[0], disks.last()),
        frame_at(a, events).previous_offset == a.previous_offset,
        frame_at(a, events).proposed == a.proposed,
    decreases events.len(),
{
    if events.len() > 0 {
        let (before, earlier) = (events.drop_last(), disks.drop_last());
        let n = events.len() - 1;
        assert forall|k: int| 0 <= k < before.len() implies frame_effect(
            frame_at(a, before.take(k)),
            frame,
            #[trigger] before[k],
            earlier[k],
            earlier[k + 1],
        ) by {
            assert(before.take(k) =~= events.take(k));
            assert(before[k] == events[k]);
        }
        lemma_frame_trace_holds(a, frame, before, earlier);
        assert(events.take(n) =~= before);
        assert(frame_effect(
            frame_at(a, events.take(n)),
            frame,
            events[n],
            disks[n],
            disks[n + 1],
        ));
        lemma_frame_step_holds(
            frame_at(a, before),
            frame,
            disks[0],
            events[n],
            disks[n],
            disks[n + 1],
        );
    }
}

/// A frame that is accepted stands behind the bytes that were there, as many as the
/// metadata said, and the metadata file holds the metadata that was proposed with it.
pub proof fn lemma_accepted_frame_is_stored(
    previous_offset: nat,
    proposed: Result<Seq<u8>, Seq<char>>,
    frame: Seq<u8>,
    events: Seq<FrameEvent>,
    disks: Seq<Disk>,
)
    requires
        is_frame_trace(frame_start(previous_offset, proposed), frame, events, disks),
        frame_at(frame_start(previous_offset, proposed), events).step == FrameStep::Accepted,
    ensures
        disks[0].frames.len() == previous_offset,
        disks.last().frames == disks[0].frames + frame,
        proposed == Ok::<Seq<u8>, Seq<char>>(disks.last().metadata),
{
    lemma_frame_trace_holds(frame_start(previous_offset, proposed), frame, events, disks);
}

/// After a failure that is called recoverable both files are as they were: the metadata
/// always, the frames wherever the file had the length that the metadata said. A file of
/// another length is given that one, or left alone.
pub proof fn lemma_recoverable_failure_changes_nothing(
    previous_offset: nat,
    proposed: Result<Seq<u8>, Seq<char>>,
    frame: Seq<u8>,
    events: Seq<FrameEvent>,
    disks: Seq<Disk>,
    error: StorageError,
)
    requires
        is_frame_trace(frame_start(previous_offset, proposed), frame, events, disks),
        events.len() > 0,
        ({
            let last = frame_at(frame_start(previous_offset, proposed), events.drop_last());
            &&& ends_in_failure(last, events.last())
            &&& is_frame_error(last, events.last(), error)
            &&& error is Recoverable || last.step == FrameStep::ReadingMetadata
        }),
    ensures
        disks.last().metadata == disks[0].metadata,
        disks[0].frames.len() == previous_offset ==> disks.last().frames == disks[0].frames,
        disks.last().frames == disks[0].frames || disks.last().frames == resized(
            disks[0].frames,
            previous_offset,
        ),
{
    let a = frame_start(previous_offset, proposed);
    let (before, earlier) = (events.drop_last(), disks.drop_last());
    let n = events.len() - 1;
    assert forall|k: int| 0 <= k < before.len() implies frame_effect(
        frame_at(a, before.take(k)),
        frame,
        #[trigger] before[k],
        earlier[k],
        earlier[k + 1],
    ) by {
        assert(before.take(k) =~= events.take(k));
        assert(before[k] == events[k]);
    }
    lemma_frame_trace_holds(a, frame, before, earlier);
    assert(events.take(n) =~= before);
    assert(frame_effect(frame_at(a, events.take(n)), frame, events[n], disks[n], disks[n + 1]));
    let start = disks[0];
    let old_length = start.frames.len() == previous_offset;
    if old_length {
        assert(resized(start.frames, previous_offset) =~= start.frames);
    }
    if frame_at(a, before).step == FrameStep::UndoingAppend && old_length
        && start.frames.is_prefix_of(disks[n].frames) {
        assert(resized(disks[n].frames, previous_offset) =~= start.frames);
    }
}

/// A frame whose metadata could be read, that was appended and whose new metadata was
/// written, is accepted; the metadata that was read is kept until then, so that it could be
/// put back.
pub proof fn lemma_frame_without_failure_is_accepted(a: FrameView, metadata: Vec<u8>)
    requires
        a.step == FrameStep::ReadingMetadata,
    ensures
        ({
            let read = frame_next(a, FrameEvent::MetadataRead(metadata));
            let appended = frame_next(read, FrameEvent::Worked);
            let accepted = frame_next(appended, FrameEvent::Worked);
            &&& read.step == FrameStep::Appending
            &&& appended.step == FrameStep::WritingMetadata
            &&& accepted.step == FrameStep::Accepted
            &&& read.previous_metadata == metadata@
            &&& accepted.previous_metadata == metadata@
            &&& accepted.proposed == a.proposed
            &&& accepted.previous_offset == a.previous_offset
        }),
{
}

/// A frame that could not be appended is undone in its own file only; one whose metadata
/// could not be written is undone in both, whether or not the first undoing worked. Either
/// ends as a failure, and the first error is the one that is told.
pub proof fn lemma_frame_is_undone(a: FrameView, first: StorageError, second: StorageError, worked: bool)
    ensures
        ({
            let event = if worked {
                FrameEvent::Worked
            } else {
                FrameEvent::Failed(second)
            };
            &&& a.step == FrameStep::ReadingMetadata ==> frame_next(
                a,
                FrameEvent::Failed(first),
            ).step == FrameStep::Failed
            &&& a.step == FrameStep::Appending ==> {
                let undoing = frame_next(a, FrameEvent::Failed(first));
                &&& undoing.step == FrameStep::UndoingAppend
                &&& undoing.operation == Some(first)
                &&& undoing.previous_offset == a.previous_offset
                &&& frame_next(undoing, event).step == FrameStep::Failed
            }
            &&& a.step == FrameStep::WritingMetadata ==> {
                let undoing = frame_next(a, FrameEvent::Failed(first));
                let rest = frame_next(undoing, event);
                &&& undoing.step == FrameStep::UndoingFrame
                &&& undoing.operation == Some(first)
                &&& undoing.previous_metadata == a.previous_metadata
                &&& rest.step == FrameStep::UndoingMetadata
                &&& rest.operation == Some(first)
                &&& rest.json is None <==> worked
                &&& !worked ==> rest.json == Some(second)
                &&& rest.previous_metadata == a.previous_metadata
                &&& frame_next(rest, FrameEvent::Worked).step == FrameStep::Failed
                &&& frame_next(rest, FrameEvent::Failed(second)).step == FrameStep::Failed
            }
        }),
{
}

/// The error of a frame is recoverable exactly where everything that was begun was undone.
pub proof fn lemma_error_of_a_frame(a: FrameView, event: FrameEvent, error: StorageError)
    requires
        is_frame_error(a, event, error),
        a.step == FrameStep::UndoingAppend || a.step == FrameStep::UndoingMetadata,
    ensures
        error is Poisoned || error is Recoverable,
        a.step == FrameStep::UndoingAppend ==> (error is Recoverable <==> !(event is Failed)),
        a.step == FrameStep::UndoingMetadata ==> (error is Recoverable <==> !(event is Failed)
            && a.json is None),
        error matches StorageError::Recoverable(inner) ==> *inner == a.operation->0,
        error matches StorageError::Poisoned { operation, .. } ==> *operation == a.operation->0,
{
}

/// Putting a file back is done after its four steps worked, and the first that fails ends
/// it.
pub proof fn lemma_steps_of_putting_back(step: RollbackStep)
    ensures
        rollback_next(RollbackStep::Truncating, true) == RollbackStep::Seeking,
        rollback_next(RollbackStep::Seeking, true) == RollbackStep::Flushing,
        rollback_next(RollbackStep::Flushing, true) == RollbackStep::Syncing,
        rollback_next(RollbackStep::Syncing, true) == RollbackStep::Done,
        step != RollbackStep::Done ==> rollback_next(step, false) == RollbackStep::Failed,
        rollback_next(RollbackStep::Done, false) == RollbackStep::Done,
{
}

/// The metadata that is written is the one that is to hold, and the metadata that is put
/// back is the one that was there; both replace the same file.
pub proof fn lemma_what_is_written_and_put_back(
    append: FrameAppend,
    path: &[u8],
    parent: &[u8],
    target: TargetState,
    said: String,
    process_id: u32,
    counter: u64,
    write: Result<AtomicWrite, StorageError>,
    undo: Result<AtomicWrite, StorageError>,
)
    requires
        call_ensures(
            FrameAppend::metadata_write,
            (&append, path, parent, target, said, process_id, counter),
            write,
        ),
        call_ensures(
            FrameAppend::metadata_undo,
            (&append, path, parent, target, said, process_id, counter),
            undo,
        ),
    ensures
        write is Ok ==> append.proposed is Ok && write->Ok_0.bytes@ == append.proposed->Ok_0@.push(
            0x0a,
        ) && write->Ok_0.path@ == path@ && write->Ok_0.parent@ == parent@ && write->Ok_0.step
            == AtomicStep::Creating,
        undo is Ok ==> undo->Ok_0.bytes@ == append.previous_metadata@ && undo->Ok_0.path@ == path@
            && undo->Ok_0.parent@ == parent@ && undo->Ok_0.step == AtomicStep::Creating,
        append.proposed is Err ==> write is Err && write->Err_0 is Serialize,
        append.proposed is Ok ==> (write is Ok <==> undo is Ok),
        (target == TargetState::Regular || target == TargetState::NotFound) && file_name(path@)
            is Some ==> undo is Ok,
{
}

/// A file that could not be put back is told by the step that failed.
pub proof fn lemma_rollback_error_names_its_step()
    ensures
        rollback_stage(RollbackStep::Truncating) == "truncate rollback"@,
        rollback_stage(RollbackStep::Seeking) == "seek rollback"@,
        rollback_stage(RollbackStep::Flushing) == "flush rollback"@,
        rollback_stage(RollbackStep::Syncing) == "fsync rollback"@,
{
}

} // verus!
