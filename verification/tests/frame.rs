use solstone_tmux::frame::{FrameAppend, FrameEvent, FrameStep, Rollback, RollbackStep};
use solstone_tmux::paths::TargetState;
use solstone_tmux::storage::{AppendEvent, AppendStep, AtomicStep, FaultPlan, StorageError, StorageStage};

fn io(stage: &'static str) -> StorageError {
    StorageError::Io {
        stage,
        path: b"/p".to_vec(),
        source: "s".to_owned(),
    }
}

fn begin() -> FrameAppend {
    FrameAppend::begin(3, Ok(b"{}".to_vec()))
}

#[test]
fn a_frame_is_accepted_whole() {
    let mut append = begin();
    assert_eq!(append.step, FrameStep::ReadingMetadata);
    assert!(append.advance(FrameEvent::MetadataRead(b"old".to_vec())).is_none());
    assert_eq!(append.step, FrameStep::Appending);
    assert!(append.advance(FrameEvent::Worked).is_none());
    assert_eq!(append.step, FrameStep::WritingMetadata);
    assert!(append.advance(FrameEvent::Worked).is_none());
    assert_eq!(append.step, FrameStep::Accepted);
}

#[test]
fn a_frame_that_fails_is_undone() {
    let mut append = begin();
    let error = append.advance(FrameEvent::Failed(io("read"))).expect("failed");
    assert_eq!(error.message(), "read failed for /p: s");
    assert_eq!(append.step, FrameStep::Failed);

    let mut append = begin();
    append.advance(FrameEvent::MetadataRead(Vec::new()));
    assert!(append.advance(FrameEvent::Failed(io("append"))).is_none());
    assert_eq!(append.step, FrameStep::UndoingAppend);
    let error = append.advance(FrameEvent::Worked).expect("failed");
    assert_eq!(error.message(), "append rolled back: append failed for /p: s");

    let mut append = begin();
    append.advance(FrameEvent::MetadataRead(Vec::new()));
    append.advance(FrameEvent::Worked);
    assert!(append.advance(FrameEvent::Failed(io("m"))).is_none());
    assert_eq!(append.step, FrameStep::UndoingFrame);
    assert!(append.advance(FrameEvent::Failed(io("j"))).is_none());
    assert_eq!(append.step, FrameStep::UndoingMetadata);
    let error = append.advance(FrameEvent::Worked).expect("failed");
    assert!(error.is_poisoned());
    assert_eq!(
        error.message(),
        "append failed and rollback failed: operation=m failed for /p: s; rollback=rollback group failed (JSONL=j failed for /p: s, metadata=ok)"
    );
}

#[test]
fn what_is_written_comes_from_the_append_itself() {
    let mut append = begin();
    append.advance(FrameEvent::MetadataRead(b"old".to_vec()));
    let run = append.append(&mut FaultPlan::default(), b"/seg", "f", 5);
    assert_eq!(run.previous_offset, 3);
    assert_eq!(run.path, b"/seg/f");
    let write = append
        .metadata_write(b"/d/m.json", b"/d", TargetState::Regular, String::new(), 1, 2)
        .expect("write");
    assert_eq!(write.bytes, b"{}\n");
    assert_eq!(write.step, AtomicStep::Creating);
    let undo = append
        .metadata_undo(b"/d/m.json", b"/d", TargetState::Regular, String::new(), 1, 3)
        .expect("undo");
    assert_eq!(undo.bytes, b"old");
    assert!(append
        .metadata_undo(b"/d/m.json", b"/d", TargetState::NotRegular, String::new(), 1, 3)
        .is_err());
    let unwritten = FrameAppend::begin(0, Err("no json".to_owned()));
    assert_eq!(
        unwritten
            .metadata_write(b"/d/m.json", b"/d", TargetState::Regular, String::new(), 1, 2)
            .expect_err("serialize")
            .message(),
        "metadata serialization failed: no json"
    );
}

#[test]
fn a_rollback_goes_back_to_the_offset() {
    let mut faults = FaultPlan::at(vec![StorageStage::Rollback]);
    assert_eq!(
        begin().rollback(&mut faults, b"/p".to_vec(), true).expect_err("planned").message(),
        "rollback injection failed for /p: injected Rollback failure"
    );
    let mut rollback = begin().rollback(&mut faults, b"/p".to_vec(), true).expect("rollback");
    assert_eq!(rollback.offset, 3);
    let mut seen = Vec::new();
    while rollback.step != RollbackStep::Done {
        seen.push(rollback.step);
        assert!(rollback.advance(None).is_none());
    }
    assert_eq!(
        seen,
        [
            RollbackStep::Truncating,
            RollbackStep::Seeking,
            RollbackStep::Flushing,
            RollbackStep::Syncing
        ]
    );
    let closed = begin().rollback(&mut faults, b"/p".to_vec(), false).expect("rollback");
    assert_eq!(closed.step, RollbackStep::Done);
    for (i, stage) in ["truncate rollback", "seek rollback", "flush rollback", "fsync rollback"].iter().enumerate() {
        let mut rollback = Rollback::begin(&mut faults, b"/p".to_vec(), 3, true).expect("rollback");
        for _ in 0..i {
            rollback.advance(None);
        }
        assert_eq!(
            rollback.advance(Some("x".to_owned())).expect("error").message(),
            format!("{stage} failed for /p: x")
        );
        assert_eq!(rollback.step, RollbackStep::Failed);
    }
}

/// The bytes of a file after an append of `frame`, of which the write fails after `stop`
/// bytes where there is such a number.
fn append(append: &FrameAppend, bytes: &mut Vec<u8>, frame: &[u8], stop: Option<usize>) -> Result<(), StorageError> {
    let mut run = append.append(&mut FaultPlan::default(), b"/seg", "f", frame.len());
    let mut position = 0;
    loop {
        let event = match run.step {
            AppendStep::Done => return Ok(()),
            AppendStep::Measuring => AppendEvent::Measured(bytes.len() as u64),
            AppendStep::Seeking => {
                position = run.previous_offset as usize;
                AppendEvent::Succeeded
            }
            AppendStep::Writing => {
                bytes.truncate(position);
                bytes.extend_from_slice(&frame[..stop.unwrap_or(frame.len())]);
                match stop {
                    None => AppendEvent::Succeeded,
                    Some(_) => AppendEvent::Failed("full".to_owned()),
                }
            }
            _ => AppendEvent::Succeeded,
        };
        if let Some(error) = run.advance(event) {
            return Err(error);
        }
    }
}

fn roll_back(append: &FrameAppend, bytes: &mut Vec<u8>) {
    let mut rollback = append
        .rollback(&mut FaultPlan::default(), b"/p".to_vec(), true)
        .expect("rollback");
    while rollback.step != RollbackStep::Done {
        if rollback.step == RollbackStep::Truncating {
            bytes.resize(rollback.offset as usize, 0);
        }
        rollback.advance(None);
    }
}

fn event(outcome: Result<(), StorageError>) -> FrameEvent {
    match outcome {
        Ok(()) => FrameEvent::Worked,
        Err(error) => FrameEvent::Failed(error),
    }
}

/// A whole append on files in memory; the metadata is written where `written` says so.
fn run(frames: &mut Vec<u8>, metadata: &mut Vec<u8>, stop: Option<usize>, written: bool) -> Option<StorageError> {
    let mut whole = begin();
    loop {
        let next = match whole.step {
            FrameStep::ReadingMetadata => FrameEvent::MetadataRead(metadata.clone()),
            FrameStep::Appending => event(append(&whole, frames, b"frame", stop)),
            FrameStep::UndoingAppend | FrameStep::UndoingFrame => {
                roll_back(&whole, frames);
                FrameEvent::Worked
            }
            FrameStep::WritingMetadata => {
                let write = whole
                    .metadata_write(b"/d/m", b"/d", TargetState::Regular, String::new(), 1, 1)
                    .expect("write");
                *metadata = write.bytes;
                if written {
                    FrameEvent::Worked
                } else {
                    FrameEvent::Failed(io("fsync directory"))
                }
            }
            FrameStep::UndoingMetadata => {
                let undo = whole
                    .metadata_undo(b"/d/m", b"/d", TargetState::Regular, String::new(), 1, 2)
                    .expect("undo");
                *metadata = undo.bytes;
                FrameEvent::Worked
            }
            FrameStep::Accepted => return None,
            FrameStep::Failed => panic!("a failed append has returned its error"),
        };
        if let Some(error) = whole.advance(next) {
            return Some(error);
        }
    }
}

#[test]
fn an_accepted_frame_stands_behind_the_old_bytes() {
    let (mut frames, mut metadata) = (b"abc".to_vec(), b"old".to_vec());
    assert!(run(&mut frames, &mut metadata, None, true).is_none());
    assert_eq!(frames, b"abcframe");
    assert_eq!(metadata, b"{}\n");
}

#[test]
fn a_recoverable_failure_leaves_both_files_as_they_were() {
    for (stop, written) in [(Some(2), true), (Some(0), true), (None, false)] {
        let (mut frames, mut metadata) = (b"abc".to_vec(), b"old".to_vec());
        let error = run(&mut frames, &mut metadata, stop, written).expect("failed");
        assert!(matches!(error, StorageError::Recoverable(_)));
        assert_eq!(frames, b"abc");
        assert_eq!(metadata, b"old");
    }
    let (mut frames, mut metadata) = (b"abcd".to_vec(), b"old".to_vec());
    assert!(run(&mut frames, &mut metadata, None, true).is_some());
    assert_eq!(frames, b"abc");
    assert_eq!(metadata, b"old");
}
