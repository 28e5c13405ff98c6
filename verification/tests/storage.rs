use solstone_tmux::paths::TargetState;
use solstone_tmux::storage::{
    atomic_write_bytes, atomic_write_metadata, conclude_failed_append, conclude_failed_metadata,
    planned_metadata_failure, AppendEvent, AppendRun, AppendStep, AtomicStep, DurableAppend, FaultPlan,
    MetadataLifecycle, SegmentMetadata, SessionMetadata, StorageError, StorageStage,
};

fn io(stage: &'static str) -> StorageError {
    StorageError::Io {
        stage,
        path: b"/p".to_vec(),
        source: "s".to_owned(),
    }
}

fn append(faults: &mut FaultPlan) -> AppendRun {
    AppendRun::begin(faults, b"/seg", "tmux_main_screen.jsonl", 10, 5)
}

#[test]
fn an_append_is_synced() {
    let mut run = append(&mut FaultPlan::default());
    assert_eq!(run.path, b"/seg/tmux_main_screen.jsonl");
    assert!(run.advance(AppendEvent::Succeeded).is_none());
    assert!(run.advance(AppendEvent::Measured(10)).is_none());
    let mut seen = Vec::new();
    while run.step != AppendStep::Done {
        seen.push(run.step);
        assert!(run.advance(AppendEvent::Succeeded).is_none());
    }
    assert_eq!(
        seen,
        vec![
            AppendStep::Seeking,
            AppendStep::Writing,
            AppendStep::Flushing,
            AppendStep::Syncing,
            AppendStep::SyncingDirectory,
        ]
    );
}

#[test]
fn an_append_fails_at_each_stage() {
    let mut run = append(&mut FaultPlan::default());
    assert_eq!(
        run.advance(AppendEvent::NotOpened(io("open JSONL"))).expect("error").message(),
        "open JSONL failed for /p: s"
    );
    let mut run = append(&mut FaultPlan::default());
    run.advance(AppendEvent::Succeeded);
    assert_eq!(
        run.advance(AppendEvent::Measured(11)).expect("error").message(),
        "/seg/tmux_*_screen.jsonl has length 11, expected durable offset 10"
    );
    assert_eq!(run.step, AppendStep::Failed);
    let stages = [
        "inspect append offset",
        "seek append",
        "append",
        "flush",
        "fsync JSONL",
    ];
    for (i, stage) in stages.iter().enumerate() {
        let mut run = append(&mut FaultPlan::default());
        run.advance(AppendEvent::Succeeded);
        if i > 0 {
            run.advance(AppendEvent::Measured(10));
        }
        for _ in 1..i {
            run.advance(AppendEvent::Succeeded);
        }
        assert_eq!(
            run.advance(AppendEvent::Failed("x".to_owned())).expect("error").message(),
            format!("{stage} failed for /seg/tmux_*_screen.jsonl: x")
        );
    }
}

#[test]
fn planned_failures_are_used_up() {
    let mut faults = FaultPlan::at(vec![StorageStage::Append, StorageStage::JsonFsync, StorageStage::Rollback]);
    let mut run = append(&mut faults);
    run.advance(AppendEvent::Succeeded);
    run.advance(AppendEvent::Measured(10));
    run.advance(AppendEvent::Succeeded);
    assert_eq!(run.step, AppendStep::WritingPart(3));
    assert_eq!(
        run.advance(AppendEvent::Succeeded).expect("error").message(),
        "append injection failed for /seg/tmux_*_screen.jsonl: injected Append failure"
    );
    assert_eq!(faults.stages, [StorageStage::Rollback]);
    let mut faults = FaultPlan::at(vec![StorageStage::Metadata]);
    assert!(planned_metadata_failure(&mut faults, &b"/p".to_vec()).is_some());
    assert!(planned_metadata_failure(&mut faults, &b"/p".to_vec()).is_none());
}

#[test]
fn failures_are_recoverable_where_all_was_put_back() {
    let recoverable = conclude_failed_append(io("append"), None);
    assert!(!recoverable.is_poisoned());
    assert_eq!(recoverable.message(), "append rolled back: append failed for /p: s");
    let poisoned = conclude_failed_append(io("append"), Some(io("truncate rollback")));
    assert!(poisoned.is_poisoned());
    assert_eq!(
        poisoned.message(),
        "append failed and rollback failed: operation=append failed for /p: s; rollback=truncate rollback failed for /p: s"
    );
    assert!(!conclude_failed_metadata(io("m"), None, None).is_poisoned());
    let both = conclude_failed_metadata(io("m"), None, Some(io("n")));
    assert!(both.is_poisoned());
    assert_eq!(
        both.message(),
        "append failed and rollback failed: operation=m failed for /p: s; rollback=rollback group failed (JSONL=ok, metadata=n failed for /p: s)"
    );
    assert_eq!(
        StorageError::InvalidTarget(b"/x".to_vec()).message(),
        "invalid file target: /x"
    );
}

#[test]
fn contents_are_replaced_in_one_step() {
    let begin = |target: TargetState| {
        atomic_write_bytes(b"/d/state.json", b"/d", b"new".to_vec(), target, "x".to_owned(), 42, 7)
    };
    let mut write = begin(TargetState::NotFound).expect("write");
    assert_eq!(write.temporary, b"/d/.state.json.42.7.tmp");
    let mut seen = Vec::new();
    while write.step != AtomicStep::Done {
        seen.push(write.step);
        assert!(write.advance(None).is_none());
    }
    assert_eq!(
        seen,
        vec![
            AtomicStep::Creating,
            AtomicStep::Restricting,
            AtomicStep::Writing,
            AtomicStep::Flushing,
            AtomicStep::Syncing,
            AtomicStep::Renaming,
            AtomicStep::SyncingDirectory,
        ]
    );
    for (i, text) in [
        "create metadata temporary failed for /d/.state.json.42.7.tmp: e",
        "set metadata permissions failed for /d/.state.json.42.7.tmp: e",
        "write metadata failed for /d/.state.json.42.7.tmp: e",
        "flush metadata failed for /d/.state.json.42.7.tmp: e",
        "fsync metadata failed for /d/.state.json.42.7.tmp: e",
        "rename metadata failed for /d/state.json: e",
        "fsync directory failed for /d: e",
    ]
    .iter()
    .enumerate()
    {
        let mut write = begin(TargetState::Regular).expect("write");
        for _ in 0..i {
            write.advance(None);
        }
        assert_eq!(write.advance(Some("e".to_owned())).expect("error").message(), *text);
        assert_eq!(write.step, AtomicStep::Failed);
        assert!(write.advance(None).is_none());
        assert_eq!(write.step, AtomicStep::Failed);
    }
    assert!(matches!(begin(TargetState::NotRegular), Err(StorageError::InvalidTarget(_))));
    assert_eq!(
        begin(TargetState::Unreadable).expect_err("error").message(),
        "inspect atomic write target failed for /d/state.json: x"
    );
    assert!(matches!(
        atomic_write_bytes(b"/d/..", b"/d", Vec::new(), TargetState::NotFound, String::new(), 1, 1),
        Err(StorageError::InvalidTarget(_))
    ));
}

#[test]
fn metadata_ends_in_a_newline() {
    let write = atomic_write_metadata(
        b"/d/m",
        b"/d",
        Ok(b"{}".to_vec()),
        TargetState::NotFound,
        String::new(),
        1,
        2,
    )
    .expect("write");
    assert_eq!(write.bytes, b"{}\n");
    assert_eq!(
        SegmentMetadata::to_bytes(Err("bad".to_owned())).expect_err("error").message(),
        "metadata serialization failed: bad"
    );
    let session = |name: &str| {
        (
            name.to_owned(),
            SessionMetadata {
                session: name.to_owned(),
                filename: format!("tmux_{name}_screen.jsonl"),
                last_frame_id: 1,
                durable_offset: 2,
            },
        )
    };
    let mut metadata = SegmentMetadata {
        schema_version: SegmentMetadata::SCHEMA_VERSION,
        lifecycle: MetadataLifecycle::Open,
        incomplete_dir: "i".to_owned(),
        finalized_dir: "f".to_owned(),
        start_wall_unix_nanos: 1,
        local_offset_seconds: 0,
        elapsed_nanos: 0,
        last_durable_frame_id: 3,
        durable_frame_count: 3,
        has_durable_frames: true,
        sessions: Vec::new(),
    };
    assert!(metadata.names_sessions_once());
    metadata.sessions = vec![session("a"), session("b"), session("a")];
    assert!(!metadata.names_sessions_once());
    metadata.sessions.pop();
    assert!(metadata.names_sessions_once());
    assert_eq!(DurableAppend::accepted(metadata).into_metadata().last_durable_frame_id, 3);
}

#[test]
fn errors_do_not_show_the_name_of_a_session() {
    let error = |path: &str| StorageError::InvalidTarget(path.as_bytes().to_vec()).message();
    assert_eq!(
        error("/c/tmux_private~70_screen.jsonl"),
        "invalid file target: /c/tmux_*_screen.jsonl"
    );
    assert_eq!(
        error("/c/.tmux_private_screen.jsonl.42.7.tmp"),
        "invalid file target: /c/tmux_*_screen.jsonl"
    );
    assert_eq!(error("tmux_x_screen.jsonl"), error("tmux_y_screen.jsonl"));
    assert_eq!(error("/d/tmux_data"), "invalid file target: /d/tmux_data");
    assert_eq!(error("/d/my_screen.jsonl"), "invalid file target: /d/my_screen.jsonl");
    assert_eq!(error("/tmux_dir/state.json"), "invalid file target: /tmux_dir/state.json");
}
