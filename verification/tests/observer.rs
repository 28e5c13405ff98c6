use solstone_tmux::health::DiagnosticCode;
use solstone_tmux::name::derive_component;
use solstone_tmux::observer::{
    advance_poll, conclude_supervision, finish_supervision, join_error_message, observer_join_result,
    plan_supervision, retry_warning, stream_directory, sync_diagnostic, sync_failure, JoinFailure, ObserverEvent, ObserverExit,
    ObserverOperationError, ObserverRun, ObserverStep, PollEvent, PollStep, ShutdownEvent, SupervisionOrder,
    SupervisionTrigger, SyncOutcome,
};
use solstone_tmux::service::systemd::{
    advance_service, artifact_path, check_active, escape_unit_value, prepare_install, read_status,
    render, stop_succeeded, uninstall, unit_changed, validate_unit, RenderError, ServiceStatus, ServiceStep,
    UnitState,
};
use solstone_tmux::storage::StorageError;
use solstone_tmux::command::CommandOutput;
use solstone_tmux::paths::{contains_marker, TargetState};

fn said(text: &str) -> ObserverOperationError {
    ObserverOperationError(text.to_owned())
}

#[test]
fn an_observer_runs_until_a_shutdown() {
    let mut run = ObserverRun::new();
    for _ in 0..3 {
        run.advance(ObserverEvent::Tick);
        assert_eq!(run.step, ObserverStep::Capturing);
        run.advance(ObserverEvent::Captured);
        assert_eq!(run.step, ObserverStep::Storing);
        run.advance(ObserverEvent::Stored);
        assert_eq!(run.step, ObserverStep::Waiting);
    }
    run.advance(ObserverEvent::Tick);
    run.advance(ObserverEvent::Shutdown(ShutdownEvent::SigTerm));
    assert_eq!(run.step, ObserverStep::Closing);
    run.advance(ObserverEvent::Closed);
    assert_eq!(
        run.exit(),
        ObserverExit {
            exit_code: 0,
            shutdown_event: Some(ShutdownEvent::SigTerm),
            failures: Vec::new(),
        }
    );
}

#[test]
fn what_fails_in_an_observer_is_in_its_exit() {
    let after = |events: Vec<ObserverEvent>| {
        let mut run = ObserverRun::new();
        run.advance(ObserverEvent::Tick);
        for event in events {
            run.advance(event);
        }
        assert_eq!(run.step, ObserverStep::Done);
        let exit = run.exit();
        assert_eq!(exit.exit_code, 1);
        exit.failures
    };
    assert_eq!(
        after(vec![ObserverEvent::CaptureFailed(said("x")), ObserverEvent::Closed]),
        vec!["capture task exited: x"]
    );
    assert_eq!(
        after(vec![
            ObserverEvent::CaptureCrashed(JoinFailure::Cancelled),
            ObserverEvent::CloseFailed(said("y")),
        ]),
        vec!["capture task failed: task was cancelled", "segment shutdown failed: y"]
    );
    assert_eq!(
        after(vec![
            ObserverEvent::CaptureLost,
            ObserverEvent::CloseCrashed(JoinFailure::Panicked(Some("z".to_owned()))),
        ]),
        vec![
            "capture task exited without a result",
            "blocking segment shutdown failed: panic: z",
        ]
    );
    assert_eq!(
        after(vec![
            ObserverEvent::Captured,
            ObserverEvent::StoreFailed(said("x")),
            ObserverEvent::Closed,
        ]),
        vec!["segment poll failed: x"]
    );
    assert_eq!(
        after(vec![
            ObserverEvent::Captured,
            ObserverEvent::StoreCrashed(JoinFailure::Panicked(None)),
        ]),
        vec!["blocking segment task failed: panic: non-string panic payload"]
    );
    assert_eq!(join_error_message(&JoinFailure::Other("o".to_owned())), "o");
}

fn exit(code: i32, failures: &[&str]) -> ObserverExit {
    ObserverExit {
        exit_code: code,
        shutdown_event: Some(ShutdownEvent::SigInt),
        failures: failures.iter().map(|s| (*s).to_owned()).collect(),
    }
}

#[test]
fn supervision_ends_the_synchronisation_first() {
    for trigger in [
        SupervisionTrigger::Observer,
        SupervisionTrigger::ObserverShutdown,
        SupervisionTrigger::IndicatorFailed,
    ] {
        let orders = plan_supervision(trigger);
        let at = |order: SupervisionOrder| orders.iter().position(|o| *o == order).expect("order");
        assert!(at(SupervisionOrder::StopSync) < at(SupervisionOrder::AwaitSync));
        assert!(at(SupervisionOrder::AwaitSync) < at(SupervisionOrder::ReleaseObserver));
    }
    assert_eq!(
        plan_supervision(SupervisionTrigger::Sync),
        vec![
            SupervisionOrder::StopObserver,
            SupervisionOrder::ReleaseObserver,
            SupervisionOrder::AwaitObserver,
        ]
    );
}

#[test]
fn supervision_gathers_failures() {
    let end = |trigger: SupervisionTrigger, sync: Option<&str>| {
        conclude_supervision(
            trigger,
            exit(0, &["o"]),
            sync.map(str::to_owned),
            "i".to_owned(),
        )
    };
    assert_eq!(end(SupervisionTrigger::Observer, Some("s")), exit(1, &["o", "s"]));
    assert_eq!(end(SupervisionTrigger::ObserverShutdown, None), exit(1, &["o"]));
    assert_eq!(end(SupervisionTrigger::Sync, Some("s")), exit(1, &["s", "o"]));
    assert_eq!(
        end(SupervisionTrigger::IndicatorFailed, Some("s")),
        exit(1, &["i", "s", "o"])
    );
    let clean = conclude_supervision(SupervisionTrigger::ObserverShutdown, exit(0, &[]), None, String::new());
    assert_eq!(clean.exit_code, 0);
    assert_eq!(finish_supervision(exit(0, &[]), None), exit(0, &[]));
    assert_eq!(
        finish_supervision(exit(0, &[]), Some("r".to_owned())),
        exit(1, &["indicator shutdown failed: r"])
    );
    assert_eq!(
        observer_join_result(Err(JoinFailure::Cancelled)),
        ObserverExit {
            exit_code: 1,
            shutdown_event: None,
            failures: vec!["observer task failed: task was cancelled".to_owned()],
        }
    );
    assert_eq!(observer_join_result(Ok(exit(0, &[]))), exit(0, &[]));
}

#[test]
fn the_end_of_the_synchronisation_has_a_code() {
    assert_eq!(sync_diagnostic(SyncOutcome::Finished, true), None);
    assert_eq!(
        sync_diagnostic(SyncOutcome::Finished, false),
        Some(DiagnosticCode::SyncTaskExited)
    );
    assert_eq!(
        sync_diagnostic(SyncOutcome::Failed(DiagnosticCode::PrivateStateIo), true),
        Some(DiagnosticCode::PrivateStateIo)
    );
    assert_eq!(
        sync_diagnostic(SyncOutcome::Panicked, true),
        Some(DiagnosticCode::SyncTaskPanicked)
    );
    assert_eq!(
        sync_diagnostic(SyncOutcome::Cancelled, false),
        Some(DiagnosticCode::SyncTaskCancelled)
    );
    assert_eq!(
        sync_failure(SyncOutcome::Failed(DiagnosticCode::PrivateStateIo), "m"),
        "sync task failed: m"
    );
    assert_eq!(sync_failure(SyncOutcome::Panicked, "m"), "m");
}

#[test]
fn a_poll_goes_through_its_captures() {
    let mut step = advance_poll(PollStep::Checking, 2, PollEvent::Rotation { due: true });
    assert_eq!(step, PollStep::Finalizing);
    step = advance_poll(step, 2, PollEvent::Succeeded);
    assert_eq!(step, PollStep::Creating);
    step = advance_poll(step, 2, PollEvent::Succeeded);
    assert_eq!(step, PollStep::Appending(0));
    step = advance_poll(step, 2, PollEvent::RolledBack);
    assert_eq!(step, PollStep::Appending(1));
    assert_eq!(advance_poll(step, 2, PollEvent::Succeeded), PollStep::Done);
    assert_eq!(advance_poll(step, 2, PollEvent::Failed), PollStep::Failed);
    assert_eq!(
        advance_poll(PollStep::Checking, 0, PollEvent::Rotation { due: false }),
        PollStep::Done
    );
    let stream = derive_component("box.tmux").expect("stream");
    assert_eq!(
        stream_directory(b"/d", &stream, "20260907").expect("path"),
        b"/d/captures/20260907/box.tmux"
    );
}

#[test]
fn a_unit_is_rendered() {
    assert_eq!(
        artifact_path(b"/home/u"),
        b"/home/u/.config/systemd/user/solstone-tmux.service"
    );
    let unit = render(b"/opt/a \"b\"/x%\\y", b"/bin").expect("unit");
    assert_eq!(
        unit,
        "[Unit]\nDescription=Solstone Tmux Observer\nAfter=basic.target\nStartLimitIntervalSec=300\nStartLimitBurst=5\n\n[Service]\nType=simple\nEnvironment=\"PATH=/bin\"\nExecStart=\"/opt/a \\\"b\\\"/x%%\\\\y\" run\nRestart=on-failure\nRestartSec=5\n\n[Install]\nWantedBy=default.target\n"
    );
    assert_eq!(render(b"/a\nb", b"/bin"), Err(RenderError::ControlCharacter));
    assert_eq!(render(b"/a", b"\xff"), Err(RenderError::NotText));
    assert_eq!(escape_unit_value(b"a%"), Ok("a%%".to_owned()));
    assert!(!unit_changed(&Some(unit.as_bytes().to_vec()), &unit));
    assert!(unit_changed(&Some(b"x".to_vec()), &unit));
    assert!(unit_changed(&None, &unit));
    assert_eq!(validate_unit(TargetState::Regular, Some(unit.as_bytes())), UnitState::Owned);
    assert_eq!(
        validate_unit(TargetState::Regular, Some(b"Description=Solstone Tmux Terminal Observer\n")),
        UnitState::Legacy
    );
    assert_eq!(validate_unit(TargetState::Regular, Some(b"other")), UnitState::Foreign);
    assert_eq!(validate_unit(TargetState::Regular, None), UnitState::Unreadable);
    assert_eq!(validate_unit(TargetState::Unreadable, None), UnitState::Unreadable);
    assert_eq!(validate_unit(TargetState::NotRegular, Some(unit.as_bytes())), UnitState::Foreign);
    assert_eq!(validate_unit(TargetState::NotFound, None), UnitState::Absent);
    assert!(contains_marker(b"xaby", b"ab"));
    assert!(!contains_marker(b"xa", b"ab"));
    assert!(contains_marker(b"x", b""));
}

#[test]
fn the_service_is_changed_step_by_step() {
    let mut step = prepare_install(UnitState::Absent, true);
    let mut seen = vec![step];
    while step != ServiceStep::Done {
        step = advance_service(step, true);
        seen.push(step);
    }
    assert_eq!(
        seen,
        vec![ServiceStep::Stopping, ServiceStep::Writing, ServiceStep::Reloading, ServiceStep::Done]
    );
    assert_eq!(prepare_install(UnitState::Owned, false), ServiceStep::Done);
    assert_eq!(prepare_install(UnitState::Legacy, true), ServiceStep::Failed);
    assert_eq!(uninstall(UnitState::Absent), ServiceStep::Done);
    assert_eq!(uninstall(UnitState::Foreign), ServiceStep::Failed);
    assert_eq!(advance_service(uninstall(UnitState::Owned), true), ServiceStep::Removing);
    assert_eq!(advance_service(ServiceStep::Enabling, true), ServiceStep::Checking);
    assert_eq!(advance_service(ServiceStep::Checking, false), ServiceStep::Failed);
    let output = |status: i32, stdout: &str| CommandOutput {
        status,
        stdout: stdout.as_bytes().to_vec(),
        stderr: Vec::new(),
    };
    assert!(check_active(&output(0, "active\n")));
    assert!(!check_active(&output(3, "active\n")));
    assert_eq!(read_status(false, &output(0, ""), false), Some(ServiceStatus::Absent));
    assert_eq!(read_status(true, &output(0, "active\n"), false), Some(ServiceStatus::Active));
    assert_eq!(read_status(true, &output(3, "inactive\n"), false), Some(ServiceStatus::Inactive));
    assert_eq!(read_status(true, &output(4, ""), true), Some(ServiceStatus::Inactive));
    assert_eq!(read_status(true, &output(1, "odd"), false), None);
    assert!(stop_succeeded(0, false) && stop_succeeded(5, true) && !stop_succeeded(5, false));
}

#[test]
fn an_append_that_was_taken_back_is_reported_without_its_session() {
    let error = |session: &str| StorageError::Recoverable(Box::new(StorageError::Io {
        stage: "append",
        path: format!("/data/captures/20260101/host/120000_300/tmux_{session}_screen.jsonl").into_bytes(),
        source: "disk full".to_owned(),
    }));
    assert_eq!(
        retry_warning(&error("main")),
        "durable append rolled back and will retry: append rolled back: append failed for /data/captures/20260101/host/120000_300/tmux_*_screen.jsonl: disk full"
    );
    assert_eq!(retry_warning(&error("main")), retry_warning(&error("other")));
}
