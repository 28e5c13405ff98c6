use solstone_tmux::command::{CommandOutput, TmuxOperation};
use solstone_tmux::indicator::{
    activity_value, check_option_command, conclude_restore, default_status_left, read_option, restore_failure,
    restore_value, CommandIndicatorIo, IndicatorError, IndicatorInstall, InstallEvent, InstallStep, OptionValue,
    RestoreAction, INDICATOR_PREFIX, SOLSTONE_OPTION, STATUS_LEFT,
};
use solstone_tmux::model::ClientInfo;
use solstone_tmux::sync::SyncActivity;
use solstone_tmux::tmux::{
    active_window, assemble_capture, failure_warning, list_active_clients, list_clients, operation_arguments,
    parse_panes, parse_windows, read_output, skip_warning, TmuxAdapter, TmuxError,
};

fn clients(stdout: &str) -> (Vec<(String, i64)>, Vec<String>) {
    let (clients, warnings) = list_clients(stdout);
    (
        clients.into_iter().map(|c| (c.session, c.activity)).collect(),
        warnings,
    )
}

#[test]
fn clients_are_listed_once_with_their_activity() {
    let (listed, warnings) = clients("main 100\nmy session 200\nmain 100\nmain 101\n\nnone\n x\nbad x\n 7\n");
    assert_eq!(
        listed,
        vec![("main".to_owned(), 100), ("my session".to_owned(), 200)]
    );
    assert_eq!(
        warnings,
        vec![
            "dropping malformed list-clients row: duplicate session has contradictory activity",
            "dropping malformed list-clients row: empty row",
            "dropping malformed list-clients row: missing activity separator",
            "dropping malformed list-clients row: empty session identity",
            "dropping malformed list-clients row: activity is not an integer",
            "dropping malformed list-clients row: empty session identity",
        ]
    );
}

#[test]
fn idle_clients_are_left_out() {
    let client = |session: &str, activity: i64| ClientInfo {
        session: session.to_owned(),
        activity,
    };
    let all = vec![client("a", 95), client("b", 94), client("c", 200), client("d", i64::MIN)];
    let active = list_active_clients(&all, 100, 5);
    assert_eq!(active, vec![client("a", 95), client("c", 200)]);
    assert_eq!(list_active_clients(&all, i64::MAX, u64::MAX).len(), 4);
}

#[test]
fn windows_are_parsed() {
    let operation = || TmuxOperation::ListWindows("main".to_owned());
    let windows = parse_windows("0 @1 0 vim\n1 @2 1 my window\n", operation()).expect("windows");
    assert_eq!(windows.len(), 2);
    assert_eq!(windows[1].name, "my window");
    assert_eq!(active_window(&windows).expect("active").id, "@2");
    assert!(active_window(&Vec::new()).is_none());
    let detail = |stdout: &str| match parse_windows(stdout, operation()) {
        Err(TmuxError::Malformed { detail, .. }) => detail,
        other => panic!("{other:?}"),
    };
    assert_eq!(detail(""), "empty successful output");
    assert_eq!(detail("\n"), "invalid row \"\"");
    assert_eq!(detail("1 @1 0 "), "invalid row \"1 @1 0 \"");
    assert_eq!(detail("2 @1 0 a"), "invalid row \"2 @1 0 a\"");
    assert_eq!(detail("1 @1 x a"), "invalid row \"1 @1 x a\"");
    assert_eq!(
        detail("1 @1 0 a\n0 @1 1 b"),
        "duplicate ID or index in row \"0 @1 1 b\""
    );
    assert_eq!(
        detail("1 @1 0 a\n0 @2 0 b"),
        "duplicate ID or index in row \"0 @2 0 b\""
    );
    assert_eq!(detail("0 @1 0 a"), "expected exactly one active window");
    assert_eq!(detail("1 @1 0 a\n1 @2 1 b"), "expected exactly one active window");
    assert_eq!(
        parse_windows("", operation()).expect_err("empty").message(),
        "malformed ListWindows output: empty successful output"
    );
}

#[test]
fn panes_are_parsed_and_filled() {
    let operation = || TmuxOperation::ListPanes("@2".to_owned());
    let panes = parse_panes("%1 0 0 0 80 24 1\n%2 1 81 0 40 24 0\n", operation()).expect("panes");
    assert_eq!(panes[1].left, 81);
    assert_eq!(panes[1].content, "");
    let detail = |stdout: &str| match parse_panes(stdout, operation()) {
        Err(TmuxError::Malformed { detail, .. }) => detail,
        other => panic!("{other:?}"),
    };
    assert_eq!(detail("%1 0 0 0 0 24 1"), "nonpositive pane size in row \"%1 0 0 0 0 24 1\"");
    assert_eq!(detail("%1 0 0 0 80 24"), "invalid row \"%1 0 0 0 80 24\"");
    assert_eq!(detail("%1 0 0 0 80 24 1 x"), "invalid row \"%1 0 0 0 80 24 1 x\"");
    assert_eq!(detail("%1 0 0 0 80 24 y"), "invalid row \"%1 0 0 0 80 24 y\"");
    assert_eq!(detail("%1 0 0 0 80 4294967296 1"), "invalid row \"%1 0 0 0 80 4294967296 1\"");
    assert_eq!(
        detail("%1 0 0 0 80 24 1\n%1 1 0 0 80 24 0"),
        "duplicate ID or index in row \"%1 1 0 0 80 24 0\""
    );
    assert_eq!(detail("%1 0 0 0 80 24 0"), "expected exactly one active pane");
    let windows = parse_windows("1 @2 1 w\n", TmuxOperation::ListWindows("m".to_owned())).expect("windows");
    let window = active_window(&windows).expect("active");
    let capture = assemble_capture(
        "m",
        window,
        windows,
        panes,
        vec!["one".to_owned(), "two".to_owned()],
    );
    assert_eq!(capture.session, "m");
    assert_eq!(capture.panes[0].content, "one");
    assert_eq!(capture.panes[1].content, "two");
    assert_eq!(capture.panes[1].width, 40);
}

#[test]
fn commands_of_tmux_have_their_arguments() {
    assert_eq!(
        operation_arguments(&TmuxOperation::ListClients),
        vec!["list-clients", "-F", "#{client_session} #{client_activity}"]
    );
    assert_eq!(
        operation_arguments(&TmuxOperation::CapturePane("%1".to_owned())),
        vec!["capture-pane", "-p", "-e", "-t", "%1"]
    );
    assert_eq!(
        operation_arguments(&TmuxOperation::UnsetOption("@x".to_owned())),
        vec!["set-option", "-gu", "@x"]
    );
    let output = |status: i32, stdout: &[u8], stderr: &[u8]| CommandOutput {
        status,
        stdout: stdout.to_vec(),
        stderr: stderr.to_vec(),
    };
    assert_eq!(
        read_output(TmuxOperation::ListClients, output(0, b"a 1\n", b"")).expect("text"),
        "a 1\n"
    );
    assert_eq!(
        read_output(TmuxOperation::ListClients, output(1, b"", b"no server \n"))
            .expect_err("failed")
            .message(),
        "ListClients exited with status 1: no server"
    );
    assert_eq!(
        read_output(TmuxOperation::ListPanes("@1".to_owned()), output(0, b"\xff", b""))
            .expect_err("bytes")
            .message(),
        "ListPanes(\"@1\") returned non-UTF-8 output: invalid utf-8 sequence of 1 bytes from index 0"
    );
}

#[test]
fn tmux_must_be_an_absolute_path() {
    assert!(TmuxAdapter::new(b"/usr/bin/tmux".to_vec(), ()).is_ok());
    assert_eq!(
        TmuxAdapter::new(b"tmux".to_vec(), ()).map(|_| ()).expect_err("relative").message(),
        "tmux executable must be absolute: tmux"
    );
    assert!(TmuxAdapter::with_warnings(Vec::new(), (), ()).is_err());
    assert!(CommandIndicatorIo::new((), b"/t".to_vec()).is_ok());
    assert_eq!(
        CommandIndicatorIo::new((), b"t".to_vec()).map(|_| ()).expect_err("relative").message(),
        "tmux executable must be absolute"
    );
}

#[test]
fn sessions_that_cannot_be_kept_are_skipped() {
    assert_eq!(skip_warning("main"), None);
    assert_eq!(
        skip_warning("../x"),
        Some("a session was skipped before observation: identity must not contain path traversal".to_owned())
    );
    assert_eq!(
        failure_warning(
            &TmuxOperation::ListWindows("m".to_owned()),
            &TmuxError::Command("tmux list-windows -t m: gone".to_owned())
        ),
        "the observation of a session failed: tmux could not be run"
    );
    assert_eq!(
        failure_warning(
            &TmuxOperation::ListPanes("@1".to_owned()),
            &TmuxError::Command("gone".to_owned())
        ),
        "the observation of a session failed: gone"
    );
    assert_eq!(
        failure_warning(
            &TmuxOperation::ListWindows("m".to_owned()),
            &TmuxError::Nonzero {
                operation: TmuxOperation::ListWindows("m".to_owned()),
                status: 1,
                stderr: "can't find session: m".to_owned(),
            }
        ),
        "the observation of a session failed: ListWindows exited with status 1"
    );
}

#[test]
fn only_what_is_said_of_a_session_is_left_out() {
    let message = |operation: TmuxOperation| {
        TmuxError::Nonzero {
            operation,
            status: 2,
            stderr: "no such thing \n".to_owned(),
        }
        .message()
    };
    assert_eq!(message(TmuxOperation::ListClients), "ListClients exited with status 2: no such thing");
    assert_eq!(message(TmuxOperation::ListWindows("m".to_owned())), "ListWindows exited with status 2");
    assert_eq!(
        message(TmuxOperation::ListPanes("@1".to_owned())),
        "ListPanes(\"@1\") exited with status 2: no such thing"
    );
    assert_eq!(
        message(TmuxOperation::CapturePane("%1".to_owned())),
        "CapturePane(\"%1\") exited with status 2: no such thing"
    );
    assert_eq!(
        message(TmuxOperation::ShowOption("@solstone".to_owned())),
        "ShowOption(\"@solstone\") exited with status 2: no such thing"
    );
}

#[test]
fn warnings_about_clients_name_no_session() {
    let warnings = |name: &str, other: &str| {
        list_clients(&format!("{name} 1\n{other} x\n{name} 2\n{other} 5\n")).1
    };
    assert_eq!(warnings("main", "build"), warnings("private plans", "x"));
    assert_eq!(warnings("main", "build").len(), 2);
}

#[test]
fn options_are_read() {
    let output = |status: i32, stdout: &[u8]| CommandOutput {
        status,
        stdout: stdout.to_vec(),
        stderr: Vec::new(),
    };
    assert_eq!(
        read_option(STATUS_LEFT, &output(0, b"[#S]\n")).expect("value"),
        OptionValue::Present("[#S]".to_owned())
    );
    assert_eq!(
        read_option(STATUS_LEFT, &output(0, b"a\n\n")).expect("value"),
        OptionValue::Present("a\n".to_owned())
    );
    assert_eq!(
        read_option(SOLSTONE_OPTION, &output(1, b"")).expect("value"),
        OptionValue::Absent
    );
    assert_eq!(
        read_option(STATUS_LEFT, &output(1, b"")).expect_err("failed").message(),
        "tmux option command for status-left exited 1"
    );
    assert!(matches!(
        read_option(STATUS_LEFT, &output(0, b"\xff")),
        Err(IndicatorError::Protocol(_))
    ));
    assert!(check_option_command("x", 0).is_ok());
    assert!(check_option_command("x", 2).is_err());
    assert_eq!(activity_value(SyncActivity::Idle), "observing");
    assert_eq!(activity_value(SyncActivity::Working), "syncing");
}

#[test]
fn the_indicator_is_installed_and_taken_away() {
    let mut install = IndicatorInstall::install_default();
    install.advance(InstallEvent::Read(OptionValue::Present("[#S]".to_owned())));
    install.advance(InstallEvent::Read(OptionValue::Absent));
    assert_eq!(install.step, InstallStep::WritingStatusLeft);
    let (status_left, solstone) = install.values();
    assert_eq!(status_left, format!("{INDICATOR_PREFIX}[#S]"));
    assert_eq!(solstone, "observing");
    install.advance(InstallEvent::Written);
    install.advance(InstallEvent::Written);
    assert_eq!(install.step, InstallStep::Done);
    let mut owned = install.finish(());
    assert!(owned.check_solstone(&OptionValue::Present("observing".to_owned())));
    owned.note_solstone("syncing".to_owned());
    assert!(matches!(
        owned.restore_status_left(&OptionValue::Present(status_left)),
        Some(RestoreAction::Write(value)) if value == "[#S]"
    ));
    assert!(owned
        .restore_status_left(&OptionValue::Present("other".to_owned()))
        .is_none());
    assert!(matches!(
        owned.restore_solstone(&OptionValue::Present("syncing".to_owned())),
        Some(RestoreAction::Clear)
    ));
    assert!(!owned.check_solstone(&OptionValue::Present("mine".to_owned())));
    assert!(!owned.check_solstone(&OptionValue::Present("syncing".to_owned())));
    assert!(owned
        .restore_solstone(&OptionValue::Present("syncing".to_owned()))
        .is_none());
}

#[test]
fn a_half_installation_is_rolled_back() {
    let failed = |said: &str| InstallEvent::Failed(IndicatorError::Command(said.to_owned()));
    let half = || {
        let mut install = IndicatorInstall::install("a".to_owned(), "b".to_owned());
        install.advance(InstallEvent::Read(OptionValue::Absent));
        install.advance(InstallEvent::Read(OptionValue::Absent));
        install.advance(InstallEvent::Written);
        install.advance(failed("second"));
        install
    };
    let mut clean = half();
    assert_eq!(clean.step, InstallStep::RollingBack);
    clean.advance(InstallEvent::Written);
    assert_eq!(clean.step, InstallStep::Failed);
    assert_eq!(clean.error.as_ref().expect("error").message(), "second");
    let mut torn = half();
    torn.advance(failed("third"));
    assert_eq!(
        torn.error.as_ref().expect("error").message(),
        "second; status-left rollback also failed: third"
    );
    assert!(matches!(restore_value(&OptionValue::Absent), RestoreAction::Clear));
    assert_eq!(default_status_left(&OptionValue::Absent), INDICATOR_PREFIX);
    let error = IndicatorError::Command("x".to_owned());
    assert_eq!(restore_failure("n", true, &error), "n read: x");
    assert_eq!(restore_failure("n", false, &error), "n: x");
    assert!(conclude_restore(Vec::new()).is_ok());
    assert_eq!(
        conclude_restore(vec!["a".to_owned(), "b".to_owned()])
            .expect_err("failures")
            .message(),
        "indicator restoration failed: a; b"
    );
}
