use solstone_tmux::capture::{CaptureRun, CaptureStage, SessionCapture};
use solstone_tmux::command::{CommandOutput, TmuxOperation};
use solstone_tmux::model::ClientInfo;

fn wrote(text: &str) -> Result<CommandOutput, String> {
    Ok(CommandOutput {
        status: 0,
        stdout: text.as_bytes().to_vec(),
        stderr: Vec::new(),
    })
}

fn client(session: &str) -> ClientInfo {
    ClientInfo {
        session: session.to_owned(),
        activity: 1,
    }
}

#[test]
fn a_session_is_captured_step_by_step() {
    let mut capture = SessionCapture::begin("main");
    assert_eq!(capture.operation(), Some(TmuxOperation::ListWindows("main".to_owned())));
    capture.advance(wrote("0 @1 0 shell\n1 @2 1 my editor\n"));
    assert_eq!(capture.operation(), Some(TmuxOperation::ListPanes("@2".to_owned())));
    capture.advance(wrote("%1 0 0 0 80 24 1\n%2 1 80 0 80 24 0\n"));
    assert_eq!(capture.operation(), Some(TmuxOperation::CapturePane("%1".to_owned())));
    capture.advance(wrote("first\n"));
    assert_eq!(capture.operation(), Some(TmuxOperation::CapturePane("%2".to_owned())));
    capture.advance(wrote("second\n"));
    assert_eq!(capture.operation(), None);
    let CaptureStage::Finished(Ok(result)) = capture.stage else {
        panic!("finished");
    };
    assert_eq!(result.session, "main");
    assert_eq!(result.window.name, "my editor");
    assert_eq!(result.windows.len(), 2);
    let shown: Vec<(&str, &str)> = result.panes.iter().map(|p| (p.id.as_str(), p.content.as_str())).collect();
    assert_eq!(shown, [("%1", "first\n"), ("%2", "second\n")]);
}

#[test]
fn the_first_failure_ends_a_capture() {
    let mut capture = SessionCapture::begin("main");
    capture.advance(wrote("1 @2 1 w\n"));
    capture.advance(Err("gone".to_owned()));
    assert_eq!(capture.operation(), None);
    match capture.stage {
        CaptureStage::Finished(Err(error)) => assert_eq!(error.message(), "gone"),
        _ => panic!("failed"),
    }

    let mut capture = SessionCapture::begin("main");
    capture.advance(wrote("0 @2 1 w\n"));
    match capture.stage {
        CaptureStage::Finished(Err(error)) => assert_eq!(
            error.message(),
            "malformed ListWindows output: expected exactly one active window"
        ),
        _ => panic!("failed"),
    }
}

#[test]
fn a_failed_session_does_not_keep_the_others_from_being_captured() {
    let clients = [client("../up"), client("bad"), client("good")];
    let mut run = CaptureRun::begin(&clients);
    assert_eq!(run.at, 1);
    assert_eq!(run.operation(), Some(TmuxOperation::ListWindows("bad".to_owned())));
    run.advance(wrote(""));
    assert_eq!(run.operation(), Some(TmuxOperation::ListWindows("good".to_owned())));
    run.advance(wrote("1 @2 1 w\n"));
    run.advance(wrote("%1 0 0 0 80 24 1\n"));
    run.advance(wrote("x"));
    assert_eq!(run.operation(), None);
    assert_eq!(run.captures.len(), 1);
    assert_eq!(run.captures[0].session, "good");
    assert_eq!(
        run.warnings,
        [
            "a session was skipped before observation: identity must not contain path traversal",
            "the observation of a session failed: malformed ListWindows output: empty successful output",
        ]
    );
}

#[test]
fn a_run_without_clients_asks_nothing() {
    let run = CaptureRun::begin(&[]);
    assert_eq!(run.operation(), None);
    assert!(run.captures.is_empty());
    assert!(run.warnings.is_empty());
}

#[test]
fn warnings_name_neither_sessions_nor_what_panes_show() {
    let warnings = |up: &str, bad: &str, good: &str, shown: &str| {
        let clients = [client(up), client("lost"), client(bad), client(good)];
        let mut run = CaptureRun::begin(&clients);
        run.advance(Err(format!("could not run tmux list-windows -t {bad}")));
        run.advance(Ok(CommandOutput {
            status: 1,
            stdout: Vec::new(),
            stderr: format!("can't find session: {bad}").into_bytes(),
        }));
        run.advance(wrote("1 @2 1 w\n"));
        run.advance(wrote("%1 0 0 0 80 24 1\n%2 1 80 0 80 24 0\n"));
        run.advance(wrote(shown));
        run.advance(Err("timed out".to_owned()));
        assert_eq!(run.operation(), None);
        run.warnings
    };
    let first = warnings("../a", "bad", "good", "one");
    assert_eq!(first, warnings("../b", "secret", "plans", "two"));
    assert_eq!(
        first,
        [
            "a session was skipped before observation: identity must not contain path traversal",
            "the observation of a session failed: tmux could not be run",
            "the observation of a session failed: ListWindows exited with status 1",
            "the observation of a session failed: timed out",
        ]
    );
}
