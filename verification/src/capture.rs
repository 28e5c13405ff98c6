//! The capture of sessions: tmux is asked for a session's windows, for the panes of the
//! window that is shown, and for what each of them shows.

use vstd::prelude::*;
use vstd::string::*;
use vstd::utf8::*;

use crate::command::{CommandOutput, OperationView, OutputView, TmuxOperation};
use crate::model::{CaptureResult, ClientInfo, PaneInfo, WindowInfo};
use crate::name::derivation;
use crate::text::{copy, texts};
use crate::tmux::{
    active_panes, active_window, active_windows, assemble_capture, client_views, failure_text,
    failure_warning, filled_panes, first_active, is_plain_pane, is_plain_window,
    lemma_listed_session_has_window, lemma_panes_are_read_back, lemma_panes_are_sound,
    lemma_windows_are_read_back, lemma_windows_are_sound, only_active_pane, only_active_window,
    output_text, pane_listing, pane_views, panes_differ, panes_text, parse_panes, parse_windows,
    read_output, skip_text, skip_warning, window_listing, window_views, windows_differ,
    windows_text, ClientView, PaneView, TmuxError, TmuxErrorView, WindowView,
};

verus! {

pub ghost struct CaptureView {
    pub session: Seq<char>,
    pub window: WindowView,
    pub windows: Seq<WindowView>,
    pub panes: Seq<PaneView>,
}

impl View for CaptureResult {
    type V = CaptureView;

    open spec fn view(&self) -> CaptureView {
        CaptureView {
            session: self.session@,
            window: self.window@,
            windows: window_views(self.windows@),
            panes: pane_views(self.panes@),
        }
    }
}

pub open spec fn capture_views(v: Seq<CaptureResult>) -> Seq<CaptureView> {
    v.map_values(|c: CaptureResult| c@)
}

/// What a command came to: its output, or why it could not be run.
pub open spec fn answer_view(answer: Result<CommandOutput, String>) -> Result<
    OutputView,
    Seq<char>,
> {
    match answer {
        Ok(output) => Ok(output@),
        Err(said) => Err(said@),
    }
}

/// The text that a command wrote.
pub open spec fn answer_text(
    operation: OperationView,
    answer: Result<OutputView, Seq<char>>,
) -> Result<Seq<char>, TmuxErrorView> {
    match answer {
        Ok(output) => output_text(operation, output),
        Err(said) => Err(TmuxErrorView::Command(said)),
    }
}

fn read_answer(operation: TmuxOperation, answer: Result<CommandOutput, String>) -> (r: Result<
    String,
    TmuxError,
>)
    ensures
        match r {
            Ok(text) => answer_text(operation@, answer_view(answer)) == Ok::<
                Seq<char>,
                TmuxErrorView,
            >(text@),
            Err(error) => answer_text(operation@, answer_view(answer)) == Err::<
                Seq<char>,
                TmuxErrorView,
            >(error@),
        },
{
    match answer {
        Ok(output) => read_output(operation, output),
        Err(said) => Err(TmuxError::Command(said)),
    }
}

// ---------------------------------------------------------------------------
// One session
// ---------------------------------------------------------------------------

/// How far the capture of a session has come.
#[derive(Debug)]
pub enum CaptureStage {
    /// Ask for the session's windows.
    Windows,
    /// Ask for the panes of the window that is shown.
    Panes { window: WindowInfo, windows: Vec<WindowInfo> },
    /// Ask for what the next pane shows.
    Contents {
        window: WindowInfo,
        windows: Vec<WindowInfo>,
        panes: Vec<PaneInfo>,
        contents: Vec<String>,
    },
    Finished(Result<CaptureResult, TmuxError>),
}

pub ghost enum StageView {
    Windows,
    Panes { window: WindowView, windows: Seq<WindowView> },
    Contents {
        window: WindowView,
        windows: Seq<WindowView>,
        panes: Seq<PaneView>,
        contents: Seq<Seq<char>>,
    },
    Finished(Result<CaptureView, TmuxErrorView>),
}

impl View for CaptureStage {
    type V = StageView;

    open spec fn view(&self) -> StageView {
        match *self {
            CaptureStage::Windows => StageView::Windows,
            CaptureStage::Panes { window, windows } => StageView::Panes {
                window: window@,
                windows: window_views(windows@),
            },
            CaptureStage::Contents { window, windows, panes, contents } => StageView::Contents {
                window: window@,
                windows: window_views(windows@),
                panes: pane_views(panes@),
                contents: texts(contents@),
            },
            CaptureStage::Finished(Ok(capture)) => StageView::Finished(Ok(capture@)),
            CaptureStage::Finished(Err(error)) => StageView::Finished(Err(error@)),
        }
    }
}

/// What tmux is asked at a stage.
pub open spec fn question(session: Seq<char>, stage: StageView) -> Option<OperationView> {
    match stage {
        StageView::Windows => Some(OperationView::ListWindows(session)),
        StageView::Panes { window, .. } => Some(OperationView::ListPanes(window.id)),
        StageView::Contents { panes, contents, .. } => Some(
            OperationView::CapturePane(panes[contents.len() as int].id),
        ),
        StageView::Finished(_) => None,
    }
}

/// The stage after the windows were listed.
pub open spec fn windows_listed(
    operation: OperationView,
    listing: Result<Seq<WindowView>, Seq<char>>,
) -> StageView {
    match listing {
        Ok(windows) => StageView::Panes { window: first_active(windows)->0, windows },
        Err(detail) => StageView::Finished(Err(TmuxErrorView::Malformed { operation, detail })),
    }
}

/// The stage after the panes were listed.
pub open spec fn panes_listed(
    operation: OperationView,
    window: WindowView,
    windows: Seq<WindowView>,
    listing: Result<Seq<PaneView>, Seq<char>>,
) -> StageView {
    match listing {
        Ok(panes) => StageView::Contents { window, windows, panes, contents: Seq::empty() },
        Err(detail) => StageView::Finished(Err(TmuxErrorView::Malformed { operation, detail })),
    }
}

/// The stage after an answer. The first command that fails, and the first answer that
/// makes no sense, end the capture.
pub open spec fn stage_next(
    session: Seq<char>,
    stage: StageView,
    answer: Result<OutputView, Seq<char>>,
) -> StageView {
    match question(session, stage) {
        None => stage,
        Some(operation) => match answer_text(operation, answer) {
            Err(error) => StageView::Finished(Err(error)),
            Ok(text) => match stage {
                StageView::Windows => windows_listed(operation, window_listing(text)),
                StageView::Panes { window, windows } => panes_listed(
                    operation,
                    window,
                    windows,
                    pane_listing(text),
                ),
                StageView::Contents { window, windows, panes, contents } => if contents.len() + 1
                    < panes.len() {
                    StageView::Contents { window, windows, panes, contents: contents.push(text) }
                } else {
                    StageView::Finished(
                        Ok(
                            CaptureView {
                                session,
                                window,
                                windows,
                                panes: filled_panes(panes, contents.push(text)),
                            },
                        ),
                    )
                },
                StageView::Finished(_) => stage,
            },
        },
    }
}

/// A window that is shown is the only active one among windows that can be told apart.
pub open spec fn windows_sound(window: WindowView, windows: Seq<WindowView>) -> bool {
    &&& windows_differ(windows)
    &&& active_windows(windows) == 1
    &&& first_active(windows) == Some(window)
}

/// Panes that can be told apart, of which exactly one is active.
pub open spec fn panes_sound(panes: Seq<PaneView>) -> bool {
    panes_differ(panes) && active_panes(panes) == 1
}

/// What holds at every stage.
pub open spec fn stage_sound(session: Seq<char>, stage: StageView) -> bool {
    match stage {
        StageView::Windows => true,
        StageView::Panes { window, windows } => windows_sound(window, windows),
        StageView::Contents { window, windows, panes, contents } => windows_sound(window, windows)
            && panes_sound(panes) && contents.len() < panes.len(),
        StageView::Finished(Ok(capture)) => capture.session == session && windows_sound(
            capture.window,
            capture.windows,
        ) && panes_sound(capture.panes),
        StageView::Finished(Err(_)) => true,
    }
}

proof fn lemma_filled_panes_count(panes: Seq<PaneView>, contents: Seq<Seq<char>>)
    ensures
        active_panes(filled_panes(panes, contents)) == active_panes(panes),
    decreases panes.len(),
{
    if panes.len() > 0 {
        let filled = filled_panes(panes, contents);
        assert(filled.drop_last() =~= filled_panes(panes.drop_last(), contents));
        lemma_filled_panes_count(panes.drop_last(), contents);
    }
}

proof fn lemma_filled_panes_differ(panes: Seq<PaneView>, contents: Seq<Seq<char>>)
    requires
        panes_differ(panes),
    ensures
        panes_differ(filled_panes(panes, contents)),
{
    let filled = filled_panes(panes, contents);
    assert forall|i: int, j: int| 0 <= i < j < filled.len() implies (#[trigger] filled[i]).id != (
    #[trigger] filled[j]).id && filled[i].index != filled[j].index by {
        assert(panes[i].id == filled[i].id && panes[i].index == filled[i].index);
        assert(panes[j].id == filled[j].id && panes[j].index == filled[j].index);
    }
}

/// Whatever tmux answers, a capture that succeeds is of the session that was asked for,
/// shows its only active window, and has panes that can be told apart with exactly one
/// of them active.
pub proof fn lemma_capture_stays_sound(
    session: Seq<char>,
    stage: StageView,
    answer: Result<OutputView, Seq<char>>,
)
    requires
        stage_sound(session, stage),
    ensures
        stage_sound(session, stage_next(session, stage, answer)),
{
    match question(session, stage) {
        None => {},
        Some(operation) => match answer_text(operation, answer) {
            Err(_) => {},
            Ok(text) => match stage {
                StageView::Windows => {
                    if window_listing(text) is Ok {
                        lemma_windows_are_sound(text);
                        lemma_listed_session_has_window(text);
                    }
                },
                StageView::Panes { .. } => {
                    if pane_listing(text) is Ok {
                        lemma_panes_are_sound(text);
                    }
                },
                StageView::Contents { panes, contents, .. } => {
                    lemma_filled_panes_count(panes, contents.push(text));
                    lemma_filled_panes_differ(panes, contents.push(text));
                },
                StageView::Finished(_) => {},
            },
        },
    }
}

fn read_windows_answer(session: &str, text: &str) -> (r: CaptureStage)
    ensures
        r@ == windows_listed(OperationView::ListWindows(session@), window_listing(text@)),
{
    match parse_windows(text, TmuxOperation::ListWindows(copy(session))) {
        Ok(windows) => {
            proof {
                lemma_listed_session_has_window(text@);
            }
            match active_window(&windows) {
                Some(window) => CaptureStage::Panes { window, windows },
                None => CaptureStage::Windows,
            }
        },
        Err(error) => CaptureStage::Finished(Err(error)),
    }
}

/// The stage after an answer.
fn next_stage(session: &str, stage: CaptureStage, answer: Result<CommandOutput, String>) -> (r:
    CaptureStage)
    requires
        stage_sound(session@, stage@),
    ensures
        r@ == stage_next(session@, stage@, answer_view(answer)),
{
    let ghost before = stage@;
    match stage {
        CaptureStage::Windows => match read_answer(
            TmuxOperation::ListWindows(copy(session)),
            answer,
        ) {
            Ok(text) => read_windows_answer(session, text.as_str()),
            Err(error) => CaptureStage::Finished(Err(error)),
        },
        CaptureStage::Panes { window, windows } => {
            match read_answer(TmuxOperation::ListPanes(window.id.clone()), answer) {
                Ok(text) => match parse_panes(
                    text.as_str(),
                    TmuxOperation::ListPanes(window.id.clone()),
                ) {
                    Ok(panes) => {
                        let contents: Vec<String> = Vec::new();
                        proof {
                            assert(texts(contents@) =~= Seq::<Seq<char>>::empty());
                        }
                        CaptureStage::Contents { window, windows, panes, contents }
                    },
                    Err(error) => CaptureStage::Finished(Err(error)),
                },
                Err(error) => CaptureStage::Finished(Err(error)),
            }
        },
        CaptureStage::Contents { window, windows, panes, contents } => {
            let mut contents = contents;
            let ghost shown = texts(contents@);
            let at: usize = contents.len();
            match read_answer(TmuxOperation::CapturePane(panes[at].id.clone()), answer) {
                Ok(text) => {
                    contents.push(text);
                    proof {
                        assert(texts(contents@) =~= shown.push(text@));
                        assert(pane_views(panes@).len() == panes@.len());
                    }
                    if contents.len() < panes.len() {
                        CaptureStage::Contents { window, windows, panes, contents }
                    } else {
                        CaptureStage::Finished(
                            Ok(assemble_capture(session, window, windows, panes, contents)),
                        )
                    }
                },
                Err(error) => CaptureStage::Finished(Err(error)),
            }
        },
        CaptureStage::Finished(result) => CaptureStage::Finished(result),
    }
}

/// The capture of one session.
#[derive(Debug)]
pub struct SessionCapture {
    pub session: String,
    pub stage: CaptureStage,
}

impl SessionCapture {
    pub open spec fn well_formed(self) -> bool {
        stage_sound(self.session@, self.stage@)
    }

    pub fn begin(session: &str) -> (r: Self)
        ensures
            r.well_formed(),
            r.session@ == session@,
            r.stage@ == StageView::Windows,
    {
        SessionCapture { session: copy(session), stage: CaptureStage::Windows }
    }

    /// What to ask tmux next; nothing where the capture is finished.
    pub fn operation(&self) -> (r: Option<TmuxOperation>)
        requires
            self.well_formed(),
        ensures
            match r {
                Some(operation) => question(self.session@, self.stage@) == Some(operation@),
                None => question(self.session@, self.stage@) is None,
            },
    {
        match &self.stage {
            CaptureStage::Windows => Some(TmuxOperation::ListWindows(self.session.clone())),
            CaptureStage::Panes { window, .. } => Some(TmuxOperation::ListPanes(window.id.clone())),
            CaptureStage::Contents { panes, contents, .. } => {
                let at: usize = contents.len();
                Some(TmuxOperation::CapturePane(panes[at].id.clone()))
            },
            CaptureStage::Finished(_) => None,
        }
    }

    /// Takes the answer in.
    pub fn advance(&mut self, answer: Result<CommandOutput, String>)
        requires
            old(self).well_formed(),
        ensures
            final(self).well_formed(),
            final(self).session == old(self).session,
            final(self).stage@ == stage_next(
                old(self).session@,
                old(self).stage@,
                answer_view(answer),
            ),
    {
        proof {
            lemma_capture_stays_sound(self.session@, self.stage@, answer_view(answer));
        }
        let mut stage = CaptureStage::Windows;
        std::mem::swap(&mut self.stage, &mut stage);
        self.stage = next_stage(self.session.as_str(), stage, answer);
    }
}

// ---------------------------------------------------------------------------
// All sessions
// ---------------------------------------------------------------------------

/// The capture of the clients' sessions, one after the other.
#[derive(Debug)]
pub struct CaptureRun {
    pub sessions: Vec<String>,
    /// How many sessions are done.
    pub at: usize,
    pub stage: CaptureStage,
    pub captures: Vec<CaptureResult>,
    pub warnings: Vec<String>,
}

pub ghost struct RunView {
    pub sessions: Seq<Seq<char>>,
    pub at: int,
    pub stage: StageView,
    pub captures: Seq<CaptureView>,
    pub warnings: Seq<Seq<char>>,
}

impl View for CaptureRun {
    type V = RunView;

    open spec fn view(&self) -> RunView {
        RunView {
            sessions: texts(self.sessions@),
            at: self.at as int,
            stage: self.stage@,
            captures: capture_views(self.captures@),
            warnings: texts(self.warnings@),
        }
    }
}

/// Goes past the sessions whose names make no path components.
pub open spec fn after_skips(run: RunView) -> RunView
    decreases run.sessions.len() - run.at,
{
    if 0 <= run.at < run.sessions.len() {
        match derivation(run.sessions[run.at]) {
            Ok(_) => run,
            Err(error) => after_skips(
                RunView {
                    at: run.at + 1,
                    warnings: run.warnings.push(skip_text(error)),
                    ..run
                },
            ),
        }
    } else {
        run
    }
}

/// How a run begins.
pub open spec fn run_start(sessions: Seq<Seq<char>>) -> RunView {
    after_skips(
        RunView {
            sessions,
            at: 0,
            stage: StageView::Windows,
            captures: Seq::empty(),
            warnings: Seq::empty(),
        },
    )
}

/// The run once the session at hand is done.
pub open spec fn session_done(run: RunView, result: Result<CaptureView, TmuxErrorView>) -> RunView {
    let told = match result {
        Ok(capture) => RunView { captures: run.captures.push(capture), ..run },
        Err(error) => RunView {
            warnings: run.warnings.push(
                failure_text(question(run.sessions[run.at], run.stage)->0, error),
            ),
            ..run
        },
    };
    after_skips(RunView { at: run.at + 1, stage: StageView::Windows, ..told })
}

/// Where a run stands after an answer. A session that cannot be captured does not keep
/// the others from being captured.
pub open spec fn run_next(run: RunView, answer: Result<OutputView, Seq<char>>) -> RunView {
    if run.at >= run.sessions.len() {
        run
    } else {
        match stage_next(run.sessions[run.at], run.stage, answer) {
            StageView::Finished(result) => session_done(run, result),
            stage => RunView { stage, ..run },
        }
    }
}

/// The texts are some of the others, in the same order.
pub open spec fn is_picked_from(picked: Seq<Seq<char>>, all: Seq<Seq<char>>) -> bool
    decreases all.len(),
{
    if all.len() == 0 {
        picked.len() == 0
    } else {
        ||| is_picked_from(picked, all.drop_last())
        ||| picked.len() > 0 && picked.last() == all.last() && is_picked_from(
            picked.drop_last(),
            all.drop_last(),
        )
    }
}

pub open spec fn captured_sessions(captures: Seq<CaptureView>) -> Seq<Seq<char>> {
    captures.map_values(|c: CaptureView| c.session)
}

/// What holds of a run at every time: every session that is done left a capture or a
/// warning, the captures are in the order of the sessions, and no session is asked about
/// whose name makes no path component.
pub open spec fn run_sound(run: RunView) -> bool {
    &&& 0 <= run.at <= run.sessions.len()
    &&& run.captures.len() + run.warnings.len() == run.at
    &&& is_picked_from(captured_sessions(run.captures), run.sessions.take(run.at))
    &&& forall|i: int|
        0 <= i < run.captures.len() ==> derivation((#[trigger] run.captures[i]).session) is Ok
    &&& !(run.stage is Finished)
    &&& run.at < run.sessions.len() ==> derivation(run.sessions[run.at]) is Ok && stage_sound(
        run.sessions[run.at],
        run.stage,
    )
}

/// A run between two sessions.
spec fn is_between(run: RunView) -> bool {
    &&& 0 <= run.at <= run.sessions.len()
    &&& run.captures.len() + run.warnings.len() == run.at
    &&& is_picked_from(captured_sessions(run.captures), run.sessions.take(run.at))
    &&& forall|i: int|
        0 <= i < run.captures.len() ==> derivation((#[trigger] run.captures[i]).session) is Ok
    &&& run.stage == StageView::Windows
}

proof fn lemma_skips_stay_sound(run: RunView)
    requires
        is_between(run),
    ensures
        run_sound(after_skips(run)),
        after_skips(run).sessions == run.sessions,
    decreases run.sessions.len() - run.at,
{
    if run.at < run.sessions.len() {
        match derivation(run.sessions[run.at]) {
            Ok(_) => {},
            Err(error) => {
                let next = RunView {
                    at: run.at + 1,
                    warnings: run.warnings.push(skip_text(error)),
                    ..run
                };
                assert(run.sessions.take(run.at + 1).drop_last() =~= run.sessions.take(run.at));
                lemma_skips_stay_sound(next);
            },
        }
    }
}

/// A run begins soundly.
pub proof fn lemma_run_starts_sound(sessions: Seq<Seq<char>>)
    ensures
        run_sound(run_start(sessions)),
        run_start(sessions).sessions == sessions,
{
    let first = RunView {
        sessions,
        at: 0,
        stage: StageView::Windows,
        captures: Seq::empty(),
        warnings: Seq::empty(),
    };
    assert(captured_sessions(first.captures) =~= Seq::<Seq<char>>::empty());
    assert(sessions.take(0) =~= Seq::<Seq<char>>::empty());
    lemma_skips_stay_sound(first);
}

/// Whatever tmux answers, every session leaves a capture or a warning, captures come in
/// the order of the sessions, and tmux is never asked about a session whose name makes
/// no path component.
pub proof fn lemma_run_stays_sound(run: RunView, answer: Result<OutputView, Seq<char>>)
    requires
        run_sound(run),
    ensures
        run_sound(run_next(run, answer)),
        run_next(run, answer).sessions == run.sessions,
{
    if run.at < run.sessions.len() {
        let session = run.sessions[run.at];
        lemma_capture_stays_sound(session, run.stage, answer);
        match stage_next(session, run.stage, answer) {
            StageView::Finished(result) => {
                let told = match result {
                    Ok(capture) => RunView { captures: run.captures.push(capture), ..run },
                    Err(error) => RunView {
                        warnings: run.warnings.push(
                            failure_text(question(session, run.stage)->0, error),
                        ),
                        ..run
                    },
                };
                let next = RunView { at: run.at + 1, stage: StageView::Windows, ..told };
                let all = run.sessions.take(run.at + 1);
                assert(all.drop_last() =~= run.sessions.take(run.at));
                match result {
                    Ok(capture) => {
                        let picked = captured_sessions(next.captures);
                        assert(picked.drop_last() =~= captured_sessions(run.captures));
                        assert(picked.last() == all.last());
                        assert forall|i: int| 0 <= i < next.captures.len() implies derivation(
                            (#[trigger] next.captures[i]).session,
                        ) is Ok by {
                            if i < run.captures.len() {
                                assert(next.captures[i] == run.captures[i]);
                            }
                        }
                    },
                    Err(_) => {},
                }
                lemma_skips_stay_sound(next);
            },
            _ => {},
        }
    }
}

/// The sessions of the clients.
pub open spec fn sessions_of(clients: Seq<ClientView>) -> Seq<Seq<char>> {
    clients.map_values(|c: ClientView| c.session)
}

impl CaptureRun {
    /// A run over the sessions of the clients.
    pub fn begin(clients: &[ClientInfo]) -> (r: Self)
        ensures
            r@ == run_start(sessions_of(client_views(clients@))),
            run_sound(r@),
    {
        let ghost all = sessions_of(client_views(clients@));
        let mut sessions: Vec<String> = Vec::new();
        let mut i: usize = 0;
        while i < clients.len()
            invariant
                i <= clients@.len(),
                all == sessions_of(client_views(clients@)),
                texts(sessions@) =~= all.take(i as int),
            decreases clients@.len() - i,
        {
            let ghost before = texts(sessions@);
            let session = clients[i].session.clone();
            sessions.push(session);
            proof {
                assert(texts(sessions@) =~= before.push(session@));
                assert(all[i as int] == clients@[i as int].session@);
            }
            i = i + 1;
        }
        let mut run = CaptureRun {
            sessions,
            at: 0,
            stage: CaptureStage::Windows,
            captures: Vec::new(),
            warnings: Vec::new(),
        };
        proof {
            assert(all.take(clients@.len() as int) =~= all);
            assert(capture_views(run.captures@) =~= Seq::<CaptureView>::empty());
            assert(texts(run.warnings@) =~= Seq::<Seq<char>>::empty());
            lemma_run_starts_sound(all);
        }
        run.skip();
        run
    }

    /// Goes past the sessions whose names make no path components.
    fn skip(&mut self)
        requires
            old(self).at <= old(self).sessions@.len(),
        ensures
            final(self)@ == after_skips(old(self)@),
    {
        let ghost whole = after_skips(self@);
        while self.at < self.sessions.len()
            invariant
                self.at <= self.sessions@.len(),
                after_skips(self@) == whole,
            ensures
                self@ == whole,
            decreases self.sessions@.len() - self.at,
        {
            let ghost before = self@;
            proof {
                assert(before.sessions[self.at as int] == self.sessions@[self.at as int]@);
                assert(before.sessions.len() == self.sessions@.len());
            }
            match skip_warning(self.sessions[self.at].as_str()) {
                Some(warning) => {
                    self.warnings.push(warning);
                    self.at = self.at + 1;
                    proof {
                        assert(texts(self.warnings@) =~= before.warnings.push(warning@));
                    }
                },
                None => break,
            }
        }
    }

    /// What to ask tmux next; nothing where all sessions are done.
    pub fn operation(&self) -> (r: Option<TmuxOperation>)
        requires
            run_sound(self@),
        ensures
            match r {
                Some(operation) => self@.at < self@.sessions.len() && question(
                    self@.sessions[self@.at],
                    self@.stage,
                ) == Some(operation@),
                None => self@.at >= self@.sessions.len(),
            },
    {
        if self.at >= self.sessions.len() {
            return None;
        }
        match &self.stage {
            CaptureStage::Windows => Some(
                TmuxOperation::ListWindows(self.sessions[self.at].clone()),
            ),
            CaptureStage::Panes { window, .. } => Some(TmuxOperation::ListPanes(window.id.clone())),
            CaptureStage::Contents { panes, contents, .. } => {
                let at: usize = contents.len();
                Some(TmuxOperation::CapturePane(panes[at].id.clone()))
            },
            CaptureStage::Finished(_) => None,
        }
    }

    /// Takes the answer in.
    pub fn advance(&mut self, answer: Result<CommandOutput, String>)
        requires
            run_sound(old(self)@),
        ensures
            run_sound(final(self)@),
            final(self)@ == run_next(old(self)@, answer_view(answer)),
    {
        proof {
            lemma_run_stays_sound(self@, answer_view(answer));
        }
        let operation = match self.operation() {
            Some(operation) => operation,
            None => return,
        };
        let ghost before = self@;
        let mut stage = CaptureStage::Windows;
        std::mem::swap(&mut self.stage, &mut stage);
        let at: usize = self.at;
        proof {
            assert(before.sessions[at as int] == self.sessions@[at as int]@);
            assert(at < self.sessions.len());
        }
        match next_stage(self.sessions[at].as_str(), stage, answer) {
            CaptureStage::Finished(Ok(capture)) => {
                self.captures.push(capture);
                self.at = at + 1;
                proof {
                    assert(capture_views(self.captures@) =~= before.captures.push(capture@));
                }
                self.skip();
            },
            CaptureStage::Finished(Err(error)) => {
                let warning = failure_warning(&operation, &error);
                self.warnings.push(warning);
                self.at = at + 1;
                proof {
                    assert(texts(self.warnings@) =~= before.warnings.push(warning@));
                }
                self.skip();
            },
            stage => {
                self.stage = stage;
            },
        }
    }
}

// ---------------------------------------------------------------------------
// What warnings tell
// ---------------------------------------------------------------------------

/// Where a run stands after a list of answers.
pub open spec fn run_over(run: RunView, answers: Seq<Result<OutputView, Seq<char>>>) -> RunView
    decreases answers.len(),
{
    if answers.len() == 0 {
        run
    } else {
        run_next(run_over(run, answers.drop_last()), answers.last())
    }
}

/// The names make path components alike: both do, or neither does for one reason.
pub open spec fn names_alike(a: Seq<char>, b: Seq<char>) -> bool {
    match (derivation(a), derivation(b)) {
        (Ok(_), Ok(_)) => true,
        (Err(x), Err(y)) => x == y,
        _ => false,
    }
}

/// The lists of sessions differ only in names.
pub open spec fn sessions_alike(a: Seq<Seq<char>>, b: Seq<Seq<char>>) -> bool {
    a.len() == b.len() && forall|i: int| 0 <= i < a.len() ==> names_alike(#[trigger] a[i], b[i])
}

/// The answers differ only in what may hold a session's name or a pane's content: where
/// the question named the session, how a failure was put and what tmux said of it; where
/// it was for that, what a pane shows.
pub open spec fn answers_alike(
    stage: StageView,
    x: Result<OutputView, Seq<char>>,
    y: Result<OutputView, Seq<char>>,
) -> bool {
    match (x, y) {
        (Err(x), Err(y)) => stage is Windows || x == y,
        (Ok(x), Ok(y)) => x.status == y.status && if x.status != 0 {
            stage is Windows || x.stderr == y.stderr
        } else {
            x.stdout == y.stdout || (stage is Contents && valid_utf8(x.stdout) && valid_utf8(
                y.stdout,
            ))
        },
        _ => false,
    }
}

/// The stages differ only in what panes show.
pub open spec fn stages_alike(a: StageView, b: StageView) -> bool {
    match (a, b) {
        (
            StageView::Contents { window, windows, panes, contents },
            StageView::Contents { window: w, windows: ws, panes: ps, contents: cs },
        ) => window == w && windows == ws && panes == ps && contents.len() == cs.len(),
        _ => a == b,
    }
}

/// The runs differ only in names of sessions and in what panes show.
pub open spec fn runs_alike(a: RunView, b: RunView) -> bool {
    &&& sessions_alike(a.sessions, b.sessions)
    &&& a.at == b.at
    &&& stages_alike(a.stage, b.stage)
    &&& a.captures.len() == b.captures.len()
    &&& a.warnings == b.warnings
}

proof fn lemma_skips_keep_step(a: RunView, b: RunView)
    requires
        runs_alike(a, b),
    ensures
        runs_alike(after_skips(a), after_skips(b)),
    decreases a.sessions.len() - a.at,
{
    if 0 <= a.at < a.sessions.len() {
        assert(names_alike(a.sessions[a.at], b.sessions[b.at]));
        match (derivation(a.sessions[a.at]), derivation(b.sessions[b.at])) {
            (Err(x), Err(y)) => {
                lemma_skips_keep_step(
                    RunView { at: a.at + 1, warnings: a.warnings.push(skip_text(x)), ..a },
                    RunView { at: b.at + 1, warnings: b.warnings.push(skip_text(y)), ..b },
                );
            },
            _ => {},
        }
    }
}

proof fn lemma_runs_keep_step(
    a: RunView,
    b: RunView,
    x: Result<OutputView, Seq<char>>,
    y: Result<OutputView, Seq<char>>,
)
    requires
        runs_alike(a, b),
        0 <= a.at,
        !(a.stage is Finished),
        answers_alike(a.stage, x, y),
    ensures
        runs_alike(run_next(a, x), run_next(b, y)),
{
    if a.at < a.sessions.len() {
        let (s, t) = (a.sessions[a.at], b.sessions[b.at]);
        match (stage_next(s, a.stage, x), stage_next(t, b.stage, y)) {
            (StageView::Finished(p), StageView::Finished(q)) => {
                assert(p is Ok <==> q is Ok);
                let (told_a, told_b) = match (p, q) {
                    (Ok(p), Ok(q)) => (
                        RunView { captures: a.captures.push(p), ..a },
                        RunView { captures: b.captures.push(q), ..b },
                    ),
                    (Err(p), Err(q)) => {
                        let (o, u) = (question(s, a.stage)->0, question(t, b.stage)->0);
                        assert(failure_text(o, p) == failure_text(u, q));
                        (
                            RunView { warnings: a.warnings.push(failure_text(o, p)), ..a },
                            RunView { warnings: b.warnings.push(failure_text(u, q)), ..b },
                        )
                    },
                    _ => (a, b),
                };
                lemma_skips_keep_step(
                    RunView { at: a.at + 1, stage: StageView::Windows, ..told_a },
                    RunView { at: b.at + 1, stage: StageView::Windows, ..told_b },
                );
            },
            _ => {},
        }
    }
}

/// No warning about a capture depends on the name of a session or on what a pane shows:
/// two runs that differ only in these give the same warnings, whatever tmux answers.
pub proof fn lemma_capture_warnings_name_no_session(
    a: Seq<Seq<char>>,
    b: Seq<Seq<char>>,
    xs: Seq<Result<OutputView, Seq<char>>>,
    ys: Seq<Result<OutputView, Seq<char>>>,
)
    requires
        sessions_alike(a, b),
        xs.len() == ys.len(),
        forall|k: int|
            0 <= k < xs.len() ==> answers_alike(
                run_over(run_start(a), xs.take(k)).stage,
                #[trigger] xs[k],
                ys[k],
            ),
    ensures
        run_over(run_start(a), xs).warnings == run_over(run_start(b), ys).warnings,
        run_over(run_start(a), xs).captures.len() == run_over(run_start(b), ys).captures.len(),
{
    lemma_whole_runs_keep_step(a, b, xs, ys);
}

proof fn lemma_whole_runs_keep_step(
    a: Seq<Seq<char>>,
    b: Seq<Seq<char>>,
    xs: Seq<Result<OutputView, Seq<char>>>,
    ys: Seq<Result<OutputView, Seq<char>>>,
)
    requires
        sessions_alike(a, b),
        xs.len() == ys.len(),
        forall|k: int|
            0 <= k < xs.len() ==> answers_alike(
                run_over(run_start(a), xs.take(k)).stage,
                #[trigger] xs[k],
                ys[k],
            ),
    ensures
        runs_alike(run_over(run_start(a), xs), run_over(run_start(b), ys)),
        run_sound(run_over(run_start(a), xs)),
    decreases xs.len(),
{
    if xs.len() == 0 {
        lemma_run_starts_sound(a);
        lemma_skips_keep_step(
            RunView {
                sessions: a,
                at: 0,
                stage: StageView::Windows,
                captures: Seq::empty(),
                warnings: Seq::empty(),
            },
            RunView {
                sessions: b,
                at: 0,
                stage: StageView::Windows,
                captures: Seq::empty(),
                warnings: Seq::empty(),
            },
        );
    } else {
        let (p, q) = (xs.drop_last(), ys.drop_last());
        let n = xs.len() - 1;
        assert forall|k: int| 0 <= k < p.len() implies answers_alike(
            run_over(run_start(a), p.take(k)).stage,
            #[trigger] p[k],
            q[k],
        ) by {
            assert(p.take(k) =~= xs.take(k));
            assert(p[k] == xs[k] && q[k] == ys[k]);
        }
        lemma_whole_runs_keep_step(a, b, p, q);
        assert(xs.take(n) =~= p);
        assert(answers_alike(run_over(run_start(a), xs.take(n)).stage, xs[n], ys[n]));
        lemma_run_stays_sound(run_over(run_start(a), p), xs.last());
        lemma_runs_keep_step(
            run_over(run_start(a), p),
            run_over(run_start(b), q),
            xs.last(),
            ys.last(),
        );
    }
}

// ---------------------------------------------------------------------------
// What a capture shows
// ---------------------------------------------------------------------------

/// A command that succeeded and wrote that text.
pub open spec fn wrote(text: Seq<char>) -> Result<OutputView, Seq<char>> {
    Ok(OutputView { status: 0, stdout: encode_utf8(text), stderr: Seq::empty() })
}

/// The stage after tmux wrote what the panes show, one after the other.
pub open spec fn shown(session: Seq<char>, stage: StageView, contents: Seq<Seq<char>>) -> StageView
    decreases contents.len(),
{
    if contents.len() == 0 {
        stage
    } else {
        stage_next(session, shown(session, stage, contents.drop_last()), wrote(contents.last()))
    }
}

proof fn lemma_contents_are_taken(
    session: Seq<char>,
    window: WindowView,
    windows: Seq<WindowView>,
    panes: Seq<PaneView>,
    contents: Seq<Seq<char>>,
)
    requires
        contents.len() <= panes.len(),
        panes.len() > 0,
    ensures
        ({
            let first = StageView::Contents { window, windows, panes, contents: Seq::empty() };
            shown(session, first, contents) == if contents.len() < panes.len() {
                StageView::Contents { window, windows, panes, contents }
            } else {
                StageView::Finished(
                    Ok(
                        CaptureView {
                            session,
                            window,
                            windows,
                            panes: filled_panes(panes, contents),
                        },
                    ),
                )
            }
        }),
    decreases contents.len(),
{
    if contents.len() == 0 {
        assert(contents =~= Seq::<Seq<char>>::empty());
    } else {
        let before = contents.drop_last();
        lemma_contents_are_taken(session, window, windows, panes, before);
        encode_utf8_valid_utf8(contents.last());
        encode_utf8_decode_utf8(contents.last());
        assert(before.push(contents.last()) =~= contents);
    }
}

/// A capture is what tmux shows: with the windows of the session, the panes of the window
/// that is active and what each pane shows, written as tmux writes them, the capture is
/// of that session, with those windows, that window, and those panes in order, each with
/// its own contents.
pub proof fn lemma_capture_shows_the_session(
    session: Seq<char>,
    windows: Seq<WindowView>,
    w: int,
    panes: Seq<PaneView>,
    p: int,
    contents: Seq<Seq<char>>,
)
    requires
        forall|i: int| 0 <= i < windows.len() ==> is_plain_window(#[trigger] windows[i]),
        forall|i: int, j: int|
            0 <= i < j < windows.len() ==> (#[trigger] windows[i]).id != (
            #[trigger] windows[j]).id && windows[i].index != windows[j].index,
        only_active_window(windows, w),
        forall|i: int| 0 <= i < panes.len() ==> is_plain_pane(#[trigger] panes[i]),
        forall|i: int, j: int|
            0 <= i < j < panes.len() ==> (#[trigger] panes[i]).id != (#[trigger] panes[j]).id
                && panes[i].index != panes[j].index,
        only_active_pane(panes, p),
        contents.len() == panes.len(),
    ensures
        ({
            let listed = stage_next(session, StageView::Windows, wrote(windows_text(windows)));
            let placed = stage_next(session, listed, wrote(panes_text(panes)));
            let finished = shown(session, placed, contents);
            &&& question(session, StageView::Windows) == Some(OperationView::ListWindows(session))
            &&& question(session, listed) == Some(OperationView::ListPanes(windows[w].id))
            &&& forall|k: int|
                0 <= k < panes.len() ==> question(
                    session,
                    #[trigger] shown(session, placed, contents.take(k)),
                ) == Some(OperationView::CapturePane(panes[k].id))
            &&& finished matches StageView::Finished(Ok(capture)) && {
                &&& capture.session == session
                &&& capture.window == windows[w]
                &&& capture.windows == windows
                &&& capture.panes.len() == panes.len()
                &&& forall|i: int|
                    0 <= i < panes.len() ==> #[trigger] capture.panes[i] == (PaneView {
                        content: contents[i],
                        ..panes[i]
                    })
            }
        }),
{
    lemma_windows_are_read_back(windows, w);
    lemma_panes_are_read_back(panes, p);
    encode_utf8_valid_utf8(windows_text(windows));
    encode_utf8_decode_utf8(windows_text(windows));
    encode_utf8_valid_utf8(panes_text(panes));
    encode_utf8_decode_utf8(panes_text(panes));
    let listed = stage_next(session, StageView::Windows, wrote(windows_text(windows)));
    assert(listed == StageView::Panes { window: windows[w], windows });
    let placed = stage_next(session, listed, wrote(panes_text(panes)));
    assert(placed == StageView::Contents {
        window: windows[w],
        windows,
        panes,
        contents: Seq::empty(),
    });
    lemma_contents_are_taken(session, windows[w], windows, panes, contents);
    assert forall|k: int| 0 <= k < panes.len() implies question(
        session,
        #[trigger] shown(session, placed, contents.take(k)),
    ) == Some(OperationView::CapturePane(panes[k].id)) by {
        lemma_contents_are_taken(session, windows[w], windows, panes, contents.take(k));
    }
}

/// One session at a time, in order: while the answers about a session are not all there
/// the run stays with it; then its capture, or a warning, is added behind the others and
/// nothing that was there before is lost.
pub proof fn lemma_run_adds_one_result(run: RunView, answer: Result<OutputView, Seq<char>>)
    requires
        run_sound(run),
        run.at < run.sessions.len(),
    ensures
        ({
            let after = run_next(run, answer);
            let stage = stage_next(run.sessions[run.at], run.stage, answer);
            &&& run.captures.is_prefix_of(after.captures)
            &&& run.warnings.is_prefix_of(after.warnings)
            &&& !(stage is Finished) ==> after == (RunView { stage, ..run })
            &&& stage matches StageView::Finished(Ok(capture)) ==> after.captures
                == run.captures.push(capture) && after.at > run.at
            &&& stage matches StageView::Finished(Err(_)) ==> after.captures == run.captures
                && after.warnings.len() > run.warnings.len() && after.at > run.at
        }),
{
    let stage = stage_next(run.sessions[run.at], run.stage, answer);
    match stage {
        StageView::Finished(result) => {
            let told = match result {
                Ok(capture) => RunView { captures: run.captures.push(capture), ..run },
                Err(error) => RunView {
                    warnings: run.warnings.push(
                        failure_text(question(run.sessions[run.at], run.stage)->0, error),
                    ),
                    ..run
                },
            };
            let next = RunView { at: run.at + 1, stage: StageView::Windows, ..told };
            lemma_skips_only_add(next);
        },
        _ => {},
    }
}

proof fn lemma_skips_only_add(run: RunView)
    ensures
        after_skips(run).captures == run.captures,
        run.warnings.is_prefix_of(after_skips(run).warnings),
        after_skips(run).at >= run.at,
        after_skips(run).sessions == run.sessions,
    decreases run.sessions.len() - run.at,
{
    if 0 <= run.at < run.sessions.len() {
        match derivation(run.sessions[run.at]) {
            Ok(_) => {},
            Err(error) => lemma_skips_only_add(
                RunView {
                    at: run.at + 1,
                    warnings: run.warnings.push(skip_text(error)),
                    ..run
                },
            ),
        }
    }
}

/// A session whose name makes a path component is never skipped: the run stops at the
/// first one.
pub proof fn lemma_usable_session_is_observed(run: RunView, k: int)
    requires
        0 <= run.at <= k < run.sessions.len(),
        derivation(run.sessions[k]) is Ok,
    ensures
        run.at <= after_skips(run).at <= k,
        derivation(run.sessions[after_skips(run).at]) is Ok,
    decreases k - run.at,
{
    match derivation(run.sessions[run.at]) {
        Ok(_) => {},
        Err(error) => lemma_usable_session_is_observed(
            RunView { at: run.at + 1, warnings: run.warnings.push(skip_text(error)), ..run },
            k,
        ),
    }
}

} // verus!
