//! What tmux says of its clients, windows and panes.

use vstd::prelude::*;
use vstd::string::*;
use vstd::utf8::*;

use crate::command::{CommandOutput, OperationView, OutputView, TmuxOperation};
use crate::model::{CaptureResult, ClientInfo, PaneInfo, WindowInfo};
use crate::name::{derivation, derive_component, NameError};
use crate::paths::SLASH;
use crate::text::{
    all_pieces, chars_of, concat, concat3, copy, debug_quoting, decimal, decode_text, has_char,
    is_digit, is_row, join, last_index, lemma_decimal_is_read_back, lemma_pieces_are_read_back,
    lemma_rows_are_read_back, lemma_signed_decimal_is_read_back, lemma_split_reads_pieces_back,
    lines, lossy_decoding, lossy_text, parse_signed, parse_unsigned, pieces, position_of_last,
    quoted, rows_text, same_text, signed_decimal, signed_text, signed_value, split_limited,
    split_on, substring, text_lines, texts, trim_end, trimmed_end, unsigned_value, utf8_complaint,
};

verus! {

/// Seconds that a command of tmux may take.
pub const TMUX_TIMEOUT: u64 = 5;

/// Warnings that go to the standard error stream.
#[derive(Clone, Copy, Debug, PartialEq, Eq, Structural)]
pub struct StderrWarnings {}

/// Why tmux could not be asked, or its answer not be used.
#[derive(Debug)]
pub enum TmuxError {
    ExecutableMustBeAbsolute(Vec<u8>),
    /// The command could not be run.
    Command(String),
    Nonzero { operation: TmuxOperation, status: i32, stderr: String },
    InvalidUtf8 { operation: TmuxOperation, source: String },
    Malformed { operation: TmuxOperation, detail: String },
}

pub ghost enum TmuxErrorView {
    ExecutableMustBeAbsolute(Seq<u8>),
    Command(Seq<char>),
    Nonzero { operation: OperationView, status: i32, stderr: Seq<char> },
    InvalidUtf8 { operation: OperationView, source: Seq<char> },
    Malformed { operation: OperationView, detail: Seq<char> },
}

impl View for TmuxError {
    type V = TmuxErrorView;

    open spec fn view(&self) -> TmuxErrorView {
        match *self {
            TmuxError::ExecutableMustBeAbsolute(path) => TmuxErrorView::ExecutableMustBeAbsolute(
                path@,
            ),
            TmuxError::Command(said) => TmuxErrorView::Command(said@),
            TmuxError::Nonzero { operation, status, stderr } => TmuxErrorView::Nonzero {
                operation: operation@,
                status,
                stderr: stderr@,
            },
            TmuxError::InvalidUtf8 { operation, source } => TmuxErrorView::InvalidUtf8 {
                operation: operation@,
                source: source@,
            },
            TmuxError::Malformed { operation, detail } => TmuxErrorView::Malformed {
                operation: operation@,
                detail: detail@,
            },
        }
    }
}

impl TmuxErrorView {
    /// The error in words. What tmux itself said of an operation that names a session is
    /// left out, since tmux repeats the name.
    pub open spec fn text(self) -> Seq<char> {
        match self {
            TmuxErrorView::ExecutableMustBeAbsolute(path) => "tmux executable must be absolute: "@
                + lossy_decoding(path),
            TmuxErrorView::Command(said) => said,
            TmuxErrorView::Nonzero { operation, status, stderr } => operation.text()
                + " exited with status "@ + signed_decimal(status as int) + if operation is ListWindows {
                Seq::empty()
            } else {
                ": "@ + trim_end(stderr)
            },
            TmuxErrorView::InvalidUtf8 { operation, source } => operation.text()
                + " returned non-UTF-8 output: "@ + source,
            TmuxErrorView::Malformed { operation, detail } => "malformed "@ + operation.text()
                + " output: "@ + detail,
        }
    }
}

impl TmuxError {
    /// The error in words.
    pub fn message(&self) -> (r: String)
        ensures
            r@ == self@.text(),
    {
        match self {
            TmuxError::ExecutableMustBeAbsolute(path) => {
                let mut out = copy("tmux executable must be absolute: ");
                out.append(lossy_text(path.as_slice()).as_str());
                out
            },
            TmuxError::Command(said) => said.clone(),
            TmuxError::Nonzero { operation, status, stderr } => {
                let mut out = concat3(
                    operation.label().as_str(),
                    " exited with status ",
                    signed_text(*status).as_str(),
                );
                let ghost before = out@;
                if operation.names_session() {
                    proof {
                        assert(out@ =~= before + Seq::<char>::empty());
                    }
                } else {
                    out.append(": ");
                    out.append(trimmed_end(stderr.as_str()).as_str());
                    proof {
                        assert(out@ =~= before + (": "@ + trim_end(stderr@)));
                    }
                }
                out
            },
            TmuxError::InvalidUtf8 { operation, source } => concat3(
                operation.label().as_str(),
                " returned non-UTF-8 output: ",
                source.as_str(),
            ),
            TmuxError::Malformed { operation, detail } => {
                let mut out = concat3("malformed ", operation.label().as_str(), " output: ");
                out.append(detail.as_str());
                out
            },
        }
    }
}

/// The path starts at the root.
pub open spec fn is_absolute(path: Seq<u8>) -> bool {
    path.len() > 0 && path[0] == SLASH
}

/// A tmux program, and what runs it.
#[derive(Debug)]
pub struct TmuxAdapter<R, W> {
    pub runner: R,
    pub warnings: W,
    pub executable: Vec<u8>,
}

impl<R> TmuxAdapter<R, StderrWarnings> {
    pub fn new(executable: Vec<u8>, runner: R) -> (r: Result<Self, TmuxError>)
        ensures
            match r {
                Ok(adapter) => is_absolute(executable@) && adapter == (TmuxAdapter {
                    runner,
                    warnings: StderrWarnings {  },
                    executable,
                }),
                Err(error) => !is_absolute(executable@) && error
                    == TmuxError::ExecutableMustBeAbsolute(executable),
            },
    {
        TmuxAdapter::with_warnings(executable, runner, StderrWarnings {  })
    }
}

impl<R, W> TmuxAdapter<R, W> {
    pub fn with_warnings(executable: Vec<u8>, runner: R, warnings: W) -> (r: Result<
        Self,
        TmuxError,
    >)
        ensures
            match r {
                Ok(adapter) => is_absolute(executable@) && adapter == (TmuxAdapter {
                    runner,
                    warnings,
                    executable,
                }),
                Err(error) => !is_absolute(executable@) && error
                    == TmuxError::ExecutableMustBeAbsolute(executable),
            },
    {
        if !(executable.len() > 0 && executable[0] == SLASH) {
            return Err(TmuxError::ExecutableMustBeAbsolute(executable));
        }
        Ok(TmuxAdapter { runner, warnings, executable })
    }
}

// ---------------------------------------------------------------------------
// Commands
// ---------------------------------------------------------------------------

/// The arguments of an operation. Options of tmux are handled elsewhere.
pub open spec fn arguments(operation: TmuxOperation) -> Seq<Seq<char>> {
    match operation {
        TmuxOperation::ListClients => seq![
            "list-clients"@,
            "-F"@,
            "#{client_session} #{client_activity}"@,
        ],
        TmuxOperation::ListWindows(session) => seq![
            "list-windows"@,
            "-t"@,
            session@,
            "-F"@,
            "#{window_active} #{window_id} #{window_index} #{window_name}"@,
        ],
        TmuxOperation::ListPanes(window) => seq![
            "list-panes"@,
            "-t"@,
            window@,
            "-F"@,
            "#{pane_id} #{pane_index} #{pane_left} #{pane_top} #{pane_width} #{pane_height} #{pane_active}"@,
        ],
        TmuxOperation::CapturePane(pane) => seq![
            "capture-pane"@,
            "-p"@,
            "-e"@,
            "-t"@,
            pane@,
        ],
        TmuxOperation::ShowOption(name) => seq!["show-options"@, "-gv"@, name@],
        TmuxOperation::SetOption(name) => seq!["set-option"@, "-g"@, name@],
        TmuxOperation::UnsetOption(name) => seq!["set-option"@, "-gu"@, name@],
    }
}

/// The arguments of an operation; the value that an option is set to follows them.
pub fn operation_arguments(operation: &TmuxOperation) -> (r: Vec<String>)
    ensures
        texts(r@) == arguments(*operation),
{
    let mut out: Vec<String> = Vec::new();
    match operation {
        TmuxOperation::ListClients => {
            out.push(copy("list-clients"));
            out.push(copy("-F"));
            out.push(copy("#{client_session} #{client_activity}"));
        },
        TmuxOperation::ListWindows(session) => {
            out.push(copy("list-windows"));
            out.push(copy("-t"));
            out.push(session.clone());
            out.push(copy("-F"));
            out.push(copy("#{window_active} #{window_id} #{window_index} #{window_name}"));
        },
        TmuxOperation::ListPanes(window) => {
            out.push(copy("list-panes"));
            out.push(copy("-t"));
            out.push(window.clone());
            out.push(copy("-F"));
            out.push(
                copy(
                    "#{pane_id} #{pane_index} #{pane_left} #{pane_top} #{pane_width} #{pane_height} #{pane_active}",
                ),
            );
        },
        TmuxOperation::CapturePane(pane) => {
            out.push(copy("capture-pane"));
            out.push(copy("-p"));
            out.push(copy("-e"));
            out.push(copy("-t"));
            out.push(pane.clone());
        },
        TmuxOperation::ShowOption(name) => {
            out.push(copy("show-options"));
            out.push(copy("-gv"));
            out.push(name.clone());
        },
        TmuxOperation::SetOption(name) => {
            out.push(copy("set-option"));
            out.push(copy("-g"));
            out.push(name.clone());
        },
        TmuxOperation::UnsetOption(name) => {
            out.push(copy("set-option"));
            out.push(copy("-gu"));
            out.push(name.clone());
        },
    }
    proof {
        assert(texts(out@) =~= arguments(*operation));
    }
    out
}

/// The text that a command wrote, where it succeeded and wrote text.
pub open spec fn output_text(operation: OperationView, output: OutputView) -> Result<
    Seq<char>,
    TmuxErrorView,
> {
    if output.status != 0 {
        Err(
            TmuxErrorView::Nonzero {
                operation,
                status: output.status,
                stderr: lossy_decoding(output.stderr),
            },
        )
    } else if valid_utf8(output.stdout) {
        Ok(decode_utf8(output.stdout))
    } else {
        Err(TmuxErrorView::InvalidUtf8 { operation, source: utf8_complaint(output.stdout) })
    }
}

pub fn read_output(operation: TmuxOperation, output: CommandOutput) -> (r: Result<
    String,
    TmuxError,
>)
    ensures
        match r {
            Ok(text) => output_text(operation@, output@) == Ok::<Seq<char>, TmuxErrorView>(text@),
            Err(error) => output_text(operation@, output@) == Err::<Seq<char>, TmuxErrorView>(
                error@,
            ),
        },
{
    if output.status != 0 {
        return Err(
            TmuxError::Nonzero {
                operation,
                status: output.status,
                stderr: lossy_text(output.stderr.as_slice()),
            },
        );
    }
    match decode_text(output.stdout.as_slice()) {
        Ok(text) => Ok(text),
        Err(source) => Err(TmuxError::InvalidUtf8 { operation, source }),
    }
}

// ---------------------------------------------------------------------------
// Clients
// ---------------------------------------------------------------------------

/// What a row of the clients says.
pub ghost enum RowReading {
    /// It is dropped for that reason.
    Dropped(Seq<char>),
    Client(Seq<char>, int),
}

/// What a row of the clients says: a session's name, which may hold spaces, a space,
/// and the time of its last activity.
pub open spec fn client_row(row: Seq<char>) -> RowReading {
    let k = last_index(row, ' ');
    if row.len() == 0 {
        RowReading::Dropped("empty row"@)
    } else if k == -1 {
        RowReading::Dropped("missing activity separator"@)
    } else if k == 0 {
        RowReading::Dropped("empty session identity"@)
    } else if signed_value(row.skip(k + 1)) is None {
        RowReading::Dropped("activity is not an integer"@)
    } else {
        RowReading::Client(row.take(k), signed_value(row.skip(k + 1))->0)
    }
}

pub ghost struct ClientView {
    pub session: Seq<char>,
    pub activity: int,
}

impl View for ClientInfo {
    type V = ClientView;

    open spec fn view(&self) -> ClientView {
        ClientView { session: self.session@, activity: self.activity as int }
    }
}

pub open spec fn client_views(v: Seq<ClientInfo>) -> Seq<ClientView> {
    v.map_values(|c: ClientInfo| c@)
}

/// The activity that is known of a session.
pub open spec fn known_activity(clients: Seq<ClientView>, session: Seq<char>) -> Option<int>
    decreases clients.len(),
{
    if clients.len() == 0 {
        None
    } else if clients.last().session == session {
        Some(clients.last().activity)
    } else {
        known_activity(clients.drop_last(), session)
    }
}

/// What is said of a row that is dropped: why, and not the row, which begins with a
/// session's name.
pub open spec fn row_warning(reason: Seq<char>) -> Seq<char> {
    "dropping malformed list-clients row: "@ + reason
}

pub ghost struct ClientListing {
    pub clients: Seq<ClientView>,
    pub warnings: Seq<Seq<char>>,
}

/// What the rows say: each session once, with the activity that its first row gives.
pub open spec fn client_listing(rows: Seq<Seq<char>>) -> ClientListing
    decreases rows.len(),
{
    if rows.len() == 0 {
        ClientListing { clients: Seq::empty(), warnings: Seq::empty() }
    } else {
        let before = client_listing(rows.drop_last());
        let row = rows.last();
        match client_row(row) {
            RowReading::Dropped(reason) => ClientListing {
                warnings: before.warnings.push(row_warning(reason)),
                ..before
            },
            RowReading::Client(session, activity) => match known_activity(before.clients, session) {
                Some(known) => if known == activity {
                    before
                } else {
                    ClientListing {
                        warnings: before.warnings.push(
                            row_warning("duplicate session has contradictory activity"@),
                        ),
                        ..before
                    }
                },
                None => ClientListing {
                    clients: before.clients.push(ClientView { session, activity }),
                    ..before
                },
            },
        }
    }
}

/// No session is listed twice.
pub open spec fn sessions_differ(clients: Seq<ClientView>) -> bool {
    forall|i: int, j: int|
        0 <= i < j < clients.len() ==> (#[trigger] clients[i]).session != (
        #[trigger] clients[j]).session
}

proof fn lemma_known_activity(clients: Seq<ClientView>, session: Seq<char>)
    ensures
        known_activity(clients, session) is None ==> forall|i: int|
            0 <= i < clients.len() ==> (#[trigger] clients[i]).session != session,
    decreases clients.len(),
{
    if clients.len() > 0 {
        lemma_known_activity(clients.drop_last(), session);
        if known_activity(clients, session) is None {
            assert forall|i: int| 0 <= i < clients.len() implies (#[trigger] clients[i]).session
                != session by {
                if i < clients.len() - 1 {
                    assert(clients.drop_last()[i] == clients[i]);
                }
            }
        }
    }
}

/// Whatever tmux writes, no session is listed twice.
pub proof fn lemma_clients_are_listed_once(rows: Seq<Seq<char>>)
    ensures
        sessions_differ(client_listing(rows).clients),
    decreases rows.len(),
{
    if rows.len() > 0 {
        lemma_clients_are_listed_once(rows.drop_last());
        let before = client_listing(rows.drop_last()).clients;
        let after = client_listing(rows).clients;
        match client_row(rows.last()) {
            RowReading::Client(session, _) => {
                lemma_known_activity(before, session);
                if known_activity(before, session) is None {
                    assert forall|i: int, j: int| 0 <= i < j < after.len() implies (
                    #[trigger] after[i]).session != (#[trigger] after[j]).session by {
                        assert(after[i] == before[i]);
                        if j < before.len() {
                            assert(after[j] == before[j]);
                        }
                    }
                }
            },
            _ => {},
        }
    }
}

/// The two rows say the same but for the session: both are dropped for one reason, or
/// both give the same activity.
pub open spec fn rows_alike(a: Seq<char>, b: Seq<char>) -> bool {
    match (client_row(a), client_row(b)) {
        (RowReading::Dropped(x), RowReading::Dropped(y)) => x == y,
        (RowReading::Client(_, x), RowReading::Client(_, y)) => x == y,
        _ => false,
    }
}

/// The session that a row names.
pub open spec fn row_session(row: Seq<char>) -> Seq<char> {
    match client_row(row) {
        RowReading::Client(session, _) => session,
        RowReading::Dropped(_) => Seq::empty(),
    }
}

/// The two outputs differ only in the names of sessions: row by row they say the same,
/// and where one names a session again, so does the other.
pub open spec fn listings_alike(a: Seq<Seq<char>>, b: Seq<Seq<char>>) -> bool {
    &&& a.len() == b.len()
    &&& forall|i: int| 0 <= i < a.len() ==> rows_alike(#[trigger] a[i], b[i])
    &&& forall|i: int, j: int|
        0 <= i < j < a.len() ==> (row_session(#[trigger] a[i]) == row_session(#[trigger] a[j])
            <==> row_session(b[i]) == row_session(b[j]))
}

/// The row from which the listed client of that number comes.
spec fn listed_row(rows: Seq<Seq<char>>, k: int) -> int
    decreases rows.len(),
{
    if rows.len() == 0 {
        0
    } else if k < client_listing(rows.drop_last()).clients.len() {
        listed_row(rows.drop_last(), k)
    } else {
        rows.len() - 1
    }
}

proof fn lemma_listed_row(rows: Seq<Seq<char>>, k: int)
    requires
        0 <= k < client_listing(rows).clients.len(),
    ensures
        0 <= listed_row(rows, k) < rows.len(),
        client_row(rows[listed_row(rows, k)]) == RowReading::Client(
            client_listing(rows).clients[k].session,
            client_listing(rows).clients[k].activity,
        ),
    decreases rows.len(),
{
    if rows.len() > 0 {
        let before = client_listing(rows.drop_last()).clients;
        if k < before.len() {
            lemma_listed_row(rows.drop_last(), k);
            assert(client_listing(rows).clients[k] == before[k]);
        }
    }
}

proof fn lemma_known_alike(
    a: Seq<ClientView>,
    b: Seq<ClientView>,
    session_a: Seq<char>,
    session_b: Seq<char>,
)
    requires
        a.len() == b.len(),
        forall|k: int| 0 <= k < a.len() ==> (#[trigger] a[k]).activity == b[k].activity,
        forall|k: int|
            0 <= k < a.len() ==> ((#[trigger] a[k]).session == session_a <==> b[k].session
                == session_b),
    ensures
        known_activity(a, session_a) == known_activity(b, session_b),
    decreases a.len(),
{
    if a.len() > 0 {
        let last = a.len() - 1;
        assert(a[last].activity == b[last].activity);
        assert(a[last].session == session_a <==> b[last].session == session_b);
        let (x, y) = (a.drop_last(), b.drop_last());
        assert forall|k: int| 0 <= k < x.len() implies (#[trigger] x[k]).activity == y[k].activity
            && (x[k].session == session_a <==> y[k].session == session_b) by {
            assert(x[k] == a[k] && y[k] == b[k]);
        }
        lemma_known_alike(x, y, session_a, session_b);
    }
}

/// No warning about tmux's clients depends on the name of a session: two outputs that
/// differ only in such names give the same warnings, and the same activities in the same
/// order.
pub proof fn lemma_client_warnings_name_no_session(a: Seq<Seq<char>>, b: Seq<Seq<char>>)
    requires
        listings_alike(a, b),
    ensures
        client_listing(a).warnings == client_listing(b).warnings,
        client_listing(a).clients.len() == client_listing(b).clients.len(),
        forall|k: int|
            0 <= k < client_listing(a).clients.len() ==> (#[trigger] client_listing(
                a,
            ).clients[k]).activity == client_listing(b).clients[k].activity,
{
    lemma_listings_keep_step(a, b);
}

proof fn lemma_listings_keep_step(a: Seq<Seq<char>>, b: Seq<Seq<char>>)
    requires
        listings_alike(a, b),
    ensures
        client_listing(a).warnings == client_listing(b).warnings,
        client_listing(a).clients.len() == client_listing(b).clients.len(),
        forall|k: int|
            0 <= k < client_listing(a).clients.len() ==> (#[trigger] client_listing(
                a,
            ).clients[k]).activity == client_listing(b).clients[k].activity && listed_row(a, k)
                == listed_row(b, k),
    decreases a.len(),
{
    if a.len() > 0 {
        let (x, y) = (a.drop_last(), b.drop_last());
        let n = a.len() - 1;
        assert forall|i: int| 0 <= i < x.len() implies rows_alike(#[trigger] x[i], y[i]) by {
            assert(x[i] == a[i] && y[i] == b[i]);
            assert(rows_alike(a[i], b[i]));
        }
        assert forall|i: int, j: int| 0 <= i < j < x.len() implies (row_session(#[trigger] x[i])
            == row_session(#[trigger] x[j]) <==> row_session(y[i]) == row_session(y[j])) by {
            assert(x[i] == a[i] && x[j] == a[j] && y[i] == b[i] && y[j] == b[j]);
        }
        lemma_listings_keep_step(x, y);
        assert(rows_alike(a[n], b[n]));
        let (p, q) = (client_listing(x).clients, client_listing(y).clients);
        match (client_row(a[n]), client_row(b[n])) {
            (RowReading::Client(session_a, _), RowReading::Client(session_b, _)) => {
                assert forall|k: int| 0 <= k < p.len() implies ((#[trigger] p[k]).session
                    == session_a <==> q[k].session == session_b) by {
                    lemma_listed_row(x, k);
                    lemma_listed_row(y, k);
                    let i = listed_row(x, k);
                    assert(x[i] == a[i] && y[i] == b[i]);
                    assert(row_session(a[i]) == p[k].session && row_session(b[i]) == q[k].session);
                    assert(row_session(a[n]) == session_a && row_session(b[n]) == session_b);
                }
                lemma_known_alike(p, q, session_a, session_b);
            },
            _ => {},
        }
        assert forall|k: int| 0 <= k < client_listing(a).clients.len() implies (
        #[trigger] client_listing(a).clients[k]).activity == client_listing(b).clients[k].activity
            && listed_row(a, k) == listed_row(b, k) by {
            if k < p.len() {
                assert(client_listing(a).clients[k] == p[k]);
                assert(client_listing(b).clients[k] == q[k]);
            }
        }
    }
}

fn warn_row(reason: &str) -> (r: String)
    ensures
        r@ == row_warning(reason@),
{
    concat("dropping malformed list-clients row: ", reason)
}

fn find_client(clients: &Vec<ClientInfo>, session: &str) -> (r: Option<i64>)
    ensures
        match r {
            Some(activity) => known_activity(client_views(clients@), session@) == Some(
                activity as int,
            ),
            None => known_activity(client_views(clients@), session@) is None,
        },
{
    let ghost all = client_views(clients@);
    let mut n: usize = clients.len();
    proof {
        assert(all.take(n as int) =~= all);
    }
    while n > 0
        invariant
            n <= clients@.len(),
            all == client_views(clients@),
            known_activity(all, session@) == known_activity(all.take(n as int), session@),
        decreases n,
    {
        proof {
            assert(all.take(n as int).drop_last() =~= all.take(n - 1));
            assert(all.take(n as int).last() == clients@[n - 1]@);
        }
        if same_text(clients[n - 1].session.as_str(), session) {
            return Some(clients[n - 1].activity);
        }
        n = n - 1;
    }
    None
}

/// A row of the clients: the session and its activity, or why the row is dropped.
fn read_client_row(row: &str) -> (r: Result<(String, i64), &'static str>)
    ensures
        match r {
            Ok(read) => client_row(row@) == RowReading::Client(read.0@, read.1 as int),
            Err(reason) => client_row(row@) == RowReading::Dropped(reason@),
        },
{
    let chars = chars_of(row);
    if chars.len() == 0 {
        return Err("empty row");
    }
    let k: usize = match position_of_last(&chars, ' ') {
        Some(k) => k,
        None => return Err("missing activity separator"),
    };
    if k == 0 {
        return Err("empty session identity");
    }
    let session = substring(&chars, 0, k);
    let activity = substring(&chars, k + 1, chars.len());
    proof {
        assert(session@ =~= row@.take(k as int));
        assert(activity@ =~= row@.skip(k + 1));
    }
    match parse_signed(activity.as_str()) {
        Some(activity) => Ok((session, activity)),
        None => Err("activity is not an integer"),
    }
}

/// The clients that tmux lists, and the warnings about rows that were dropped.
pub fn list_clients(stdout: &str) -> (r: (Vec<ClientInfo>, Vec<String>))
    ensures
        client_listing(lines(stdout@)) == (ClientListing {
            clients: client_views(r.0@),
            warnings: texts(r.1@),
        }),
{
    let rows = text_lines(stdout);
    let ghost all = texts(rows@);
    let mut clients: Vec<ClientInfo> = Vec::new();
    let mut warnings: Vec<String> = Vec::new();
    let mut i: usize = 0;
    proof {
        assert(all.take(0) =~= Seq::<Seq<char>>::empty());
        assert(client_views(clients@) =~= Seq::<ClientView>::empty());
        assert(texts(warnings@) =~= Seq::<Seq<char>>::empty());
    }
    while i < rows.len()
        invariant
            i <= rows@.len(),
            all == texts(rows@),
            client_listing(all.take(i as int)) == (ClientListing {
                clients: client_views(clients@),
                warnings: texts(warnings@),
            }),
        decreases rows@.len() - i,
    {
        let row = rows[i].as_str();
        proof {
            assert(all.take(i + 1).drop_last() =~= all.take(i as int));
            assert(all.take(i + 1).last() == row@);
        }
        let ghost listed = client_views(clients@);
        let ghost warned = texts(warnings@);
        match read_client_row(row) {
            Ok((session, activity)) => match find_client(&clients, session.as_str()) {
                Some(known) => {
                    if known != activity {
                        let warning = warn_row("duplicate session has contradictory activity");
                        warnings.push(warning);
                        proof {
                            assert(texts(warnings@) =~= warned.push(warning@));
                        }
                    }
                },
                None => {
                    let client = ClientInfo { session, activity };
                    clients.push(client);
                    proof {
                        assert(client_views(clients@) =~= listed.push(client@));
                    }
                },
            },
            Err(reason) => {
                let warning = warn_row(reason);
                warnings.push(warning);
                proof {
                    assert(texts(warnings@) =~= warned.push(warning@));
                }
            },
        }
        i = i + 1;
    }
    proof {
        assert(all.take(rows@.len() as int) =~= all);
    }
    (clients, warnings)
}

/// A client that was active within the last `maximum_age` seconds.
pub open spec fn is_active(client: ClientView, now: int, maximum_age: int) -> bool {
    now - client.activity <= maximum_age
}

/// The active clients, in order.
pub open spec fn active_clients(clients: Seq<ClientView>, now: int, maximum_age: int) -> Seq<
    ClientView,
>
    decreases clients.len(),
{
    if clients.len() == 0 {
        Seq::empty()
    } else {
        let before = active_clients(clients.drop_last(), now, maximum_age);
        if is_active(clients.last(), now, maximum_age) {
            before.push(clients.last())
        } else {
            before
        }
    }
}

/// The clients that were active within the last `maximum_age` seconds.
pub fn list_active_clients(clients: &Vec<ClientInfo>, now_unix_seconds: i64, maximum_age: u64) -> (r:
    Vec<ClientInfo>)
    ensures
        client_views(r@) == active_clients(
            client_views(clients@),
            now_unix_seconds as int,
            maximum_age as int,
        ),
{
    let ghost all = client_views(clients@);
    let mut out: Vec<ClientInfo> = Vec::new();
    let mut i: usize = 0;
    proof {
        assert(all.take(0) =~= Seq::<ClientView>::empty());
        assert(client_views(out@) =~= Seq::<ClientView>::empty());
    }
    while i < clients.len()
        invariant
            i <= clients@.len(),
            all == client_views(clients@),
            client_views(out@) == active_clients(
                all.take(i as int),
                now_unix_seconds as int,
                maximum_age as int,
            ),
        decreases clients@.len() - i,
    {
        proof {
            assert(all.take(i + 1).drop_last() =~= all.take(i as int));
            assert(all.take(i + 1).last() == clients@[i as int]@);
        }
        let age: i128 = now_unix_seconds as i128 - clients[i].activity as i128;
        if age <= maximum_age as i128 {
            let ghost before = client_views(out@);
            out.push(clients[i].clone());
            proof {
                assert(client_views(out@) =~= before.push(clients@[i as int]@));
            }
        }
        i = i + 1;
    }
    proof {
        assert(all.take(clients@.len() as int) =~= all);
    }
    out
}

// ---------------------------------------------------------------------------
// Windows and panes
// ---------------------------------------------------------------------------

/// What is said of a row that cannot be read.
pub open spec fn invalid_row(row: Seq<char>) -> Seq<char> {
    "invalid row "@ + debug_quoting(row)
}

/// What is said of a row whose ID or index another row has.
pub open spec fn duplicate_row(row: Seq<char>) -> Seq<char> {
    "duplicate ID or index in row "@ + debug_quoting(row)
}

/// A flag of tmux.
pub open spec fn flag(text: Seq<char>) -> Option<bool> {
    if text == "0"@ {
        Some(false)
    } else if text == "1"@ {
        Some(true)
    } else {
        None
    }
}

/// A field as a 32-bit number.
pub open spec fn number(text: Seq<char>) -> Option<nat> {
    unsigned_value(text, u32::MAX as nat)
}

fn parse_active(value: &str) -> (r: Option<bool>)
    ensures
        r == flag(value@),
{
    if same_text(value, "0") {
        Some(false)
    } else if same_text(value, "1") {
        Some(true)
    } else {
        None
    }
}

fn parse_u32(value: &str) -> (r: Option<u32>)
    ensures
        match r {
            Some(n) => number(value@) == Some(n as nat),
            None => number(value@) is None,
        },
{
    match parse_unsigned(value, u32::MAX as u64) {
        Some(n) => Some(n as u32),
        None => None,
    }
}

fn complain(what: &str, row: &str) -> (r: String)
    ensures
        r@ == what@ + debug_quoting(row@),
{
    let mut out = copy(what);
    out.append(quoted(row).as_str());
    out
}

pub ghost struct WindowView {
    pub id: Seq<char>,
    pub index: nat,
    pub name: Seq<char>,
    pub active: bool,
}

impl View for WindowInfo {
    type V = WindowView;

    open spec fn view(&self) -> WindowView {
        WindowView {
            id: self.id@,
            index: self.index as nat,
            name: self.name@,
            active: self.active,
        }
    }
}

pub ghost struct PaneView {
    pub id: Seq<char>,
    pub index: nat,
    pub left: nat,
    pub top: nat,
    pub width: nat,
    pub height: nat,
    pub active: bool,
    pub content: Seq<char>,
}

impl View for PaneInfo {
    type V = PaneView;

    open spec fn view(&self) -> PaneView {
        PaneView {
            id: self.id@,
            index: self.index as nat,
            left: self.left as nat,
            top: self.top as nat,
            width: self.width as nat,
            height: self.height as nat,
            active: self.active,
            content: self.content@,
        }
    }
}

/// A window's row: whether it is active, its ID, its index and its name, which may
/// hold spaces.
pub open spec fn window_row(row: Seq<char>) -> Result<WindowView, Seq<char>> {
    let fields = split_limited(row, ' ', 4);
    if fields.len() != 4 || fields[1].len() == 0 || fields[3].len() == 0 || flag(fields[0]) is None
        || number(fields[2]) is None {
        Err(invalid_row(row))
    } else {
        Ok(
            WindowView {
                id: fields[1],
                index: number(fields[2])->0,
                name: fields[3],
                active: flag(fields[0])->0,
            },
        )
    }
}

/// A pane's row: its ID, its index, its place and size, and whether it is active.
pub open spec fn pane_row(row: Seq<char>) -> Result<PaneView, Seq<char>> {
    let fields = split_on(row, ' ');
    if fields.len() != 7 || fields[0].len() == 0 || number(fields[1]) is None || number(fields[2])
        is None || number(fields[3]) is None || number(fields[4]) is None || number(fields[5])
        is None {
        Err(invalid_row(row))
    } else if number(fields[4])->0 == 0 || number(fields[5])->0 == 0 {
        Err("nonpositive pane size in row "@ + debug_quoting(row))
    } else if flag(fields[6]) is None {
        Err(invalid_row(row))
    } else {
        Ok(
            PaneView {
                id: fields[0],
                index: number(fields[1])->0,
                left: number(fields[2])->0,
                top: number(fields[3])->0,
                width: number(fields[4])->0,
                height: number(fields[5])->0,
                active: flag(fields[6])->0,
                content: Seq::empty(),
            },
        )
    }
}

fn read_window_row(row: &str) -> (r: Result<WindowInfo, String>)
    ensures
        match r {
            Ok(window) => window_row(row@) == Ok::<WindowView, Seq<char>>(window@),
            Err(detail) => window_row(row@) == Err::<WindowView, Seq<char>>(detail@),
        },
{
    let fields = pieces(row, ' ', 4);
    proof {
        assert(texts(fields@).len() == fields@.len());
    }
    if fields.len() != 4 {
        return Err(complain("invalid row ", row));
    }
    proof {
        assert(forall|i: int| 0 <= i < 4 ==> texts(fields@)[i] == fields@[i]@);
    }
    if chars_of(fields[1].as_str()).len() == 0 || chars_of(fields[3].as_str()).len() == 0 {
        return Err(complain("invalid row ", row));
    }
    match (parse_active(fields[0].as_str()), parse_u32(fields[2].as_str())) {
        (Some(active), Some(index)) => Ok(
            WindowInfo { id: fields[1].clone(), index, name: fields[3].clone(), active },
        ),
        _ => Err(complain("invalid row ", row)),
    }
}

fn read_pane_row(row: &str) -> (r: Result<PaneInfo, String>)
    ensures
        match r {
            Ok(pane) => pane_row(row@) == Ok::<PaneView, Seq<char>>(pane@),
            Err(detail) => pane_row(row@) == Err::<PaneView, Seq<char>>(detail@),
        },
{
    let fields = all_pieces(row, ' ');
    proof {
        assert(texts(fields@).len() == fields@.len());
    }
    if fields.len() != 7 {
        return Err(complain("invalid row ", row));
    }
    proof {
        assert(forall|i: int| 0 <= i < 7 ==> texts(fields@)[i] == fields@[i]@);
    }
    if chars_of(fields[0].as_str()).len() == 0 {
        return Err(complain("invalid row ", row));
    }
    let index: u32 = match parse_u32(fields[1].as_str()) {
        Some(n) => n,
        None => return Err(complain("invalid row ", row)),
    };
    let left: u32 = match parse_u32(fields[2].as_str()) {
        Some(n) => n,
        None => return Err(complain("invalid row ", row)),
    };
    let top: u32 = match parse_u32(fields[3].as_str()) {
        Some(n) => n,
        None => return Err(complain("invalid row ", row)),
    };
    let width: u32 = match parse_u32(fields[4].as_str()) {
        Some(n) => n,
        None => return Err(complain("invalid row ", row)),
    };
    let height: u32 = match parse_u32(fields[5].as_str()) {
        Some(n) => n,
        None => return Err(complain("invalid row ", row)),
    };
    if width == 0 || height == 0 {
        return Err(complain("nonpositive pane size in row ", row));
    }
    match parse_active(fields[6].as_str()) {
        Some(active) => {
            let pane = PaneInfo {
                id: fields[0].clone(),
                index,
                left,
                top,
                width,
                height,
                active,
                content: String::new(),
            };
            proof {
                assert(pane.content@ =~= Seq::<char>::empty());
            }
            Ok(pane)
        },
        None => Err(complain("invalid row ", row)),
    }
}

pub open spec fn window_views(v: Seq<WindowInfo>) -> Seq<WindowView> {
    v.map_values(|item: WindowInfo| item@)
}

/// Some window of the list has the ID or the index.
pub open spec fn has_window(listed: Seq<WindowView>, id: Seq<char>, index: nat) -> bool {
    exists|i: int|
        0 <= i < listed.len() && ((#[trigger] listed[i]).id == id || listed[i].index == index)
}

/// The windows of the rows in order, or what is said of the first row that cannot be
/// used.
pub open spec fn window_rows(rows: Seq<Seq<char>>) -> Result<Seq<WindowView>, Seq<char>>
    decreases rows.len(),
{
    if rows.len() == 0 {
        Ok(Seq::empty())
    } else {
        match window_rows(rows.drop_last()) {
            Err(detail) => Err(detail),
            Ok(before) => match window_row(rows.last()) {
                Err(detail) => Err(detail),
                Ok(item) => if has_window(before, item.id, item.index) {
                    Err(duplicate_row(rows.last()))
                } else {
                    Ok(before.push(item))
                },
            },
        }
    }
}

/// How many windows are active.
pub open spec fn active_windows(listed: Seq<WindowView>) -> nat
    decreases listed.len(),
{
    if listed.len() == 0 {
        0
    } else {
        active_windows(listed.drop_last()) + if listed.last().active {
            1nat
        } else {
            0nat
        }
    }
}

/// The windows that tmux lists: at least one, and exactly one that is active.
pub open spec fn window_listing(stdout: Seq<char>) -> Result<Seq<WindowView>, Seq<char>> {
    if stdout.len() == 0 {
        Err("empty successful output"@)
    } else {
        match window_rows(lines(stdout)) {
            Err(detail) => Err(detail),
            Ok(listed) => if listed.len() == 0 {
                Err("empty successful output"@)
            } else if active_windows(listed) != 1 {
                Err("expected exactly one active window"@)
            } else {
                Ok(listed)
            },
        }
    }
}

proof fn lemma_window_rows_stop(rows: Seq<Seq<char>>, k: int)
    requires
        0 <= k <= rows.len(),
        window_rows(rows.take(k)) is Err,
    ensures
        window_rows(rows) == window_rows(rows.take(k)),
    decreases rows.len() - k,
{
    if k < rows.len() {
        assert(rows.take(k + 1).drop_last() =~= rows.take(k));
        lemma_window_rows_stop(rows, k + 1);
    } else {
        assert(rows.take(k) =~= rows);
    }
}

fn any_window(listed: &Vec<WindowInfo>, id: &str, index: u32) -> (r: bool)
    ensures
        r == has_window(window_views(listed@), id@, index as nat),
{
    let ghost all = window_views(listed@);
    let mut i: usize = 0;
    while i < listed.len()
        invariant
            i <= listed@.len(),
            all == window_views(listed@),
            forall|j: int|
                0 <= j < i ==> (#[trigger] all[j]).id != id@ && all[j].index != index as nat,
        decreases listed@.len() - i,
    {
        if listed[i].index == index || same_text(listed[i].id.as_str(), id) {
            proof {
                assert(all[i as int].id == id@ || all[i as int].index == index as nat);
            }
            return true;
        }
        i = i + 1;
    }
    false
}

fn count_active_windows(listed: &Vec<WindowInfo>) -> (r: usize)
    ensures
        r == active_windows(window_views(listed@)),
{
    let ghost all = window_views(listed@);
    let mut count: usize = 0;
    let mut i: usize = 0;
    proof {
        assert(all.take(0) =~= Seq::<WindowView>::empty());
    }
    while i < listed.len()
        invariant
            i <= listed@.len(),
            count <= i,
            all == window_views(listed@),
            count == active_windows(all.take(i as int)),
        decreases listed@.len() - i,
    {
        proof {
            assert(all.take(i + 1).drop_last() =~= all.take(i as int));
            assert(all.take(i + 1).last() == listed@[i as int]@);
        }
        if listed[i].active {
            count = count + 1;
        }
        i = i + 1;
    }
    proof {
        assert(all.take(listed@.len() as int) =~= all);
    }
    count
}

fn read_windows(stdout: &str) -> (r: Result<Vec<WindowInfo>, String>)
    ensures
        match r {
            Ok(listed) => window_listing(stdout@) == Ok::<Seq<WindowView>, Seq<char>>(
                window_views(listed@),
            ),
            Err(detail) => window_listing(stdout@) == Err::<Seq<WindowView>, Seq<char>>(detail@),
        },
{
    if chars_of(stdout).len() == 0 {
        return Err(copy("empty successful output"));
    }
    let rows = text_lines(stdout);
    let ghost all = texts(rows@);
    let mut out: Vec<WindowInfo> = Vec::new();
    let mut i: usize = 0;
    proof {
        assert(all.take(0) =~= Seq::<Seq<char>>::empty());
        assert(window_views(out@) =~= Seq::<WindowView>::empty());
    }
    while i < rows.len()
        invariant
            i <= rows@.len(),
            all == texts(rows@),
            all == lines(stdout@),
            stdout@.len() > 0,
            window_rows(all.take(i as int)) == Ok::<Seq<WindowView>, Seq<char>>(window_views(out@)),
        decreases rows@.len() - i,
    {
        let row = rows[i].as_str();
        proof {
            assert(all.take(i + 1).drop_last() =~= all.take(i as int));
            assert(all.take(i + 1).last() == row@);
        }
        match read_window_row(row) {
            Ok(item) => {
                if any_window(&out, item.id.as_str(), item.index) {
                    proof {
                        lemma_window_rows_stop(all, i + 1);
                    }
                    return Err(complain("duplicate ID or index in row ", row));
                }
                let ghost before = window_views(out@);
                out.push(item);
                proof {
                    assert(window_views(out@) =~= before.push(item@));
                }
            },
            Err(detail) => {
                proof {
                    lemma_window_rows_stop(all, i + 1);
                }
                return Err(detail);
            },
        }
        i = i + 1;
    }
    proof {
        assert(all.take(rows@.len() as int) =~= all);
        assert(window_views(out@).len() == out@.len());
    }
    if out.len() == 0 {
        return Err(copy("empty successful output"));
    }
    if count_active_windows(&out) != 1 {
        return Err(copy("expected exactly one active window"));
    }
    Ok(out)
}

/// The windows that tmux lists.
pub fn parse_windows(stdout: &str, operation: TmuxOperation) -> (r: Result<Vec<WindowInfo>, TmuxError>)
    ensures
        match r {
            Ok(listed) => window_listing(stdout@) == Ok::<Seq<WindowView>, Seq<char>>(
                window_views(listed@),
            ),
            Err(error) => error@ matches TmuxErrorView::Malformed { operation: of, detail } && of
                == operation@ && window_listing(stdout@) == Err::<Seq<WindowView>, Seq<char>>(detail),
        },
{
    match read_windows(stdout) {
        Ok(listed) => Ok(listed),
        Err(detail) => Err(TmuxError::Malformed { operation, detail }),
    }
}

/// IDs and indexes of listed windows differ.
pub open spec fn windows_differ(listed: Seq<WindowView>) -> bool {
    forall|i: int, j: int|
        0 <= i < j < listed.len() ==> (#[trigger] listed[i]).id != (#[trigger] listed[j]).id
            && listed[i].index != listed[j].index
}

proof fn lemma_window_rows_differ(rows: Seq<Seq<char>>)
    requires
        window_rows(rows) is Ok,
    ensures
        windows_differ(window_rows(rows)->Ok_0),
    decreases rows.len(),
{
    if rows.len() > 0 {
        lemma_window_rows_differ(rows.drop_last());
        let before = window_rows(rows.drop_last())->Ok_0;
        let after = window_rows(rows)->Ok_0;
        assert forall|i: int, j: int| 0 <= i < j < after.len() implies (#[trigger] after[i]).id != (
        #[trigger] after[j]).id && after[i].index != after[j].index by {
            assert(after[i] == before[i]);
            if j < before.len() {
                assert(after[j] == before[j]);
            }
        }
    }
}

/// Whatever tmux writes, the windows that are listed have different IDs and indexes, and
/// exactly one of them is active.
pub proof fn lemma_windows_are_sound(stdout: Seq<char>)
    requires
        window_listing(stdout) is Ok,
    ensures
        windows_differ(window_listing(stdout)->Ok_0),
        active_windows(window_listing(stdout)->Ok_0) == 1,
{
    lemma_window_rows_differ(lines(stdout));
}

pub open spec fn pane_views(v: Seq<PaneInfo>) -> Seq<PaneView> {
    v.map_values(|item: PaneInfo| item@)
}

/// Some pane of the list has the ID or the index.
pub open spec fn has_pane(listed: Seq<PaneView>, id: Seq<char>, index: nat) -> bool {
    exists|i: int|
        0 <= i < listed.len() && ((#[trigger] listed[i]).id == id || listed[i].index == index)
}

/// The panes of the rows in order, or what is said of the first row that cannot be
/// used.
pub open spec fn pane_rows(rows: Seq<Seq<char>>) -> Result<Seq<PaneView>, Seq<char>>
    decreases rows.len(),
{
    if rows.len() == 0 {
        Ok(Seq::empty())
    } else {
        match pane_rows(rows.drop_last()) {
            Err(detail) => Err(detail),
            Ok(before) => match pane_row(rows.last()) {
                Err(detail) => Err(detail),
                Ok(item) => if has_pane(before, item.id, item.index) {
                    Err(duplicate_row(rows.last()))
                } else {
                    Ok(before.push(item))
                },
            },
        }
    }
}

/// How many panes are active.
pub open spec fn active_panes(listed: Seq<PaneView>) -> nat
    decreases listed.len(),
{
    if listed.len() == 0 {
        0
    } else {
        active_panes(listed.drop_last()) + if listed.last().active {
            1nat
        } else {
            0nat
        }
    }
}

/// The panes that tmux lists: at least one, and exactly one that is active.
pub open spec fn pane_listing(stdout: Seq<char>) -> Result<Seq<PaneView>, Seq<char>> {
    if stdout.len() == 0 {
        Err("empty successful output"@)
    } else {
        match pane_rows(lines(stdout)) {
            Err(detail) => Err(detail),
            Ok(listed) => if listed.len() == 0 {
                Err("empty successful output"@)
            } else if active_panes(listed) != 1 {
                Err("expected exactly one active pane"@)
            } else {
                Ok(listed)
            },
        }
    }
}

proof fn lemma_pane_rows_stop(rows: Seq<Seq<char>>, k: int)
    requires
        0 <= k <= rows.len(),
        pane_rows(rows.take(k)) is Err,
    ensures
        pane_rows(rows) == pane_rows(rows.take(k)),
    decreases rows.len() - k,
{
    if k < rows.len() {
        assert(rows.take(k + 1).drop_last() =~= rows.take(k));
        lemma_pane_rows_stop(rows, k + 1);
    } else {
        assert(rows.take(k) =~= rows);
    }
}

fn any_pane(listed: &Vec<PaneInfo>, id: &str, index: u32) -> (r: bool)
    ensures
        r == has_pane(pane_views(listed@), id@, index as nat),
{
    let ghost all = pane_views(listed@);
    let mut i: usize = 0;
    while i < listed.len()
        invariant
            i <= listed@.len(),
            all == pane_views(listed@),
            forall|j: int|
                0 <= j < i ==> (#[trigger] all[j]).id != id@ && all[j].index != index as nat,
        decreases listed@.len() - i,
    {
        if listed[i].index == index || same_text(listed[i].id.as_str(), id) {
            proof {
                assert(all[i as int].id == id@ || all[i as int].index == index as nat);
            }
            return true;
        }
        i = i + 1;
    }
    false
}

fn count_active_panes(listed: &Vec<PaneInfo>) -> (r: usize)
    ensures
        r == active_panes(pane_views(listed@)),
{
    let ghost all = pane_views(listed@);
    let mut count: usize = 0;
    let mut i: usize = 0;
    proof {
        assert(all.take(0) =~= Seq::<PaneView>::empty());
    }
    while i < listed.len()
        invariant
            i <= listed@.len(),
            count <= i,
            all == pane_views(listed@),
            count == active_panes(all.take(i as int)),
        decreases listed@.len() - i,
    {
        proof {
            assert(all.take(i + 1).drop_last() =~= all.take(i as int));
            assert(all.take(i + 1).last() == listed@[i as int]@);
        }
        if listed[i].active {
            count = count + 1;
        }
        i = i + 1;
    }
    proof {
        assert(all.take(listed@.len() as int) =~= all);
    }
    count
}

fn read_panes(stdout: &str) -> (r: Result<Vec<PaneInfo>, String>)
    ensures
        match r {
            Ok(listed) => pane_listing(stdout@) == Ok::<Seq<PaneView>, Seq<char>>(
                pane_views(listed@),
            ),
            Err(detail) => pane_listing(stdout@) == Err::<Seq<PaneView>, Seq<char>>(detail@),
        },
{
    if chars_of(stdout).len() == 0 {
        return Err(copy("empty successful output"));
    }
    let rows = text_lines(stdout);
    let ghost all = texts(rows@);
    let mut out: Vec<PaneInfo> = Vec::new();
    let mut i: usize = 0;
    proof {
        assert(all.take(0) =~= Seq::<Seq<char>>::empty());
        assert(pane_views(out@) =~= Seq::<PaneView>::empty());
    }
    while i < rows.len()
        invariant
            i <= rows@.len(),
            all == texts(rows@),
            all == lines(stdout@),
            stdout@.len() > 0,
            pane_rows(all.take(i as int)) == Ok::<Seq<PaneView>, Seq<char>>(pane_views(out@)),
        decreases rows@.len() - i,
    {
        let row = rows[i].as_str();
        proof {
            assert(all.take(i + 1).drop_last() =~= all.take(i as int));
            assert(all.take(i + 1).last() == row@);
        }
        match read_pane_row(row) {
            Ok(item) => {
                if any_pane(&out, item.id.as_str(), item.index) {
                    proof {
                        lemma_pane_rows_stop(all, i + 1);
                    }
                    return Err(complain("duplicate ID or index in row ", row));
                }
                let ghost before = pane_views(out@);
                out.push(item);
                proof {
                    assert(pane_views(out@) =~= before.push(item@));
                }
            },
            Err(detail) => {
                proof {
                    lemma_pane_rows_stop(all, i + 1);
                }
                return Err(detail);
            },
        }
        i = i + 1;
    }
    proof {
        assert(all.take(rows@.len() as int) =~= all);
        assert(pane_views(out@).len() == out@.len());
    }
    if out.len() == 0 {
        return Err(copy("empty successful output"));
    }
    if count_active_panes(&out) != 1 {
        return Err(copy("expected exactly one active pane"));
    }
    Ok(out)
}

/// The panes that tmux lists.
pub fn parse_panes(stdout: &str, operation: TmuxOperation) -> (r: Result<Vec<PaneInfo>, TmuxError>)
    ensures
        match r {
            Ok(listed) => pane_listing(stdout@) == Ok::<Seq<PaneView>, Seq<char>>(
                pane_views(listed@),
            ),
            Err(error) => error@ matches TmuxErrorView::Malformed { operation: of, detail } && of
                == operation@ && pane_listing(stdout@) == Err::<Seq<PaneView>, Seq<char>>(detail),
        },
{
    match read_panes(stdout) {
        Ok(listed) => Ok(listed),
        Err(detail) => Err(TmuxError::Malformed { operation, detail }),
    }
}

/// IDs and indexes of listed panes differ.
pub open spec fn panes_differ(listed: Seq<PaneView>) -> bool {
    forall|i: int, j: int|
        0 <= i < j < listed.len() ==> (#[trigger] listed[i]).id != (#[trigger] listed[j]).id
            && listed[i].index != listed[j].index
}

proof fn lemma_pane_rows_differ(rows: Seq<Seq<char>>)
    requires
        pane_rows(rows) is Ok,
    ensures
        panes_differ(pane_rows(rows)->Ok_0),
    decreases rows.len(),
{
    if rows.len() > 0 {
        lemma_pane_rows_differ(rows.drop_last());
        let before = pane_rows(rows.drop_last())->Ok_0;
        let after = pane_rows(rows)->Ok_0;
        assert forall|i: int, j: int| 0 <= i < j < after.len() implies (#[trigger] after[i]).id != (
        #[trigger] after[j]).id && after[i].index != after[j].index by {
            assert(after[i] == before[i]);
            if j < before.len() {
                assert(after[j] == before[j]);
            }
        }
    }
}

/// Whatever tmux writes, the panes that are listed have different IDs and indexes, and
/// exactly one of them is active.
pub proof fn lemma_panes_are_sound(stdout: Seq<char>)
    requires
        pane_listing(stdout) is Ok,
    ensures
        panes_differ(pane_listing(stdout)->Ok_0),
        active_panes(pane_listing(stdout)->Ok_0) == 1,
{
    lemma_pane_rows_differ(lines(stdout));
}

// ---------------------------------------------------------------------------
// Captures
// ---------------------------------------------------------------------------

/// The first active window.
pub open spec fn first_active(windows: Seq<WindowView>) -> Option<WindowView>
    decreases windows.len(),
{
    if windows.len() == 0 {
        None
    } else if first_active(windows.drop_last()) is Some {
        first_active(windows.drop_last())
    } else if windows.last().active {
        Some(windows.last())
    } else {
        None
    }
}

proof fn lemma_first_active_stays(windows: Seq<WindowView>, k: int)
    requires
        0 <= k <= windows.len(),
        first_active(windows.take(k)) is Some,
    ensures
        first_active(windows) == first_active(windows.take(k)),
    decreases windows.len() - k,
{
    if k < windows.len() {
        assert(windows.take(k + 1).drop_last() =~= windows.take(k));
        lemma_first_active_stays(windows, k + 1);
    } else {
        assert(windows.take(k) =~= windows);
    }
}

/// The window that is shown.
pub fn active_window(windows: &Vec<WindowInfo>) -> (r: Option<WindowInfo>)
    ensures
        match r {
            Some(window) => first_active(window_views(windows@)) == Some(window@),
            None => first_active(window_views(windows@)) is None,
        },
{
    let ghost all = window_views(windows@);
    let mut i: usize = 0;
    proof {
        assert(all.take(0) =~= Seq::<WindowView>::empty());
    }
    while i < windows.len()
        invariant
            i <= windows@.len(),
            all == window_views(windows@),
            first_active(all.take(i as int)) is None,
        decreases windows@.len() - i,
    {
        proof {
            assert(all.take(i + 1).drop_last() =~= all.take(i as int));
            assert(all.take(i + 1).last() == windows@[i as int]@);
        }
        if windows[i].active {
            proof {
                lemma_first_active_stays(all, i + 1);
            }
            return Some(windows[i].clone());
        }
        i = i + 1;
    }
    proof {
        assert(all.take(windows@.len() as int) =~= all);
    }
    None
}

proof fn lemma_active_exists(windows: Seq<WindowView>)
    requires
        active_windows(windows) > 0,
    ensures
        first_active(windows) is Some,
    decreases windows.len(),
{
    if windows.len() > 0 && !windows.last().active {
        lemma_active_exists(windows.drop_last());
    }
}

/// A session whose windows were listed always has a window that is shown.
pub proof fn lemma_listed_session_has_window(stdout: Seq<char>)
    requires
        window_listing(stdout) is Ok,
    ensures
        first_active(window_listing(stdout)->Ok_0) is Some,
{
    lemma_active_exists(window_listing(stdout)->Ok_0);
}

/// What is said of a session that is not observed since its name makes no path
/// component: why, and not the name.
pub open spec fn skip_text(error: NameError) -> Seq<char> {
    "a session was skipped before observation: "@ + error.text()
}

/// The warning about a session that is not observed.
pub fn skip_warning(session: &str) -> (r: Option<String>)
    ensures
        match derivation(session@) {
            Ok(_) => r is None,
            Err(error) => r is Some && r->0@ == skip_text(error),
        },
{
    match derive_component(session) {
        Ok(_) => None,
        Err(error) => Some(
            concat("a session was skipped before observation: ", error.message().as_str()),
        ),
    }
}

/// What is said of a session that could not be observed: why, and not its name. Where
/// the command that names the session could not be run, how that was put is left out,
/// since it may repeat the command.
pub open spec fn failure_text(operation: OperationView, error: TmuxErrorView) -> Seq<char> {
    "the observation of a session failed: "@ + if operation is ListWindows && error is Command {
        "tmux could not be run"@
    } else {
        error.text()
    }
}

/// The warning about a session that could not be observed, since the operation ended in
/// an error.
pub fn failure_warning(operation: &TmuxOperation, error: &TmuxError) -> (r: String)
    ensures
        r@ == failure_text(operation@, error@),
{
    let unsaid = operation.names_session() && match error {
        TmuxError::Command(_) => true,
        _ => false,
    };
    if unsaid {
        concat("the observation of a session failed: ", "tmux could not be run")
    } else {
        concat("the observation of a session failed: ", error.message().as_str())
    }
}

/// The panes with what they show.
pub open spec fn filled_panes(panes: Seq<PaneView>, contents: Seq<Seq<char>>) -> Seq<PaneView> {
    Seq::new(panes.len(), |i: int| PaneView { content: contents[i], ..panes[i] })
}

/// A capture of a session, from its windows, the panes of the window that is shown,
/// and what each of them shows.
pub fn assemble_capture(
    session: &str,
    window: WindowInfo,
    windows: Vec<WindowInfo>,
    panes: Vec<PaneInfo>,
    contents: Vec<String>,
) -> (r: CaptureResult)
    requires
        panes@.len() == contents@.len(),
    ensures
        r.session@ == session@,
        r.window == window,
        r.windows == windows,
        pane_views(r.panes@) == filled_panes(pane_views(panes@), texts(contents@)),
{
    let ghost expected = filled_panes(pane_views(panes@), texts(contents@));
    let mut filled: Vec<PaneInfo> = Vec::new();
    let mut i: usize = 0;
    while i < panes.len()
        invariant
            i <= panes@.len(),
            panes@.len() == contents@.len(),
            expected == filled_panes(pane_views(panes@), texts(contents@)),
            pane_views(filled@) =~= expected.take(i as int),
        decreases panes@.len() - i,
    {
        let pane = PaneInfo {
            id: panes[i].id.clone(),
            index: panes[i].index,
            left: panes[i].left,
            top: panes[i].top,
            width: panes[i].width,
            height: panes[i].height,
            active: panes[i].active,
            content: contents[i].clone(),
        };
        let ghost before = pane_views(filled@);
        filled.push(pane);
        proof {
            assert(pane_views(filled@) =~= before.push(pane@));
            assert(texts(contents@)[i as int] == contents@[i as int]@);
            assert(pane_views(panes@)[i as int] == panes@[i as int]@);
            assert(expected.take(i + 1) =~= expected.take(i as int).push(expected[i as int]));
        }
        i = i + 1;
    }
    proof {
        assert(expected.take(panes@.len() as int) =~= expected);
    }
    CaptureResult { session: copy(session), window, windows, panes: filled }
}

// ---------------------------------------------------------------------------
// What is read back of what tmux writes
// ---------------------------------------------------------------------------

/// A flag as tmux writes it.
pub open spec fn flag_text(on: bool) -> Seq<char> {
    if on {
        seq!['1']
    } else {
        seq!['0']
    }
}

proof fn lemma_flag_is_read_back(on: bool)
    ensures
        flag(flag_text(on)) == Some(on),
        !has_char(flag_text(on), ' '),
        is_row(flag_text(on)),
{
    reveal_strlit("0");
    reveal_strlit("1");
    assert("0"@ =~= seq!['0']);
    assert("1"@ =~= seq!['1']);
    assert("0"@[0] != "1"@[0]);
}

proof fn lemma_number_is_read_back(n: nat)
    requires
        n <= u32::MAX,
    ensures
        number(decimal(n)) == Some(n),
        !has_char(decimal(n), ' '),
        !has_char(decimal(n), '\n'),
{
    lemma_decimal_is_read_back(n, u32::MAX as nat);
    assert forall|i: int| 0 <= i < decimal(n).len() implies decimal(n)[i] != ' ' && decimal(n)[i]
        != '\n' by {
        assert(is_digit(decimal(n)[i]));
    }
}

/// A name that a field can hold: not empty, without spaces and newlines.
pub open spec fn is_field(s: Seq<char>) -> bool {
    s.len() > 0 && !has_char(s, ' ') && !has_char(s, '\n')
}

/// A pane as `list-panes` writes it, in the order of the format that it is asked with:
/// ID, index, left, top, width, height, active.
pub open spec fn pane_fields(pane: PaneView) -> Seq<Seq<char>> {
    seq![
        pane.id,
        decimal(pane.index),
        decimal(pane.left),
        decimal(pane.top),
        decimal(pane.width),
        decimal(pane.height),
        flag_text(pane.active),
    ]
}

/// A pane that tmux can have, of which nothing is shown yet.
pub open spec fn is_plain_pane(pane: PaneView) -> bool {
    &&& is_field(pane.id)
    &&& pane.index <= u32::MAX && pane.left <= u32::MAX && pane.top <= u32::MAX
    &&& 0 < pane.width <= u32::MAX && 0 < pane.height <= u32::MAX
    &&& pane.content.len() == 0
}

/// A pane that is written out in the order of the format is read back as that pane.
pub proof fn lemma_pane_is_read_back(pane: PaneView)
    requires
        is_plain_pane(pane),
    ensures
        pane_row(join(pane_fields(pane), seq![' '])) == Ok::<PaneView, Seq<char>>(pane),
        is_row(join(pane_fields(pane), seq![' '])),
{
    let fields = pane_fields(pane);
    lemma_flag_is_read_back(pane.active);
    lemma_number_is_read_back(pane.index);
    lemma_number_is_read_back(pane.left);
    lemma_number_is_read_back(pane.top);
    lemma_number_is_read_back(pane.width);
    lemma_number_is_read_back(pane.height);
    assert forall|i: int| 0 <= i < fields.len() implies !has_char(#[trigger] fields[i], ' ') by {}
    lemma_pieces_are_read_back(fields, ' ');
    assert forall|i: int| 0 <= i < fields.len() implies !has_char(
        #[trigger] fields[i],
        '\n',
    ) by {}
    lemma_joined_is_row(fields);
    assert(pane.content =~= Seq::<char>::empty());
}

proof fn lemma_joined_has_no_newline(fields: Seq<Seq<char>>)
    requires
        forall|i: int| 0 <= i < fields.len() ==> !has_char(#[trigger] fields[i], '\n'),
    ensures
        !has_char(join(fields, seq![' ']), '\n'),
    decreases fields.len(),
{
    let whole = join(fields, seq![' ']);
    if fields.len() == 1 {
        assert(!has_char(fields[0], '\n'));
    } else if fields.len() > 1 {
        let before = fields.drop_last();
        assert forall|i: int| 0 <= i < before.len() implies !has_char(
            #[trigger] before[i],
            '\n',
        ) by {
            assert(before[i] == fields[i]);
        }
        lemma_joined_has_no_newline(before);
        let front = join(before, seq![' ']);
        let last = fields.last();
        assert(last == fields[fields.len() - 1]);
        assert forall|i: int| 0 <= i < whole.len() implies whole[i] != '\n' by {
            if i < front.len() {
                assert(whole[i] == front[i]);
            } else if i > front.len() {
                assert(whole[i] == last[i - front.len() - 1]);
            }
        }
    }
}

proof fn lemma_joined_is_row(fields: Seq<Seq<char>>)
    requires
        fields.len() > 1,
        forall|i: int| 0 <= i < fields.len() ==> !has_char(#[trigger] fields[i], '\n'),
        fields.last().len() > 0,
        fields.last().last() != '\r',
    ensures
        is_row(join(fields, seq![' '])),
{
    lemma_joined_has_no_newline(fields);
    let whole = join(fields, seq![' ']);
    assert(whole.last() == fields.last().last());
}

/// Panes as `list-panes` writes them, one to a line.
pub open spec fn panes_text(panes: Seq<PaneView>) -> Seq<char> {
    rows_text(panes.map_values(|pane: PaneView| join(pane_fields(pane), seq![' '])))
}

/// Exactly the pane of that number is active.
pub open spec fn only_active_pane(panes: Seq<PaneView>, k: int) -> bool {
    0 <= k < panes.len() && forall|i: int|
        0 <= i < panes.len() ==> (#[trigger] panes[i]).active == (i == k)
}

proof fn lemma_count_of_active_panes(panes: Seq<PaneView>, k: int)
    requires
        forall|i: int| 0 <= i < panes.len() ==> (#[trigger] panes[i]).active == (i == k),
    ensures
        active_panes(panes) == if 0 <= k < panes.len() {
            1nat
        } else {
            0nat
        },
    decreases panes.len(),
{
    if panes.len() > 0 {
        let before = panes.drop_last();
        assert forall|i: int| 0 <= i < before.len() implies (#[trigger] before[i]).active == (i
            == k) by {
            assert(before[i] == panes[i]);
        }
        lemma_count_of_active_panes(before, k);
        assert(panes.last() == panes[panes.len() - 1]);
    }
}

proof fn lemma_pane_rows_are_read_back(panes: Seq<PaneView>)
    requires
        forall|i: int| 0 <= i < panes.len() ==> is_plain_pane(#[trigger] panes[i]),
        panes_differ(panes),
    ensures
        pane_rows(panes.map_values(|pane: PaneView| join(pane_fields(pane), seq![' ']))) == Ok::<
            Seq<PaneView>,
            Seq<char>,
        >(panes),
    decreases panes.len(),
{
    let rows = panes.map_values(|pane: PaneView| join(pane_fields(pane), seq![' ']));
    if panes.len() == 0 {
        assert(panes =~= Seq::<PaneView>::empty());
    } else {
        let before = panes.drop_last();
        assert forall|i: int| 0 <= i < before.len() implies is_plain_pane(#[trigger] before[i]) by {
            assert(before[i] == panes[i]);
        }
        assert forall|i: int, j: int| 0 <= i < j < before.len() implies (#[trigger] before[i]).id
            != (#[trigger] before[j]).id && before[i].index != before[j].index by {
            assert(before[i] == panes[i] && before[j] == panes[j]);
        }
        lemma_pane_rows_are_read_back(before);
        assert(rows.drop_last() =~= before.map_values(
            |pane: PaneView| join(pane_fields(pane), seq![' ']),
        ));
        let last = panes[panes.len() - 1];
        lemma_pane_is_read_back(last);
        assert(!has_pane(before, last.id, last.index)) by {
            if has_pane(before, last.id, last.index) {
                let i = choose|i: int|
                    0 <= i < before.len() && ((#[trigger] before[i]).id == last.id
                        || before[i].index == last.index);
                assert(panes[i] == before[i]);
                assert(panes[i].id != panes[panes.len() - 1].id);
            }
        }
        assert(before.push(last) =~= panes);
    }
}

/// Panes that can be told apart, of which exactly one is active, are listed as they are:
/// all of them, in order, each with its place and size.
pub proof fn lemma_panes_are_read_back(panes: Seq<PaneView>, k: int)
    requires
        forall|i: int| 0 <= i < panes.len() ==> is_plain_pane(#[trigger] panes[i]),
        forall|i: int, j: int|
            0 <= i < j < panes.len() ==> (#[trigger] panes[i]).id != (#[trigger] panes[j]).id
                && panes[i].index != panes[j].index,
        only_active_pane(panes, k),
    ensures
        pane_listing(panes_text(panes)) == Ok::<Seq<PaneView>, Seq<char>>(panes),
{
    let rows = panes.map_values(|pane: PaneView| join(pane_fields(pane), seq![' ']));
    assert forall|i: int| 0 <= i < rows.len() implies is_row(#[trigger] rows[i]) by {
        lemma_pane_is_read_back(panes[i]);
    }
    lemma_rows_are_read_back(rows);
    lemma_pane_rows_are_read_back(panes);
    lemma_count_of_active_panes(panes, k);
    assert(rows_text(rows).len() > 0) by {
        assert(rows_text(rows).last() == '\n');
    }
}

/// Every pane that is listed has a name, and a width and a height above zero.
pub proof fn lemma_listed_panes_have_size(rows: Seq<Seq<char>>, i: int)
    requires
        pane_rows(rows) is Ok,
        0 <= i < pane_rows(rows)->Ok_0.len(),
    ensures
        pane_rows(rows)->Ok_0.len() == rows.len(),
        pane_rows(rows)->Ok_0[i].id.len() > 0,
        pane_rows(rows)->Ok_0[i].width > 0,
        pane_rows(rows)->Ok_0[i].height > 0,
        pane_rows(rows)->Ok_0[i].content.len() == 0,
    decreases rows.len(),
{
    if rows.len() > 0 {
        let before = pane_rows(rows.drop_last())->Ok_0;
        if before.len() > 0 {
            lemma_listed_panes_have_size(
                rows.drop_last(),
                if i < before.len() {
                    i
                } else {
                    0
                },
            );
        } else {
            lemma_empty_pane_rows(rows.drop_last());
        }
    }
}

proof fn lemma_empty_pane_rows(rows: Seq<Seq<char>>)
    requires
        pane_rows(rows) is Ok,
        pane_rows(rows)->Ok_0.len() == 0,
    ensures
        rows.len() == 0,
{
}

/// A window as `list-windows` writes it, in the order of the format that it is asked
/// with: active, ID, index, name.
pub open spec fn window_fields(window: WindowView) -> Seq<Seq<char>> {
    seq![flag_text(window.active), window.id, decimal(window.index), window.name]
}

/// A window that tmux can have. Its name may hold spaces.
pub open spec fn is_plain_window(window: WindowView) -> bool {
    &&& is_field(window.id)
    &&& window.index <= u32::MAX
    &&& window.name.len() > 0
    &&& is_row(window.name)
}

/// A window that is written out in the order of the format is read back as that window,
/// with the spaces of its name.
pub proof fn lemma_window_is_read_back(window: WindowView)
    requires
        is_plain_window(window),
    ensures
        window_row(join(window_fields(window), seq![' '])) == Ok::<WindowView, Seq<char>>(window),
        is_row(join(window_fields(window), seq![' '])),
{
    let fields = window_fields(window);
    lemma_flag_is_read_back(window.active);
    lemma_number_is_read_back(window.index);
    assert forall|i: int| 0 <= i < fields.len() - 1 implies !has_char(
        #[trigger] fields[i],
        ' ',
    ) by {}
    lemma_split_reads_pieces_back(fields, ' ', 4);
    assert forall|i: int| 0 <= i < fields.len() implies !has_char(
        #[trigger] fields[i],
        '\n',
    ) by {}
    lemma_joined_is_row(fields);
}

/// Windows as `list-windows` writes them, one to a line.
pub open spec fn windows_text(windows: Seq<WindowView>) -> Seq<char> {
    rows_text(windows.map_values(|window: WindowView| join(window_fields(window), seq![' '])))
}

/// Exactly the window of that number is active.
pub open spec fn only_active_window(windows: Seq<WindowView>, k: int) -> bool {
    0 <= k < windows.len() && forall|i: int|
        0 <= i < windows.len() ==> (#[trigger] windows[i]).active == (i == k)
}

proof fn lemma_count_of_active_windows(windows: Seq<WindowView>, k: int)
    requires
        forall|i: int| 0 <= i < windows.len() ==> (#[trigger] windows[i]).active == (i == k),
    ensures
        active_windows(windows) == if 0 <= k < windows.len() {
            1nat
        } else {
            0nat
        },
        first_active(windows) == if 0 <= k < windows.len() {
            Some(windows[k])
        } else {
            None
        },
    decreases windows.len(),
{
    if windows.len() > 0 {
        let before = windows.drop_last();
        assert forall|i: int| 0 <= i < before.len() implies (#[trigger] before[i]).active == (i
            == k) by {
            assert(before[i] == windows[i]);
        }
        lemma_count_of_active_windows(before, k);
        assert(windows.last() == windows[windows.len() - 1]);
        if 0 <= k < before.len() {
            assert(before[k] == windows[k]);
        }
    }
}

proof fn lemma_window_rows_are_read_back(windows: Seq<WindowView>)
    requires
        forall|i: int| 0 <= i < windows.len() ==> is_plain_window(#[trigger] windows[i]),
        windows_differ(windows),
    ensures
        window_rows(
            windows.map_values(|window: WindowView| join(window_fields(window), seq![' '])),
        ) == Ok::<Seq<WindowView>, Seq<char>>(windows),
    decreases windows.len(),
{
    let rows = windows.map_values(|window: WindowView| join(window_fields(window), seq![' ']));
    if windows.len() == 0 {
        assert(windows =~= Seq::<WindowView>::empty());
    } else {
        let before = windows.drop_last();
        assert forall|i: int| 0 <= i < before.len() implies is_plain_window(
            #[trigger] before[i],
        ) by {
            assert(before[i] == windows[i]);
        }
        assert forall|i: int, j: int| 0 <= i < j < before.len() implies (#[trigger] before[i]).id
            != (#[trigger] before[j]).id && before[i].index != before[j].index by {
            assert(before[i] == windows[i] && before[j] == windows[j]);
        }
        lemma_window_rows_are_read_back(before);
        assert(rows.drop_last() =~= before.map_values(
            |window: WindowView| join(window_fields(window), seq![' ']),
        ));
        let last = windows[windows.len() - 1];
        lemma_window_is_read_back(last);
        assert(!has_window(before, last.id, last.index)) by {
            if has_window(before, last.id, last.index) {
                let i = choose|i: int|
                    0 <= i < before.len() && ((#[trigger] before[i]).id == last.id
                        || before[i].index == last.index);
                assert(windows[i] == before[i]);
                assert(windows[i].id != windows[windows.len() - 1].id);
            }
        }
        assert(before.push(last) =~= windows);
    }
}

/// Windows that can be told apart, of which exactly one is active, are listed as they
/// are: all of them, in order; and the window that is shown is the active one.
pub proof fn lemma_windows_are_read_back(windows: Seq<WindowView>, k: int)
    requires
        forall|i: int| 0 <= i < windows.len() ==> is_plain_window(#[trigger] windows[i]),
        forall|i: int, j: int|
            0 <= i < j < windows.len() ==> (#[trigger] windows[i]).id != (
            #[trigger] windows[j]).id && windows[i].index != windows[j].index,
        only_active_window(windows, k),
    ensures
        window_listing(windows_text(windows)) == Ok::<Seq<WindowView>, Seq<char>>(windows),
        first_active(windows) == Some(windows[k]),
{
    let rows = windows.map_values(|window: WindowView| join(window_fields(window), seq![' ']));
    assert forall|i: int| 0 <= i < rows.len() implies is_row(#[trigger] rows[i]) by {
        lemma_window_is_read_back(windows[i]);
    }
    lemma_rows_are_read_back(rows);
    lemma_window_rows_are_read_back(windows);
    lemma_count_of_active_windows(windows, k);
    assert(rows_text(rows).len() > 0) by {
        assert(rows_text(rows).last() == '\n');
    }
}

/// A client as `list-clients` writes it: the session, which may hold spaces, a space and
/// the time of its last activity.
pub open spec fn client_text(client: ClientView) -> Seq<char> {
    client.session + seq![' '] + signed_decimal(client.activity)
}

proof fn lemma_last_space(a: Seq<char>, b: Seq<char>)
    requires
        !has_char(b, ' '),
    ensures
        last_index(a + seq![' '] + b, ' ') == a.len(),
    decreases b.len(),
{
    let whole = a + seq![' '] + b;
    if b.len() == 0 {
        assert(whole.last() == ' ');
    } else {
        assert(whole.drop_last() =~= a + seq![' '] + b.drop_last());
        assert(whole.last() == b[b.len() - 1]);
        assert forall|i: int| 0 <= i < b.drop_last().len() implies b.drop_last()[i] != ' ' by {
            assert(b[i] == b.drop_last()[i]);
        }
        lemma_last_space(a, b.drop_last());
    }
}

/// A client that is written out in the order of the format is read back as that client.
pub proof fn lemma_client_is_read_back(client: ClientView)
    requires
        client.session.len() > 0,
        i64::MIN <= client.activity <= i64::MAX,
    ensures
        client_row(client_text(client)) == RowReading::Client(client.session, client.activity),
{
    let activity = signed_decimal(client.activity);
    lemma_signed_decimal_is_read_back(client.activity);
    lemma_last_space(client.session, activity);
    let row = client_text(client);
    assert(row.take(client.session.len() as int) =~= client.session);
    assert(row.skip(client.session.len() as int + 1) =~= activity);
}

/// Clients of different sessions are listed as they are, in order, and nothing is
/// complained of.
pub proof fn lemma_clients_are_read_back(clients: Seq<ClientView>)
    requires
        forall|i: int|
            0 <= i < clients.len() ==> (#[trigger] clients[i]).session.len() > 0 && i64::MIN
                <= clients[i].activity <= i64::MAX,
        forall|i: int, j: int|
            0 <= i < j < clients.len() ==> (#[trigger] clients[i]).session != (
            #[trigger] clients[j]).session,
    ensures
        client_listing(clients.map_values(|c: ClientView| client_text(c))) == (ClientListing {
            clients,
            warnings: Seq::empty(),
        }),
    decreases clients.len(),
{
    let rows = clients.map_values(|c: ClientView| client_text(c));
    if clients.len() == 0 {
        assert(clients =~= Seq::<ClientView>::empty());
    } else {
        let before = clients.drop_last();
        assert forall|i: int| 0 <= i < before.len() implies (#[trigger] before[i]).session.len()
            > 0 && i64::MIN <= before[i].activity <= i64::MAX by {
            assert(before[i] == clients[i]);
        }
        assert forall|i: int, j: int| 0 <= i < j < before.len() implies (
        #[trigger] before[i]).session != (#[trigger] before[j]).session by {
            assert(before[i] == clients[i] && before[j] == clients[j]);
        }
        lemma_clients_are_read_back(before);
        assert(rows.drop_last() =~= before.map_values(|c: ClientView| client_text(c)));
        let last = clients[clients.len() - 1];
        lemma_client_is_read_back(last);
        assert(known_activity(before, last.session) is None) by {
            lemma_known_activity_is_listed(before, last.session);
            if known_activity(before, last.session) is Some {
                let i = choose|i: int|
                    0 <= i < before.len() && (#[trigger] before[i]).session == last.session;
                assert(clients[i] == before[i]);
            }
        }
        assert(before.push(last) =~= clients);
    }
}

proof fn lemma_known_activity_is_listed(clients: Seq<ClientView>, session: Seq<char>)
    ensures
        known_activity(clients, session) is Some ==> exists|i: int|
            0 <= i < clients.len() && (#[trigger] clients[i]).session == session,
    decreases clients.len(),
{
    if clients.len() > 0 {
        let before = clients.drop_last();
        lemma_known_activity_is_listed(before, session);
        if clients.last().session == session {
            assert(clients[clients.len() - 1].session == session);
        } else if known_activity(before, session) is Some {
            let i = choose|i: int| 0 <= i < before.len() && (#[trigger] before[i]).session == session;
            assert(clients[i] == before[i]);
        }
    }
}

/// The active clients are those, in order, whose last activity is at most that many
/// seconds ago; one that lies ahead of the clock counts.
pub proof fn lemma_active_clients_are_picked(clients: Seq<ClientView>, now: int, maximum_age: int)
    ensures
        active_clients(clients, now, maximum_age) == clients.filter(
            |c: ClientView| now <= c.activity + maximum_age,
        ),
    decreases clients.len(),
{
    reveal(Seq::filter);
    let recent = |c: ClientView| now <= c.activity + maximum_age;
    if clients.len() > 0 {
        lemma_active_clients_are_picked(clients.drop_last(), now, maximum_age);
    } else {
        assert(clients.filter(recent) =~= Seq::<ClientView>::empty());
    }
}

/// tmux is asked for the fields in the order in which its rows are read, of the session
/// or window that is meant.
pub proof fn lemma_fields_are_asked_for_in_order(session: String, window: String)
    ensures
        arguments(TmuxOperation::ListClients) == seq![
            "list-clients"@,
            "-F"@,
            join(seq!["#{client_session}"@, "#{client_activity}"@], seq![' ']),
        ],
        arguments(TmuxOperation::ListWindows(session)) == seq![
            "list-windows"@,
            "-t"@,
            session@,
            "-F"@,
            join(
                seq!["#{window_active}"@, "#{window_id}"@, "#{window_index}"@, "#{window_name}"@],
                seq![' '],
            ),
        ],
        arguments(TmuxOperation::ListPanes(window)) == seq![
            "list-panes"@,
            "-t"@,
            window@,
            "-F"@,
            join(
                seq![
                    "#{pane_id}"@,
                    "#{pane_index}"@,
                    "#{pane_left}"@,
                    "#{pane_top}"@,
                    "#{pane_width}"@,
                    "#{pane_height}"@,
                    "#{pane_active}"@,
                ],
                seq![' '],
            ),
        ],
        forall|pane: String| #[trigger] arguments(TmuxOperation::CapturePane(pane)) == seq![
            "capture-pane"@,
            "-p"@,
            "-e"@,
            "-t"@,
            pane@,
        ],
        forall|name: String| #[trigger] arguments(TmuxOperation::ShowOption(name)) == seq![
            "show-options"@,
            "-gv"@,
            name@,
        ],
        forall|name: String| #[trigger] arguments(TmuxOperation::SetOption(name)) == seq![
            "set-option"@,
            "-g"@,
            name@,
        ],
        forall|name: String| #[trigger] arguments(TmuxOperation::UnsetOption(name)) == seq![
            "set-option"@,
            "-gu"@,
            name@,
        ],
{
    reveal_with_fuel(join, 8);
    let sep = seq![' '];
    reveal_strlit("#{client_session} #{client_activity}");
    reveal_strlit("#{client_session}");
    reveal_strlit("#{client_activity}");
    let c = seq!["#{client_session}"@, "#{client_activity}"@];
    assert(c.drop_last() =~= seq!["#{client_session}"@]);
    assert(join(c, sep) =~= "#{client_session} #{client_activity}"@);
    reveal_strlit("#{window_active} #{window_id} #{window_index} #{window_name}");
    reveal_strlit("#{window_active}");
    reveal_strlit("#{window_id}");
    reveal_strlit("#{window_index}");
    reveal_strlit("#{window_name}");
    let w = seq!["#{window_active}"@, "#{window_id}"@, "#{window_index}"@, "#{window_name}"@];
    lemma_join_of_four(w[0], w[1], w[2], w[3]);
    assert(w =~= seq![w[0], w[1], w[2], w[3]]);
    assert(join(w, sep) =~= "#{window_active} #{window_id} #{window_index} #{window_name}"@);
    reveal_strlit(
        "#{pane_id} #{pane_index} #{pane_left} #{pane_top} #{pane_width} #{pane_height} #{pane_active}",
    );
    reveal_strlit("#{pane_id}");
    reveal_strlit("#{pane_index}");
    reveal_strlit("#{pane_left}");
    reveal_strlit("#{pane_top}");
    reveal_strlit("#{pane_width}");
    reveal_strlit("#{pane_height}");
    reveal_strlit("#{pane_active}");
    let front = seq!["#{pane_id}"@, "#{pane_index}"@, "#{pane_left}"@, "#{pane_top}"@];
    lemma_join_of_four(front[0], front[1], front[2], front[3]);
    assert(front =~= seq![front[0], front[1], front[2], front[3]]);
    let five = front.push("#{pane_width}"@);
    let six = five.push("#{pane_height}"@);
    let p = six.push("#{pane_active}"@);
    assert(five.drop_last() =~= front);
    assert(six.drop_last() =~= five);
    assert(p.drop_last() =~= six);
    assert(p =~= seq![
        "#{pane_id}"@,
        "#{pane_index}"@,
        "#{pane_left}"@,
        "#{pane_top}"@,
        "#{pane_width}"@,
        "#{pane_height}"@,
        "#{pane_active}"@,
    ]);
    assert(join(p, sep)
        =~= "#{pane_id} #{pane_index} #{pane_left} #{pane_top} #{pane_width} #{pane_height} #{pane_active}"@);
}

proof fn lemma_join_of_four(a: Seq<char>, b: Seq<char>, c: Seq<char>, d: Seq<char>)
    ensures
        join(seq![a, b, c, d], seq![' ']) == a + seq![' '] + b + seq![' '] + c + seq![' '] + d,
{
    let sep = seq![' '];
    assert(seq![a, b, c, d].drop_last() =~= seq![a, b, c]);
    assert(seq![a, b, c].drop_last() =~= seq![a, b]);
    assert(seq![a, b].drop_last() =~= seq![a]);
    assert(join(seq![a], sep) == a);
    assert(join(seq![a, b], sep) == a + sep + b);
    assert(join(seq![a, b, c], sep) == a + sep + b + sep + c);
    assert(join(seq![a, b, c, d], sep) == a + sep + b + sep + c + sep + d);
}

/// Every row of the clients counts: a new session is listed last, one that is listed
/// already stays as it is, with a warning only where the activity is another, and a row
/// that cannot be read is told of and changes nothing else.
pub proof fn lemma_every_client_row_counts(rows: Seq<Seq<char>>, client: ClientView, k: int, row: Seq<char>)
    requires
        client.session.len() > 0,
        i64::MIN <= client.activity <= i64::MAX,
        client_row(row) is Dropped,
    ensures
        ({
            let before = client_listing(rows);
            let after = client_listing(rows.push(client_text(client)));
            let dropped = client_listing(rows.push(row));
            &&& (forall|i: int|
                0 <= i < before.clients.len() ==> (#[trigger] before.clients[i]).session
                    != client.session) ==> after.clients == before.clients.push(client)
                && after.warnings == before.warnings
            &&& 0 <= k < before.clients.len() && before.clients[k].session == client.session ==> {
                &&& after.clients == before.clients
                &&& before.clients[k].activity == client.activity ==> after.warnings
                    == before.warnings
                &&& before.clients[k].activity != client.activity ==> after.warnings.len()
                    == before.warnings.len() + 1
            }
            &&& dropped.clients == before.clients
            &&& dropped.warnings.len() == before.warnings.len() + 1
        }),
{
    let before = client_listing(rows);
    lemma_client_is_read_back(client);
    assert(rows.push(client_text(client)).drop_last() =~= rows);
    assert(rows.push(row).drop_last() =~= rows);
    lemma_known_activity(before.clients, client.session);
    lemma_clients_are_listed_once(rows);
    if known_activity(before.clients, client.session) is Some {
        lemma_known_activity_is_of_the_session(before.clients, client.session);
    }
}

proof fn lemma_known_activity_is_of_the_session(clients: Seq<ClientView>, session: Seq<char>)
    requires
        known_activity(clients, session) is Some,
    ensures
        exists|i: int|
            0 <= i < clients.len() && (#[trigger] clients[i]).session == session
                && clients[i].activity == known_activity(clients, session)->0,
    decreases clients.len(),
{
    if clients.last().session == session {
        assert(clients[clients.len() - 1] == clients.last());
    } else {
        let before = clients.drop_last();
        lemma_known_activity_is_of_the_session(before, session);
        let i = choose|i: int|
            0 <= i < before.len() && (#[trigger] before[i]).session == session
                && before[i].activity == known_activity(before, session)->0;
        assert(clients[i] == before[i]);
    }
}

/// Which rows of the clients cannot be read: an empty one, one without a space, one that
/// begins with its only space, and one whose activity is no number.
pub proof fn lemma_which_client_rows_are_dropped(session: Seq<char>, word: Seq<char>)
    requires
        !has_char(word, ' '),
    ensures
        client_row(Seq::<char>::empty()) == RowReading::Dropped("empty row"@),
        word.len() > 0 ==> client_row(word) == RowReading::Dropped("missing activity separator"@),
        client_row(seq![' '] + word) == RowReading::Dropped("empty session identity"@),
        signed_value(word) is None && session.len() > 0 ==> client_row(
            session + seq![' '] + word,
        ) == RowReading::Dropped("activity is not an integer"@),
        signed_value(word) is Some && session.len() > 0 ==> client_row(
            session + seq![' '] + word,
        ) == RowReading::Client(session, signed_value(word)->0),
{
    lemma_no_last_space(word);
    let none = Seq::<char>::empty();
    lemma_last_space(none, word);
    assert(none + seq![' '] + word =~= seq![' '] + word);
    lemma_last_space(session, word);
    let row = session + seq![' '] + word;
    let k = session.len() as int;
    assert(row.skip(k + 1) =~= word);
    assert(row.take(k) =~= session);
}

proof fn lemma_no_last_space(word: Seq<char>)
    requires
        !has_char(word, ' '),
    ensures
        last_index(word, ' ') == -1,
    decreases word.len(),
{
    if word.len() > 0 {
        let before = word.drop_last();
        assert(word[word.len() - 1] != ' ');
        assert(!has_char(before, ' ')) by {
            assert forall|i: int| 0 <= i < before.len() implies #[trigger] before[i] != ' ' by {
                assert(before[i] == word[i]);
            }
        }
        lemma_no_last_space(before);
    }
}

/// What a command wrote is taken exactly where it ended with zero and wrote text; a failure
/// is told with its status and what it said.
pub proof fn lemma_output_of_a_command(operation: OperationView, output: OutputView, text: Seq<char>)
    ensures
        output.status == 0 && output.stdout == encode_utf8(text) ==> output_text(operation, output)
            == Ok::<Seq<char>, TmuxErrorView>(text),
        output.status != 0 ==> output_text(operation, output) == Err::<Seq<char>, TmuxErrorView>(
            TmuxErrorView::Nonzero {
                operation,
                status: output.status,
                stderr: lossy_decoding(output.stderr),
            },
        ),
        output.status == 0 && !valid_utf8(output.stdout) ==> output_text(operation, output) is Err
            && output_text(operation, output)->Err_0 is InvalidUtf8,
{
    encode_utf8_valid_utf8(text);
    encode_utf8_decode_utf8(text);
}

/// A row is read as a window only where it has all four fields: a flag, an ID and a name
/// that are not empty, and a number. What is read is what stands in them.
pub proof fn lemma_which_rows_are_windows(row: Seq<char>)
    ensures
        ({
            let fields = split_limited(row, ' ', 4);
            let whole = fields.len() == 4 && (fields[0] == "0"@ || fields[0] == "1"@)
                && fields[1].len() > 0 && unsigned_value(fields[2], u32::MAX as nat) is Some
                && fields[3].len() > 0;
            &&& window_row(row) is Ok <==> whole
            &&& whole ==> {
                let window = window_row(row)->Ok_0;
                &&& window.id == fields[1]
                &&& Some(window.index) == unsigned_value(fields[2], u32::MAX as nat)
                &&& window.name == fields[3]
                &&& window.active <==> fields[0] == "1"@
            }
        }),
{
    reveal_strlit("0");
    reveal_strlit("1");
    assert("0"@[0] != "1"@[0]);
}

/// A row is read as a pane only where it has all seven fields: an ID that is not empty, five
/// numbers, of which the width and the height are above zero, and a flag.
pub proof fn lemma_which_rows_are_panes(row: Seq<char>)
    ensures
        ({
            let fields = split_on(row, ' ');
            let max = u32::MAX as nat;
            let whole = fields.len() == 7 && fields[0].len() > 0 && unsigned_value(fields[1], max)
                is Some && unsigned_value(fields[2], max) is Some && unsigned_value(fields[3], max)
                is Some && unsigned_value(fields[4], max) is Some && unsigned_value(fields[5], max)
                is Some && unsigned_value(fields[4], max)->0 > 0 && unsigned_value(
                fields[5],
                max,
            )->0 > 0 && (fields[6] == "0"@ || fields[6] == "1"@);
            &&& pane_row(row) is Ok <==> whole
            &&& whole ==> {
                let pane = pane_row(row)->Ok_0;
                &&& pane.id == fields[0]
                &&& Some(pane.index) == unsigned_value(fields[1], max)
                &&& Some(pane.left) == unsigned_value(fields[2], max)
                &&& Some(pane.top) == unsigned_value(fields[3], max)
                &&& Some(pane.width) == unsigned_value(fields[4], max)
                &&& Some(pane.height) == unsigned_value(fields[5], max)
                &&& pane.active <==> fields[6] == "1"@
            }
        }),
{
    reveal_strlit("0");
    reveal_strlit("1");
    assert("0"@[0] != "1"@[0]);
}

} // verus!
