//! Commands of other programs, and what came of them.

use vstd::prelude::*;
use vstd::string::*;

use crate::text::{concat3, copy, debug_quoting, quoted};

verus! {

#[derive(Debug, PartialEq, Eq)]
pub enum TmuxOperation {
    ListClients,
    ListWindows(String),
    ListPanes(String),
    CapturePane(String),
    ShowOption(String),
    SetOption(String),
    UnsetOption(String),
}

impl Clone for TmuxOperation {
    fn clone(&self) -> (r: Self)
        ensures
            r == *self,
    {
        match self {
            TmuxOperation::ListClients => TmuxOperation::ListClients,
            TmuxOperation::ListWindows(name) => TmuxOperation::ListWindows(name.clone()),
            TmuxOperation::ListPanes(name) => TmuxOperation::ListPanes(name.clone()),
            TmuxOperation::CapturePane(name) => TmuxOperation::CapturePane(name.clone()),
            TmuxOperation::ShowOption(name) => TmuxOperation::ShowOption(name.clone()),
            TmuxOperation::SetOption(name) => TmuxOperation::SetOption(name.clone()),
            TmuxOperation::UnsetOption(name) => TmuxOperation::UnsetOption(name.clone()),
        }
    }
}

pub ghost enum OperationView {
    ListClients,
    ListWindows(Seq<char>),
    ListPanes(Seq<char>),
    CapturePane(Seq<char>),
    ShowOption(Seq<char>),
    SetOption(Seq<char>),
    UnsetOption(Seq<char>),
}

impl View for TmuxOperation {
    type V = OperationView;

    open spec fn view(&self) -> OperationView {
        match *self {
            TmuxOperation::ListClients => OperationView::ListClients,
            TmuxOperation::ListWindows(name) => OperationView::ListWindows(name@),
            TmuxOperation::ListPanes(name) => OperationView::ListPanes(name@),
            TmuxOperation::CapturePane(name) => OperationView::CapturePane(name@),
            TmuxOperation::ShowOption(name) => OperationView::ShowOption(name@),
            TmuxOperation::SetOption(name) => OperationView::SetOption(name@),
            TmuxOperation::UnsetOption(name) => OperationView::UnsetOption(name@),
        }
    }
}

/// An operation on something, as it is shown.
pub open spec fn operation_on(what: Seq<char>, target: Seq<char>) -> Seq<char> {
    what + "("@ + debug_quoting(target) + ")"@
}

fn show_operation_on(what: &str, target: &String) -> (r: String)
    ensures
        r@ == operation_on(what@, target@),
{
    let mut out = concat3(what, "(", quoted(target.as_str()).as_str());
    out.append(")");
    out
}

impl OperationView {
    /// The operation as diagnostics name it, with its target unless that is a session's
    /// name.
    pub open spec fn text(self) -> Seq<char> {
        match self {
            OperationView::ListClients => "ListClients"@,
            OperationView::ListWindows(_) => "ListWindows"@,
            OperationView::ListPanes(window) => operation_on("ListPanes"@, window),
            OperationView::CapturePane(pane) => operation_on("CapturePane"@, pane),
            OperationView::ShowOption(name) => operation_on("ShowOption"@, name),
            OperationView::SetOption(name) => operation_on("SetOption"@, name),
            OperationView::UnsetOption(name) => operation_on("UnsetOption"@, name),
        }
    }
}

impl TmuxOperation {
    /// The operation as diagnostics name it.
    pub fn label(&self) -> (r: String)
        ensures
            r@ == self@.text(),
    {
        match self {
            TmuxOperation::ListClients => copy("ListClients"),
            TmuxOperation::ListWindows(_) => copy("ListWindows"),
            TmuxOperation::ListPanes(window) => show_operation_on("ListPanes", window),
            TmuxOperation::CapturePane(pane) => show_operation_on("CapturePane", pane),
            TmuxOperation::ShowOption(name) => show_operation_on("ShowOption", name),
            TmuxOperation::SetOption(name) => show_operation_on("SetOption", name),
            TmuxOperation::UnsetOption(name) => show_operation_on("UnsetOption", name),
        }
    }

    /// Whether the operation names a session, so that what is said of it may repeat the
    /// name. The other targets are IDs and names of options.
    pub fn names_session(&self) -> (r: bool)
        ensures
            r == (self@ is ListWindows),
    {
        match self {
            TmuxOperation::ListWindows(_) => true,
            _ => false,
        }
    }
}

/// What a command that ran came to.
#[derive(Debug)]
pub struct CommandOutput {
    pub status: i32,
    pub stdout: Vec<u8>,
    pub stderr: Vec<u8>,
}

pub ghost struct OutputView {
    pub status: i32,
    pub stdout: Seq<u8>,
    pub stderr: Seq<u8>,
}

impl View for CommandOutput {
    type V = OutputView;

    open spec fn view(&self) -> OutputView {
        OutputView { status: self.status, stdout: self.stdout@, stderr: self.stderr@ }
    }
}

/// Only the listing of windows has a session's name as its target, and a diagnostic that
/// names this operation is the same for every session.
pub proof fn lemma_only_windows_are_listed_by_session(operation: TmuxOperation, a: Seq<char>, b: Seq<char>, r: bool)
    requires
        call_ensures(TmuxOperation::names_session, (&operation,), r),
    ensures
        r <==> operation is ListWindows,
        OperationView::ListWindows(a).text() == OperationView::ListWindows(b).text(),
{
}

} // verus!
