//! The indicator in tmux's status line: what is put there, and how it is taken away
//! again without touching what others wrote.

use vstd::prelude::*;
use vstd::string::*;
use vstd::utf8::*;

use crate::command::CommandOutput;
use crate::paths::SLASH;
use crate::sync::schedule::SyncActivity;
use crate::text::{
    chars_of, concat, concat3, copy, decode_text, join, joined, same_text, signed_decimal,
    signed_text, substring, texts, utf8_complaint,
};
use crate::tmux::is_absolute;

verus! {

pub const STATUS_LEFT: &'static str = "status-left";

pub const SOLSTONE_OPTION: &'static str = "@solstone";

pub const OBSERVING_VALUE: &'static str = "observing";

pub const SYNCING_VALUE: &'static str = "syncing";

pub const INDICATOR_PREFIX: &'static str =
    "#{?@solstone,#{?#{==:#{@solstone},syncing},#[fg=yellow]☼#[default],#[fg=colour245]☼#[default]},}";

/// The value of an option of tmux.
#[derive(Debug, PartialEq, Eq)]
pub enum OptionValue {
    Absent,
    Present(String),
}

pub ghost enum ValueView {
    Absent,
    Present(Seq<char>),
}

impl View for OptionValue {
    type V = ValueView;

    open spec fn view(&self) -> ValueView {
        match *self {
            OptionValue::Absent => ValueView::Absent,
            OptionValue::Present(value) => ValueView::Present(value@),
        }
    }
}

impl Clone for OptionValue {
    fn clone(&self) -> (r: Self)
        ensures
            r == *self,
    {
        match self {
            OptionValue::Absent => OptionValue::Absent,
            OptionValue::Present(value) => OptionValue::Present(value.clone()),
        }
    }
}

impl OptionValue {
    /// Whether the option has that value.
    pub fn is_value(&self, value: &str) -> (r: bool)
        ensures
            r == (self@ == ValueView::Present(value@)),
    {
        match self {
            OptionValue::Absent => false,
            OptionValue::Present(current) => same_text(current.as_str(), value),
        }
    }
}

/// Why an option could not be read or written.
#[derive(Debug)]
pub enum IndicatorError {
    /// The command could not be run.
    Command(String),
    Nonzero { name: String, status: i32 },
    Protocol(String),
}

impl IndicatorError {
    pub open spec fn text(self) -> Seq<char> {
        match self {
            IndicatorError::Command(said) => said@,
            IndicatorError::Nonzero { name, status } => "tmux option command for "@ + name@
                + " exited "@ + signed_decimal(status as int),
            IndicatorError::Protocol(said) => said@,
        }
    }

    /// The error in words.
    pub fn message(&self) -> (r: String)
        ensures
            r@ == self.text(),
    {
        match self {
            IndicatorError::Command(said) => said.clone(),
            IndicatorError::Nonzero { name, status } => {
                let mut out = concat3("tmux option command for ", name.as_str(), " exited ");
                out.append(signed_text(*status).as_str());
                out
            },
            IndicatorError::Protocol(said) => said.clone(),
        }
    }
}

/// What went wrong when the indicator was taken away.
#[derive(Debug)]
pub struct IndicatorRestoreError(pub Vec<String>);

impl IndicatorRestoreError {
    /// The error in words.
    pub fn message(&self) -> (r: String)
        ensures
            r@ == "indicator restoration failed: "@ + join(texts(self.0@), "; "@),
    {
        concat("indicator restoration failed: ", joined(&self.0, "; ").as_str())
    }
}

/// Options of tmux by way of its commands.
#[derive(Debug)]
pub struct CommandIndicatorIo<R> {
    pub runner: R,
    pub tmux: Vec<u8>,
}

impl<R> CommandIndicatorIo<R> {
    pub fn new(runner: R, tmux: Vec<u8>) -> (r: Result<Self, IndicatorError>)
        ensures
            match r {
                Ok(io) => is_absolute(tmux@) && io == (CommandIndicatorIo { runner, tmux }),
                Err(error) => !is_absolute(tmux@) && (error matches IndicatorError::Protocol(said)
                    && said@ == "tmux executable must be absolute"@),
            },
    {
        if !(tmux.len() > 0 && tmux[0] == SLASH) {
            return Err(IndicatorError::Protocol(copy("tmux executable must be absolute")));
        }
        Ok(CommandIndicatorIo { runner, tmux })
    }
}

/// `s` without one newline at its end.
pub open spec fn without_newline(s: Seq<char>) -> Seq<char> {
    if s.len() > 0 && s.last() == '\n' {
        s.drop_last()
    } else {
        s
    }
}

/// The value that a command read. A user option that is not set is absent; any other
/// failure is an error.
pub fn read_option(name: &str, output: &CommandOutput) -> (r: Result<OptionValue, IndicatorError>)
    ensures
        if output.status != 0 {
            if name@ == SOLSTONE_OPTION@ {
                r is Ok && r->Ok_0@ == ValueView::Absent
            } else {
                r is Err && (r->Err_0 matches IndicatorError::Nonzero { name: of, status } && of@
                    == name@ && status == output.status)
            }
        } else if valid_utf8(output.stdout@) {
            r is Ok && r->Ok_0@ == ValueView::Present(
                without_newline(decode_utf8(output.stdout@)),
            )
        } else {
            r is Err && (r->Err_0 matches IndicatorError::Protocol(said) && said@ == utf8_complaint(
                output.stdout@,
            ))
        },
{
    if output.status != 0 {
        if same_text(name, SOLSTONE_OPTION) {
            return Ok(OptionValue::Absent);
        }
        return Err(IndicatorError::Nonzero { name: copy(name), status: output.status });
    }
    let text = match decode_text(output.stdout.as_slice()) {
        Ok(text) => text,
        Err(said) => return Err(IndicatorError::Protocol(said)),
    };
    let chars = chars_of(text.as_str());
    let n: usize = chars.len();
    if n > 0 && chars[n - 1] == '\n' {
        proof {
            assert(chars@.subrange(0, n - 1) =~= text@.drop_last());
        }
        Ok(OptionValue::Present(substring(&chars, 0, n - 1)))
    } else {
        Ok(OptionValue::Present(text))
    }
}

/// Whether a command that writes or clears an option worked.
pub fn check_option_command(name: &str, status: i32) -> (r: Result<(), IndicatorError>)
    ensures
        match r {
            Ok(_) => status == 0,
            Err(error) => status != 0 && (error matches IndicatorError::Nonzero {
                name: of,
                status: with,
            } && of@ == name@ && with == status),
        },
{
    if status == 0 {
        Ok(())
    } else {
        Err(IndicatorError::Nonzero { name: copy(name), status })
    }
}

/// The status line with the indicator in front.
pub open spec fn marked_status(original: ValueView) -> Seq<char> {
    match original {
        ValueView::Absent => INDICATOR_PREFIX@,
        ValueView::Present(value) => INDICATOR_PREFIX@ + value,
    }
}

pub fn default_status_left(original: &OptionValue) -> (r: String)
    ensures
        r@ == marked_status(original@),
{
    match original {
        OptionValue::Absent => copy(INDICATOR_PREFIX),
        OptionValue::Present(value) => concat(INDICATOR_PREFIX, value.as_str()),
    }
}

/// The value that stands for what the synchronisation does.
pub fn activity_value(activity: SyncActivity) -> (r: &'static str)
    ensures
        r@ == match activity {
            SyncActivity::Idle => OBSERVING_VALUE@,
            SyncActivity::Working => SYNCING_VALUE@,
        },
{
    match activity {
        SyncActivity::Idle => OBSERVING_VALUE,
        SyncActivity::Working => SYNCING_VALUE,
    }
}

/// How an option gets its old value back.
#[derive(Debug)]
pub enum RestoreAction {
    Clear,
    Write(String),
}

pub open spec fn restores(action: RestoreAction, original: ValueView) -> bool {
    match original {
        ValueView::Absent => action is Clear,
        ValueView::Present(value) => action matches RestoreAction::Write(text) && text@ == value,
    }
}

/// How an option gets its old value back.
pub fn restore_value(original: &OptionValue) -> (r: RestoreAction)
    ensures
        restores(r, original@),
{
    match original {
        OptionValue::Absent => RestoreAction::Clear,
        OptionValue::Present(value) => RestoreAction::Write(value.clone()),
    }
}

/// What an installation does next.
#[derive(Clone, Copy, Debug, PartialEq, Eq, Structural)]
pub enum InstallStep {
    ReadingStatusLeft,
    ReadingSolstone,
    WritingStatusLeft,
    WritingSolstone,
    /// Give the status line its old value back, since the second write failed.
    RollingBack,
    Done,
    Failed,
}

/// What came of it.
#[derive(Debug)]
pub enum InstallEvent {
    Read(OptionValue),
    Written,
    Failed(IndicatorError),
}

/// An installation under way. The values to write are those that were asked for, or
/// the default ones.
#[derive(Debug)]
pub struct IndicatorInstall {
    pub step: InstallStep,
    /// The values that were asked for.
    pub requested: Option<(String, String)>,
    pub original_status_left: OptionValue,
    pub original_solstone: OptionValue,
    pub error: Option<IndicatorError>,
}

/// Where an installation goes from a step with an event; an event that was not waited
/// for changes nothing.
pub open spec fn install_next(step: InstallStep, event: InstallEvent) -> InstallStep {
    match (step, event) {
        (InstallStep::ReadingStatusLeft, InstallEvent::Read(_)) => InstallStep::ReadingSolstone,
        (InstallStep::ReadingSolstone, InstallEvent::Read(_)) => InstallStep::WritingStatusLeft,
        (InstallStep::WritingStatusLeft, InstallEvent::Written) => InstallStep::WritingSolstone,
        (InstallStep::WritingSolstone, InstallEvent::Written) => InstallStep::Done,
        (InstallStep::WritingSolstone, InstallEvent::Failed(_)) => InstallStep::RollingBack,
        (InstallStep::RollingBack, InstallEvent::Written) => InstallStep::Failed,
        (InstallStep::RollingBack, InstallEvent::Failed(_)) => InstallStep::Failed,
        (InstallStep::ReadingStatusLeft, InstallEvent::Failed(_)) => InstallStep::Failed,
        (InstallStep::ReadingSolstone, InstallEvent::Failed(_)) => InstallStep::Failed,
        (InstallStep::WritingStatusLeft, InstallEvent::Failed(_)) => InstallStep::Failed,
        _ => step,
    }
}

/// The error that an event leaves behind.
pub open spec fn install_error(
    step: InstallStep,
    before: Option<IndicatorError>,
    event: InstallEvent,
    after: Option<IndicatorError>,
) -> bool {
    match (step, event) {
        (InstallStep::RollingBack, InstallEvent::Failed(second)) => match before {
            Some(first) => after matches Some(IndicatorError::Protocol(said)) && said@
                == first.text() + "; status-left rollback also failed: "@ + second.text(),
            None => after == Some(second),
        },
        (InstallStep::ReadingStatusLeft, InstallEvent::Failed(error)) => after == Some(error),
        (InstallStep::ReadingSolstone, InstallEvent::Failed(error)) => after == Some(error),
        (InstallStep::WritingStatusLeft, InstallEvent::Failed(error)) => after == Some(error),
        (InstallStep::WritingSolstone, InstallEvent::Failed(error)) => after == Some(error),
        _ => after == before,
    }
}

/// The values that an installation writes.
pub open spec fn values_to_write(install: IndicatorInstall) -> (Seq<char>, Seq<char>) {
    match install.requested {
        Some((status_left, solstone)) => (status_left@, solstone@),
        None => (marked_status(install.original_status_left@), OBSERVING_VALUE@),
    }
}

fn combine_errors(first: Option<IndicatorError>, second: IndicatorError) -> (r: IndicatorError)
    ensures
        match first {
            Some(first) => r matches IndicatorError::Protocol(said) && said@ == first.text()
                + "; status-left rollback also failed: "@ + second.text(),
            None => r == second,
        },
{
    match first {
        Some(first) => IndicatorError::Protocol(
            concat3(
                first.message().as_str(),
                "; status-left rollback also failed: ",
                second.message().as_str(),
            ),
        ),
        None => second,
    }
}

impl IndicatorInstall {
    /// An installation of the default values.
    pub fn install_default() -> (r: Self)
        ensures
            r.step == InstallStep::ReadingStatusLeft,
            r.requested is None,
            r.original_status_left is Absent,
            r.original_solstone is Absent,
            r.error is None,
    {
        IndicatorInstall {
            step: InstallStep::ReadingStatusLeft,
            requested: None,
            original_status_left: OptionValue::Absent,
            original_solstone: OptionValue::Absent,
            error: None,
        }
    }

    /// An installation of these values.
    pub fn install(written_status_left: String, written_solstone: String) -> (r: Self)
        ensures
            r.step == InstallStep::ReadingStatusLeft,
            r.requested == Some((written_status_left, written_solstone)),
            r.original_status_left is Absent,
            r.original_solstone is Absent,
            r.error is None,
    {
        IndicatorInstall {
            step: InstallStep::ReadingStatusLeft,
            requested: Some((written_status_left, written_solstone)),
            original_status_left: OptionValue::Absent,
            original_solstone: OptionValue::Absent,
            error: None,
        }
    }

    /// The values that are to be written.
    pub fn values(&self) -> (r: (String, String))
        ensures
            (r.0@, r.1@) == values_to_write(*self),
    {
        match &self.requested {
            Some((status_left, solstone)) => (status_left.clone(), solstone.clone()),
            None => (default_status_left(&self.original_status_left), copy(OBSERVING_VALUE)),
        }
    }

    /// Takes an event in; `step` then says what to do next.
    pub fn advance(&mut self, event: InstallEvent)
        ensures
            final(self).step == install_next(old(self).step, event),
            final(self).requested == old(self).requested,
            final(self).original_status_left == match (old(self).step, event) {
                (InstallStep::ReadingStatusLeft, InstallEvent::Read(value)) => value,
                _ => old(self).original_status_left,
            },
            final(self).original_solstone == match (old(self).step, event) {
                (InstallStep::ReadingSolstone, InstallEvent::Read(value)) => value,
                _ => old(self).original_solstone,
            },
            install_error(old(self).step, old(self).error, event, final(self).error),
    {
        match (self.step, event) {
            (InstallStep::ReadingStatusLeft, InstallEvent::Read(value)) => {
                self.original_status_left = value;
                self.step = InstallStep::ReadingSolstone;
            },
            (InstallStep::ReadingSolstone, InstallEvent::Read(value)) => {
                self.original_solstone = value;
                self.step = InstallStep::WritingStatusLeft;
            },
            (InstallStep::WritingStatusLeft, InstallEvent::Written) => {
                self.step = InstallStep::WritingSolstone;
            },
            (InstallStep::WritingSolstone, InstallEvent::Written) => {
                self.step = InstallStep::Done;
            },
            (InstallStep::WritingSolstone, InstallEvent::Failed(error)) => {
                self.error = Some(error);
                self.step = InstallStep::RollingBack;
            },
            (InstallStep::RollingBack, InstallEvent::Written) => {
                self.step = InstallStep::Failed;
            },
            (InstallStep::RollingBack, InstallEvent::Failed(second)) => {
                let mut first: Option<IndicatorError> = None;
                std::mem::swap(&mut self.error, &mut first);
                self.error = Some(combine_errors(first, second));
                self.step = InstallStep::Failed;
            },
            (InstallStep::ReadingStatusLeft, InstallEvent::Failed(error)) => {
                self.error = Some(error);
                self.step = InstallStep::Failed;
            },
            (InstallStep::ReadingSolstone, InstallEvent::Failed(error)) => {
                self.error = Some(error);
                self.step = InstallStep::Failed;
            },
            (InstallStep::WritingStatusLeft, InstallEvent::Failed(error)) => {
                self.error = Some(error);
                self.step = InstallStep::Failed;
            },
            _ => {},
        }
    }

    /// The indicator, once it is installed.
    pub fn finish<I>(self, io: I) -> (r: IndicatorOwnership<I>)
        ensures
            r.io == io,
            r.original_status_left == self.original_status_left,
            r.original_solstone == self.original_solstone,
            (r.written_status_left@, r.written_solstone@) == values_to_write(self),
            r.solstone_owned,
    {
        let (written_status_left, written_solstone) = self.values();
        IndicatorOwnership {
            io,
            original_status_left: self.original_status_left,
            original_solstone: self.original_solstone,
            written_status_left,
            written_solstone,
            solstone_owned: true,
        }
    }
}

/// Once the status line was written, an installation either ends with both values in
/// place or has tried to give the old one back.
pub proof fn lemma_half_installation_is_rolled_back(step: InstallStep, event: InstallEvent)
    requires
        step == InstallStep::WritingSolstone || step == InstallStep::RollingBack,
        install_next(step, event) != step,
    ensures
        install_next(step, event) == InstallStep::Failed ==> step == InstallStep::RollingBack,
        install_next(step, event) == InstallStep::Done ==> step == InstallStep::WritingSolstone
            && event is Written,
{
}

/// The indicator once it is installed: what was there, and what was written.
#[derive(Debug)]
pub struct IndicatorOwnership<I> {
    pub io: I,
    pub original_status_left: OptionValue,
    pub original_solstone: OptionValue,
    pub written_status_left: String,
    pub written_solstone: String,
    pub solstone_owned: bool,
}

/// The option is still this program's own, now that `current` was read: it was never
/// given up, and is what was written last.
pub open spec fn is_ours<I>(owned: IndicatorOwnership<I>, current: ValueView) -> bool {
    owned.solstone_owned && current == ValueView::Present(owned.written_solstone@)
}

/// The indicator after `current` was read: an option that is not its own is given up.
pub open spec fn after_check<I>(
    owned: IndicatorOwnership<I>,
    current: ValueView,
) -> IndicatorOwnership<I> {
    IndicatorOwnership { solstone_owned: is_ours(owned, current), ..owned }
}

impl<I> IndicatorOwnership<I> {
    /// Whether the option may be written, now that `current` was read: it must still be
    /// what was written last. Once it is not, it is never written again.
    pub fn check_solstone(&mut self, current: &OptionValue) -> (r: bool)
        ensures
            r == is_ours(*old(self), current@),
            *final(self) == after_check(*old(self), current@),
    {
        let ours = self.solstone_owned && current.is_value(self.written_solstone.as_str());
        self.solstone_owned = ours;
        ours
    }

    /// The option was written.
    pub fn note_solstone(&mut self, value: String)
        ensures
            *final(self) == (IndicatorOwnership { written_solstone: value, ..*old(self) }),
    {
        self.written_solstone = value;
    }

    /// How the status line gets its old value back, now that `current` was read;
    /// nothing where it is not what was written.
    pub fn restore_status_left(&self, current: &OptionValue) -> (r: Option<RestoreAction>)
        ensures
            match r {
                Some(action) => current@ == ValueView::Present(self.written_status_left@)
                    && restores(action, self.original_status_left@),
                None => current@ != ValueView::Present(self.written_status_left@),
            },
    {
        if current.is_value(self.written_status_left.as_str()) {
            Some(restore_value(&self.original_status_left))
        } else {
            None
        }
    }

    /// How the option gets its old value back, now that `current` was read; nothing
    /// where it is not what was written, or was given up.
    pub fn restore_solstone(&self, current: &OptionValue) -> (r: Option<RestoreAction>)
        ensures
            match r {
                Some(action) => is_ours(*self, current@) && restores(
                    action,
                    self.original_solstone@,
                ),
                None => !is_ours(*self, current@),
            },
    {
        if self.solstone_owned && current.is_value(self.written_solstone.as_str()) {
            Some(restore_value(&self.original_solstone))
        } else {
            None
        }
    }
}

/// What is said of an option that could not be read back or restored.
pub fn restore_failure(name: &str, reading: bool, error: &IndicatorError) -> (r: String)
    ensures
        r@ == if reading {
            name@ + " read: "@ + error.text()
        } else {
            name@ + ": "@ + error.text()
        },
{
    if reading {
        concat3(name, " read: ", error.message().as_str())
    } else {
        concat3(name, ": ", error.message().as_str())
    }
}

/// What taking the indicator away came to.
pub fn conclude_restore(failures: Vec<String>) -> (r: Result<(), IndicatorRestoreError>)
    ensures
        match r {
            Ok(_) => failures@.len() == 0,
            Err(error) => failures@.len() > 0 && error.0 == failures,
        },
{
    if failures.len() == 0 {
        Ok(())
    } else {
        Err(IndicatorRestoreError(failures))
    }
}

/// A value that somebody else has written is left alone for good: it is neither
/// updated nor restored, even where it later reads like the one that was written.
pub proof fn lemma_given_up_option_is_left_alone<I>(
    owned: IndicatorOwnership<I>,
    seen: ValueView,
    later: ValueView,
)
    requires
        !is_ours(owned, seen),
    ensures
        !is_ours(after_check(owned, seen), later),
{
}

/// The value of an option after the action.
pub open spec fn acted(action: RestoreAction) -> ValueView {
    match action {
        RestoreAction::Clear => ValueView::Absent,
        RestoreAction::Write(value) => ValueView::Present(value@),
    }
}

/// Restoring gives an option exactly the value that it had before the installation.
pub proof fn lemma_restoring_gives_original_back(action: RestoreAction, original: ValueView)
    requires
        restores(action, original),
    ensures
        acted(action) == original,
{
}

/// The value of an option that tmux wrote, with the newline behind it, is read back.
pub proof fn lemma_option_is_read_back(
    name: &str,
    value: Seq<char>,
    output: CommandOutput,
    r: Result<OptionValue, IndicatorError>,
)
    requires
        call_ensures(read_option, (name, &output), r),
    ensures
        output.status == 0 && output.stdout@ == encode_utf8(value.push('\n')) ==> r is Ok
            && r->Ok_0@ == ValueView::Present(value),
        output.status == 0 && output.stdout@ == encode_utf8(value) && (value.len() == 0
            || value.last() != '\n') ==> r is Ok && r->Ok_0@ == ValueView::Present(value),
        output.status != 0 ==> if name@ == "@solstone"@ {
            r is Ok && r->Ok_0@ == ValueView::Absent
        } else {
            r is Err && r->Err_0 is Nonzero
        },
        output.status == 0 && !valid_utf8(output.stdout@) ==> r is Err && r->Err_0 is Protocol,
{
    let line = value.push('\n');
    encode_utf8_valid_utf8(line);
    encode_utf8_decode_utf8(line);
    encode_utf8_valid_utf8(value);
    encode_utf8_decode_utf8(value);
    assert(line.drop_last() =~= value);
}

/// The indicator stands in front of what the status line showed, and takes nothing of it
/// away.
pub proof fn lemma_status_line_is_kept(value: Seq<char>)
    ensures
        marked_status(ValueView::Present(value)).skip(INDICATOR_PREFIX@.len() as int) == value,
        marked_status(ValueView::Present(value)).take(INDICATOR_PREFIX@.len() as int)
            == INDICATOR_PREFIX@,
        marked_status(ValueView::Absent) == INDICATOR_PREFIX@,
{
    let s = marked_status(ValueView::Present(value));
    assert(s.skip(INDICATOR_PREFIX@.len() as int) =~= value);
    assert(s.take(INDICATOR_PREFIX@.len() as int) =~= INDICATOR_PREFIX@);
}

/// Both options are read before either is written; the first is the status line. A failure
/// before anything was written ends the installation, a later one undoes the first write.
pub proof fn lemma_steps_of_an_installation(value: OptionValue, error: IndicatorError)
    ensures
        install_next(InstallStep::ReadingStatusLeft, InstallEvent::Read(value))
            == InstallStep::ReadingSolstone,
        install_next(InstallStep::ReadingSolstone, InstallEvent::Read(value))
            == InstallStep::WritingStatusLeft,
        install_next(InstallStep::WritingStatusLeft, InstallEvent::Written)
            == InstallStep::WritingSolstone,
        install_next(InstallStep::WritingSolstone, InstallEvent::Written) == InstallStep::Done,
        install_next(InstallStep::ReadingStatusLeft, InstallEvent::Failed(error))
            == InstallStep::Failed,
        install_next(InstallStep::ReadingSolstone, InstallEvent::Failed(error))
            == InstallStep::Failed,
        install_next(InstallStep::WritingStatusLeft, InstallEvent::Failed(error))
            == InstallStep::Failed,
        install_next(InstallStep::WritingSolstone, InstallEvent::Failed(error))
            == InstallStep::RollingBack,
        install_next(InstallStep::RollingBack, InstallEvent::Written) == InstallStep::Failed,
        install_next(InstallStep::RollingBack, InstallEvent::Failed(error))
            == InstallStep::Failed,
{
}

/// The error of an installation is the one that failed it, and one that also kept it from
/// being undone is added to it.
pub proof fn lemma_error_of_an_installation(
    step: InstallStep,
    before: Option<IndicatorError>,
    error: IndicatorError,
    after: Option<IndicatorError>,
)
    requires
        install_error(step, before, InstallEvent::Failed(error), after),
    ensures
        step == InstallStep::ReadingStatusLeft || step == InstallStep::ReadingSolstone || step
            == InstallStep::WritingStatusLeft || step == InstallStep::WritingSolstone ==> after
            == Some(error),
        step == InstallStep::RollingBack && before is Some ==> after is Some && after->0.text()
            == before->0.text() + "; status-left rollback also failed: "@ + error.text(),
        step == InstallStep::Done || step == InstallStep::Failed ==> after == before,
{
}

/// What is written is what was asked for, or else the indicator before the status line
/// that was read and the value of a resting synchronisation.
pub proof fn lemma_what_an_installation_writes(install: IndicatorInstall)
    ensures
        install.requested is Some ==> values_to_write(install) == (
            (install.requested->0).0@,
            (install.requested->0).1@,
        ),
        install.requested is None ==> values_to_write(install).1 == "observing"@,
        install.requested is None && install.original_status_left is Present ==> values_to_write(
            install,
        ).0 == INDICATOR_PREFIX@ + install.original_status_left->0@,
        install.requested is None && install.original_status_left is Absent ==> values_to_write(
            install,
        ).0 == INDICATOR_PREFIX@,
{
}

/// The option says whether the synchronisation is at work.
pub proof fn lemma_activity_is_shown(idle: &str, working: &str)
    requires
        call_ensures(activity_value, (SyncActivity::Idle,), idle),
        call_ensures(activity_value, (SyncActivity::Working,), working),
    ensures
        idle@ == "observing"@,
        working@ == "syncing"@,
{
}

/// Each option gets back the value that it had before, where it still has the one that was
/// written last; a value that somebody else wrote stays.
pub proof fn lemma_only_own_values_are_restored<I>(
    owned: IndicatorOwnership<I>,
    current: OptionValue,
    status_left: Option<RestoreAction>,
    solstone: Option<RestoreAction>,
)
    requires
        call_ensures(IndicatorOwnership::<I>::restore_status_left, (&owned, &current), status_left),
        call_ensures(IndicatorOwnership::<I>::restore_solstone, (&owned, &current), solstone),
    ensures
        status_left is Some <==> current@ == ValueView::Present(owned.written_status_left@),
        status_left is Some ==> acted(status_left->0) == owned.original_status_left@,
        solstone is Some <==> owned.solstone_owned && current@ == ValueView::Present(
            owned.written_solstone@,
        ),
        solstone is Some ==> acted(solstone->0) == owned.original_solstone@,
{
}

/// Taking the indicator away has failed exactly where something went wrong, and all of it
/// is told.
pub proof fn lemma_restore_tells_every_failure(
    failures: Vec<String>,
    r: Result<(), IndicatorRestoreError>,
)
    requires
        call_ensures(conclude_restore, (failures,), r),
    ensures
        r is Ok <==> failures@.len() == 0,
        r is Err ==> r->Err_0.0 == failures,
{
}

/// A command that writes or clears an option worked exactly where it ended with zero.
pub proof fn lemma_option_command_is_checked(name: &str, status: i32, r: Result<(), IndicatorError>)
    requires
        call_ensures(check_option_command, (name, status), r),
    ensures
        r is Ok <==> status == 0,
        r is Err ==> r->Err_0 is Nonzero && r->Err_0->status == status && r->Err_0->name@ == name@,
{
}

} // verus!
