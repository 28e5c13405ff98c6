//! The unit of systemd that runs the observer.

use vstd::prelude::*;
use vstd::string::*;
use vstd::utf8::*;

use crate::command::CommandOutput;
use crate::paths::{contains_marker, holds_marker, join_path, joined_path, same_bytes, TargetState};
use crate::text::{
    any_control, chars_of, concat3, decode_text, has_control, lemma_encoding_of_concatenation,
    lossy_decoding, lossy_text, same_text, trim, trimmed,
};

verus! {

pub const UNIT_NAME: &'static str = "solstone-tmux.service";

/// The line by which a unit of this program is known.
pub const OWNERSHIP_MARKER: &'static str = "Description=Solstone Tmux Observer\n";

/// The line by which a unit of the older program is known.
pub const LEGACY_PYTHON_MARKER: &'static str = "Description=Solstone Tmux Terminal Observer\n";

/// Where the unit stands.
pub open spec fn unit_path(home: Seq<u8>) -> Seq<u8> {
    join_path(join_path(home, encode_utf8(".config/systemd/user"@)), encode_utf8(UNIT_NAME@))
}

pub fn artifact_path(home: &[u8]) -> (r: Vec<u8>)
    ensures
        r@ == unit_path(home@),
{
    let directory = joined_path(home, ".config/systemd/user".as_bytes());
    joined_path(directory.as_slice(), UNIT_NAME.as_bytes())
}

/// Why a unit cannot be written.
#[derive(Clone, Copy, Debug, PartialEq, Eq, Structural)]
pub enum RenderError {
    /// The path is no text.
    NotText,
    /// It holds a control character.
    ControlCharacter,
}

/// A character as it stands within quotes in a unit.
pub open spec fn escaped_char(c: char) -> Seq<char> {
    if c == '\\' {
        seq!['\\', '\\']
    } else if c == '"' {
        seq!['\\', '"']
    } else if c == '%' {
        seq!['%', '%']
    } else {
        seq![c]
    }
}

/// A text as it stands within quotes in a unit.
pub open spec fn escaped(s: Seq<char>) -> Seq<char>
    decreases s.len(),
{
    if s.len() == 0 {
        Seq::empty()
    } else {
        escaped(s.drop_last()) + escaped_char(s.last())
    }
}

/// A path as it stands in a unit.
pub open spec fn unit_value(path: Seq<u8>) -> Result<Seq<char>, RenderError> {
    if !valid_utf8(path) {
        Err(RenderError::NotText)
    } else if has_control(decode_utf8(path)) {
        Err(RenderError::ControlCharacter)
    } else {
        Ok(escaped(decode_utf8(path)))
    }
}

fn escape(s: &str) -> (r: String)
    ensures
        r@ == escaped(s@),
{
    let chars = chars_of(s);
    let mut out: String = String::new();
    let mut i: usize = 0;
    proof {
        assert(s@.take(0) =~= Seq::<char>::empty());
        assert(out@ =~= Seq::<char>::empty());
    }
    while i < chars.len()
        invariant
            i <= chars@.len(),
            chars@ == s@,
            out@ == escaped(s@.take(i as int)),
        decreases chars@.len() - i,
    {
        let c = chars[i];
        let ghost before = out@;
        proof {
            assert(s@.take(i + 1).drop_last() =~= s@.take(i as int));
            assert(s@.take(i + 1).last() == c);
        }
        if c == '\\' {
            out.push('\\');
        } else if c == '"' {
            out.push('\\');
        } else if c == '%' {
            out.push('%');
        }
        out.push(c);
        proof {
            assert(out@ =~= before + escaped_char(c));
        }
        i = i + 1;
    }
    proof {
        assert(s@.take(s@.len() as int) =~= s@);
    }
    out
}

/// A path as it stands in a unit.
pub fn escape_unit_value(path: &[u8]) -> (r: Result<String, RenderError>)
    ensures
        match r {
            Ok(text) => unit_value(path@) == Ok::<Seq<char>, RenderError>(text@),
            Err(error) => unit_value(path@) == Err::<Seq<char>, RenderError>(error),
        },
{
    let text = match decode_text(path) {
        Ok(text) => text,
        Err(_) => return Err(RenderError::NotText),
    };
    if any_control(text.as_str()) {
        return Err(RenderError::ControlCharacter);
    }
    Ok(escape(text.as_str()))
}

/// The unit for a program and a search path, both as they stand in it.
pub open spec fn unit_text(binary: Seq<char>, service_path: Seq<char>) -> Seq<char> {
    "[Unit]\nDescription=Solstone Tmux Observer\nAfter=basic.target\nStartLimitIntervalSec=300\nStartLimitBurst=5\n\n[Service]\nType=simple\nEnvironment=\"PATH="@
        + service_path + "\"\nExecStart=\""@ + binary
        + "\" run\nRestart=on-failure\nRestartSec=5\n\n[Install]\nWantedBy=default.target\n"@
}

/// The unit, or why it cannot be written: the program's path is looked at first.
pub open spec fn unit_for(binary: Seq<u8>, service_path: Seq<u8>) -> Result<Seq<char>, RenderError> {
    match unit_value(binary) {
        Err(error) => Err(error),
        Ok(program) => match unit_value(service_path) {
            Err(error) => Err(error),
            Ok(path) => Ok(unit_text(program, path)),
        },
    }
}

pub fn render(binary: &[u8], service_path: &[u8]) -> (r: Result<String, RenderError>)
    ensures
        match r {
            Ok(unit) => unit_for(binary@, service_path@) == Ok::<Seq<char>, RenderError>(unit@),
            Err(error) => unit_for(binary@, service_path@) == Err::<Seq<char>, RenderError>(error),
        },
{
    let program = match escape_unit_value(binary) {
        Ok(program) => program,
        Err(error) => return Err(error),
    };
    let path = match escape_unit_value(service_path) {
        Ok(path) => path,
        Err(error) => return Err(error),
    };
    let mut out = concat3(
        "[Unit]\nDescription=Solstone Tmux Observer\nAfter=basic.target\nStartLimitIntervalSec=300\nStartLimitBurst=5\n\n[Service]\nType=simple\nEnvironment=\"PATH=",
        path.as_str(),
        "\"\nExecStart=\"",
    );
    out.append(program.as_str());
    out.append(
        "\" run\nRestart=on-failure\nRestartSec=5\n\n[Install]\nWantedBy=default.target\n",
    );
    Ok(out)
}

/// No value that stands in a unit ends its line.
pub proof fn lemma_escaped_value_stays_on_line(s: Seq<char>)
    requires
        !has_control(s),
    ensures
        !has_control(escaped(s)),
    decreases s.len(),
{
    if s.len() > 0 {
        let shorter = s.drop_last();
        assert forall|i: int| 0 <= i < shorter.len() implies !crate::text::is_control(
            #[trigger] shorter[i],
        ) by {
            assert(shorter[i] == s[i]);
        }
        lemma_escaped_value_stays_on_line(shorter);
        let before = escaped(shorter);
        let after = escaped(s);
        assert(!crate::text::is_control(s[s.len() - 1]));
        assert forall|i: int| 0 <= i < after.len() implies !crate::text::is_control(
            #[trigger] after[i],
        ) by {
            if i < before.len() {
                assert(after[i] == before[i]);
            } else {
                assert(after[i] == escaped_char(s.last())[i - before.len()]);
            }
        }
    }
}

/// Whether the unit that is installed must be replaced. `installed` is what it holds,
/// or nothing where there is none.
pub fn unit_changed(installed: &Option<Vec<u8>>, unit: &str) -> (r: bool)
    ensures
        r == match *installed {
            Some(bytes) => bytes@ != encode_utf8(unit@),
            None => true,
        },
{
    match installed {
        Some(bytes) => !same_bytes(bytes.as_slice(), unit.as_bytes()),
        None => true,
    }
}

/// What is known of the service.
#[derive(Clone, Copy, Debug, PartialEq, Eq, Structural)]
pub enum ServiceStatus {
    Absent,
    Inactive,
    Active,
}

/// The word that systemd wrote.
pub open spec fn manager_word(output: CommandOutput) -> Seq<char> {
    trim(lossy_decoding(output.stdout@))
}

/// The service runs.
pub open spec fn is_running(output: CommandOutput) -> bool {
    output.status == 0 && manager_word(output) == "active"@
}

/// The service is known and does not run.
pub open spec fn is_at_rest(word: Seq<char>) -> bool {
    word == "inactive"@ || word == "failed"@ || word == "activating"@ || word == "deactivating"@
}

/// Whether the service runs after it was started.
pub fn check_active(output: &CommandOutput) -> (r: bool)
    ensures
        r == is_running(*output),
{
    let word = trimmed(lossy_text(output.stdout.as_slice()).as_str());
    output.status == 0 && same_text(word.as_str(), "active")
}

/// What systemd's answer means; nothing where it means an error. `installed` says
/// whether the unit is there, `reported_absent` whether systemd does not know it.
pub fn read_status(installed: bool, output: &CommandOutput, reported_absent: bool) -> (r: Option<
    ServiceStatus,
>)
    ensures
        r == if !installed {
            Some(ServiceStatus::Absent)
        } else if is_running(*output) {
            Some(ServiceStatus::Active)
        } else if reported_absent || is_at_rest(manager_word(*output)) {
            Some(ServiceStatus::Inactive)
        } else {
            None
        },
{
    if !installed {
        return Some(ServiceStatus::Absent);
    }
    if check_active(output) {
        return Some(ServiceStatus::Active);
    }
    let word = trimmed(lossy_text(output.stdout.as_slice()).as_str());
    if reported_absent || same_text(word.as_str(), "inactive") || same_text(
        word.as_str(),
        "failed",
    ) || same_text(word.as_str(), "activating") || same_text(word.as_str(), "deactivating") {
        Some(ServiceStatus::Inactive)
    } else {
        None
    }
}

/// Whether a stop or a disabling went well: a unit that systemd does not know needs
/// neither.
pub fn stop_succeeded(status: i32, reported_absent: bool) -> (r: bool)
    ensures
        r == (status == 0 || reported_absent),
{
    status == 0 || reported_absent
}

/// What stands where the unit belongs.
#[derive(Clone, Copy, Debug, PartialEq, Eq, Structural)]
pub enum UnitState {
    Absent,
    Owned,
    /// A unit of the older program, which must be removed by hand.
    Legacy,
    /// Something else, which is left alone.
    Foreign,
    /// It could not be looked at or read.
    Unreadable,
}

/// What stands where the unit belongs: only a regular file with the marker is this
/// program's own.
pub open spec fn unit_state(target: TargetState, contents: Option<Seq<u8>>) -> UnitState {
    match target {
        TargetState::NotFound => UnitState::Absent,
        TargetState::NotRegular => UnitState::Foreign,
        TargetState::Unreadable => UnitState::Unreadable,
        TargetState::Regular => match contents {
            None => UnitState::Unreadable,
            Some(bytes) => if holds_marker(bytes, encode_utf8(OWNERSHIP_MARKER@)) {
                UnitState::Owned
            } else if holds_marker(bytes, encode_utf8(LEGACY_PYTHON_MARKER@)) {
                UnitState::Legacy
            } else {
                UnitState::Foreign
            },
        },
    }
}

/// What stands where the unit belongs; `contents` is what it holds, where it could be
/// read.
pub fn validate_unit(target: TargetState, contents: Option<&[u8]>) -> (r: UnitState)
    ensures
        r == unit_state(
            target,
            match contents {
                Some(bytes) => Some(bytes@),
                None => None,
            },
        ),
{
    match target {
        TargetState::NotFound => UnitState::Absent,
        TargetState::NotRegular => UnitState::Foreign,
        TargetState::Unreadable => UnitState::Unreadable,
        TargetState::Regular => match contents {
            None => UnitState::Unreadable,
            Some(bytes) => if contains_marker(bytes, OWNERSHIP_MARKER.as_bytes()) {
                UnitState::Owned
            } else if contains_marker(bytes, LEGACY_PYTHON_MARKER.as_bytes()) {
                UnitState::Legacy
            } else {
                UnitState::Foreign
            },
        },
    }
}

/// What a change to the service does next.
#[derive(Clone, Copy, Debug, PartialEq, Eq, Structural)]
pub enum ServiceStep {
    Stopping,
    Writing,
    Enabling,
    /// Ask whether the service runs.
    Checking,
    Disabling,
    Removing,
    /// Have systemd read its units again, as the last step.
    Reloading,
    Done,
    Failed,
}

/// How the installation of a unit begins: nothing is done where it is installed
/// already, and nothing that is not this program's own is replaced.
pub open spec fn install_start(state: UnitState, changed: bool) -> ServiceStep {
    match state {
        UnitState::Absent => ServiceStep::Stopping,
        UnitState::Owned => if changed {
            ServiceStep::Stopping
        } else {
            ServiceStep::Done
        },
        _ => ServiceStep::Failed,
    }
}

pub fn prepare_install(state: UnitState, changed: bool) -> (r: ServiceStep)
    ensures
        r == install_start(state, changed),
{
    match state {
        UnitState::Absent => ServiceStep::Stopping,
        UnitState::Owned => if changed {
            ServiceStep::Stopping
        } else {
            ServiceStep::Done
        },
        _ => ServiceStep::Failed,
    }
}

/// How the removal of a unit begins.
pub open spec fn uninstall_start(state: UnitState) -> ServiceStep {
    match state {
        UnitState::Absent => ServiceStep::Done,
        UnitState::Owned => ServiceStep::Disabling,
        _ => ServiceStep::Failed,
    }
}

pub fn uninstall(state: UnitState) -> (r: ServiceStep)
    ensures
        r == uninstall_start(state),
{
    match state {
        UnitState::Absent => ServiceStep::Done,
        UnitState::Owned => ServiceStep::Disabling,
        _ => ServiceStep::Failed,
    }
}

/// What follows a step. `succeeded` is, for a stop or a disabling, whether the service
/// is now at rest; for the check, whether it runs.
pub open spec fn service_next(step: ServiceStep, succeeded: bool) -> ServiceStep {
    if step == ServiceStep::Done || step == ServiceStep::Failed {
        step
    } else if !succeeded {
        ServiceStep::Failed
    } else {
        match step {
            ServiceStep::Stopping => ServiceStep::Writing,
            ServiceStep::Writing => ServiceStep::Reloading,
            ServiceStep::Enabling => ServiceStep::Checking,
            ServiceStep::Disabling => ServiceStep::Removing,
            ServiceStep::Removing => ServiceStep::Reloading,
            _ => ServiceStep::Done,
        }
    }
}

pub fn advance_service(step: ServiceStep, succeeded: bool) -> (r: ServiceStep)
    ensures
        r == service_next(step, succeeded),
{
    match step {
        ServiceStep::Done => ServiceStep::Done,
        ServiceStep::Failed => ServiceStep::Failed,
        _ => {
            if !succeeded {
                return ServiceStep::Failed;
            }
            match step {
                ServiceStep::Stopping => ServiceStep::Writing,
                ServiceStep::Writing => ServiceStep::Reloading,
                ServiceStep::Enabling => ServiceStep::Checking,
                ServiceStep::Disabling => ServiceStep::Removing,
                ServiceStep::Removing => ServiceStep::Reloading,
                _ => ServiceStep::Done,
            }
        },
    }
}

/// A unit that was written for a program is known as this program's own; installing it
/// again changes nothing.
pub proof fn lemma_rendered_unit_is_owned(program: Seq<char>, path: Seq<char>)
    ensures
        unit_state(TargetState::Regular, Some(encode_utf8(unit_text(program, path))))
            == UnitState::Owned,
        install_start(UnitState::Owned, false) == ServiceStep::Done,
{
    let head = "[Unit]\nDescription=Solstone Tmux Observer\nAfter=basic.target\nStartLimitIntervalSec=300\nStartLimitBurst=5\n\n[Service]\nType=simple\nEnvironment=\"PATH="@;
    reveal_strlit(
        "[Unit]\nDescription=Solstone Tmux Observer\nAfter=basic.target\nStartLimitIntervalSec=300\nStartLimitBurst=5\n\n[Service]\nType=simple\nEnvironment=\"PATH=",
    );
    reveal_strlit("Description=Solstone Tmux Observer\n");
    let marker = OWNERSHIP_MARKER@;
    let whole = unit_text(program, path);
    let n = marker.len() as int;
    assert(marker =~= head.subrange(7, 7 + n));
    let (front, back) = (whole.take(7), whole.skip(7 + n));
    assert(whole =~= front + (marker + back));
    lemma_encoding_of_concatenation(front, marker + back);
    lemma_encoding_of_concatenation(marker, back);
    let (bytes, found) = (encode_utf8(whole), encode_utf8(marker));
    let at = encode_utf8(front).len() as int;
    assert(bytes.subrange(at, at + found.len()) =~= found);
}

/// A unit that is not known as this program's own is neither replaced nor removed.
pub proof fn lemma_foreign_unit_is_left_alone(state: UnitState, changed: bool)
    requires
        state == UnitState::Legacy || state == UnitState::Foreign || state
            == UnitState::Unreadable,
    ensures
        install_start(state, changed) == ServiceStep::Failed,
        uninstall_start(state) == ServiceStep::Failed,
{
}

/// What systemd reads of a value within quotes: a backslash or a percent sign stands for
/// the character behind it.
pub open spec fn unit_reading(s: Seq<char>) -> Seq<char>
    decreases s.len(),
{
    if s.len() == 0 {
        Seq::empty()
    } else if s.len() >= 2 && (s[0] == '\\' || s[0] == '%') {
        seq![s[1]] + unit_reading(s.skip(2))
    } else {
        seq![s[0]] + unit_reading(s.skip(1))
    }
}

proof fn lemma_escaped_from_front(s: Seq<char>)
    requires
        s.len() > 0,
    ensures
        escaped(s) == escaped_char(s[0]) + escaped(s.skip(1)),
    decreases s.len(),
{
    if s.len() == 1 {
        assert(s.drop_last() =~= Seq::<char>::empty());
        assert(s.skip(1) =~= Seq::<char>::empty());
        assert(escaped(s.drop_last()) =~= Seq::<char>::empty());
        assert(escaped(s.skip(1)) =~= Seq::<char>::empty());
        assert(escaped(s) =~= escaped_char(s[0]));
        assert(escaped_char(s[0]) + escaped(s.skip(1)) =~= escaped_char(s[0]));
    } else {
        let shorter = s.drop_last();
        lemma_escaped_from_front(shorter);
        assert(shorter.skip(1) =~= s.skip(1).drop_last());
        assert(s.skip(1).last() == s.last());
        assert(escaped_char(s[0]) + escaped(shorter.skip(1)) + escaped_char(s.last())
            =~= escaped_char(s[0]) + (escaped(shorter.skip(1)) + escaped_char(s.last())));
    }
}

/// Systemd reads back the text that was written into a unit.
pub proof fn lemma_escaped_value_is_read_back(s: Seq<char>)
    ensures
        unit_reading(escaped(s)) == s,
    decreases s.len(),
{
    if s.len() > 0 {
        let rest = s.skip(1);
        let tail = escaped(rest);
        let whole = escaped(s);
        let head = escaped_char(s[0]);
        lemma_escaped_from_front(s);
        lemma_escaped_value_is_read_back(rest);
        if head.len() == 2 {
            assert(whole.skip(2) =~= tail);
            assert(whole[0] == head[0] && whole[1] == head[1]);
        } else {
            assert(whole.skip(1) =~= tail);
            assert(whole[0] == head[0]);
        }
        assert(seq![s[0]] + rest =~= s);
    } else {
        assert(escaped(s) =~= Seq::<char>::empty());
        assert(unit_reading(escaped(s)) =~= s);
    }
}

/// Within quotes, every quotation mark of a value stands behind a backslash: a value never
/// ends its quotes.
pub proof fn lemma_value_stays_in_quotes(s: Seq<char>, i: int)
    requires
        0 <= i < escaped(s).len(),
        escaped(s)[i] == '"',
    ensures
        i > 0 && escaped(s)[i - 1] == '\\',
    decreases s.len(),
{
    let shorter = s.drop_last();
    let before = escaped(shorter);
    let whole = escaped(s);
    if i < before.len() {
        assert(whole[i] == before[i]);
        lemma_value_stays_in_quotes(shorter, i);
        assert(whole[i - 1] == before[i - 1]);
    } else {
        let part = escaped_char(s.last());
        assert(whole[i] == part[i - before.len()]);
        assert(s.last() == '"');
        assert(whole[before.len() as int] == part[0]);
    }
}

/// A path that is text without control characters can stand in a unit, and every other one
/// is refused for what it is; the program's path is looked at first.
pub proof fn lemma_which_paths_can_stand_in_a_unit(binary: Seq<u8>, service_path: Seq<u8>)
    ensures
        unit_value(binary) is Ok <==> valid_utf8(binary) && !has_control(decode_utf8(binary)),
        !valid_utf8(binary) ==> unit_value(binary) == Err::<Seq<char>, RenderError>(
            RenderError::NotText,
        ),
        valid_utf8(binary) && has_control(decode_utf8(binary)) ==> unit_value(binary) == Err::<
            Seq<char>,
            RenderError,
        >(RenderError::ControlCharacter),
        unit_for(binary, service_path) is Ok <==> unit_value(binary) is Ok && unit_value(
            service_path,
        ) is Ok,
        unit_value(binary) is Err ==> unit_for(binary, service_path) == unit_value(binary),
        unit_value(binary) is Ok && unit_value(service_path) is Err ==> unit_for(
            binary,
            service_path,
        ) == unit_value(service_path),
{
}

/// The unit runs the program that was named, with the search path that was named, each
/// between quotes and readable back.
pub proof fn lemma_unit_names_program_and_path(binary: Seq<char>, service_path: Seq<char>)
    requires
        !has_control(binary),
        !has_control(service_path),
    ensures
        unit_for(encode_utf8(binary), encode_utf8(service_path)) is Ok,
        exists|head: Seq<char>, tail: Seq<char>|
            unit_for(encode_utf8(binary), encode_utf8(service_path))->Ok_0 == #[trigger] head.add(
                escaped(service_path),
            ) + "\"\nExecStart=\""@ + #[trigger] escaped(binary).add(tail) && head.skip(
                head.len() - 6,
            ) == "\"PATH="@ && tail.take(6) == "\" run\n"@,
{
    encode_utf8_valid_utf8(binary);
    encode_utf8_decode_utf8(binary);
    encode_utf8_valid_utf8(service_path);
    encode_utf8_decode_utf8(service_path);
    let head = "[Unit]\nDescription=Solstone Tmux Observer\nAfter=basic.target\nStartLimitIntervalSec=300\nStartLimitBurst=5\n\n[Service]\nType=simple\nEnvironment=\"PATH="@;
    let middle = "\"\nExecStart=\""@;
    let tail = "\" run\nRestart=on-failure\nRestartSec=5\n\n[Install]\nWantedBy=default.target\n"@;
    reveal_strlit(
        "[Unit]\nDescription=Solstone Tmux Observer\nAfter=basic.target\nStartLimitIntervalSec=300\nStartLimitBurst=5\n\n[Service]\nType=simple\nEnvironment=\"PATH=",
    );
    reveal_strlit("\"PATH=");
    reveal_strlit("\" run\n");
    reveal_strlit(
        "\" run\nRestart=on-failure\nRestartSec=5\n\n[Install]\nWantedBy=default.target\n",
    );
    assert(head.skip(head.len() - 6) =~= "\"PATH="@);
    assert(tail.take(6) =~= "\" run\n"@);
    let whole = unit_for(encode_utf8(binary), encode_utf8(service_path))->Ok_0;
    assert(whole =~= head.add(escaped(service_path)) + middle + escaped(binary).add(tail));
}

/// A unit is replaced exactly where it is not there or differs from the one to write.
pub proof fn lemma_unit_is_replaced_where_it_differs(installed: Option<Vec<u8>>, unit: &str, r: bool)
    requires
        call_ensures(unit_changed, (&installed, unit), r),
    ensures
        !r <==> installed is Some && installed->0@ == encode_utf8(unit@),
{
}

/// A service is active only where it is installed and systemd says so with success, and
/// at rest where systemd does not know it or names a state of rest. What cannot be told
/// is an error, not a state.
pub proof fn lemma_what_a_status_means(
    installed: bool,
    output: CommandOutput,
    reported_absent: bool,
    r: Option<ServiceStatus>,
)
    requires
        call_ensures(read_status, (installed, &output, reported_absent), r),
    ensures
        ({
            let word = trim(lossy_decoding(output.stdout@));
            let active = output.status == 0 && word == "active"@;
            let rest = word == "inactive"@ || word == "failed"@ || word == "activating"@ || word
                == "deactivating"@;
            &&& r == Some(ServiceStatus::Absent) <==> !installed
            &&& r == Some(ServiceStatus::Active) <==> installed && active
            &&& r == Some(ServiceStatus::Inactive) <==> installed && !active && (reported_absent
                || rest)
            &&& r is None <==> installed && !active && !reported_absent && !rest
        }),
{
}

/// A stop counts as done where it worked or there was nothing to stop, and a start only
/// where the service runs.
pub proof fn lemma_what_counts_as_done(
    status: i32,
    reported_absent: bool,
    stopped: bool,
    output: CommandOutput,
    active: bool,
)
    requires
        call_ensures(stop_succeeded, (status, reported_absent), stopped),
        call_ensures(check_active, (&output,), active),
    ensures
        stopped <==> status == 0 || reported_absent,
        active <==> output.status == 0 && trim(lossy_decoding(output.stdout@)) == "active"@,
{
}

/// Installing stops the service, writes its unit and has systemd read it; starting enables
/// it and asks whether it runs; removing disables it, takes its unit away and has systemd
/// read its units again. Each is done only after all of its steps, and the first that
/// fails ends it.
pub proof fn lemma_steps_of_the_service(step: ServiceStep, changed: bool)
    ensures
        install_start(UnitState::Absent, changed) == ServiceStep::Stopping,
        install_start(UnitState::Owned, true) == ServiceStep::Stopping,
        service_next(ServiceStep::Stopping, true) == ServiceStep::Writing,
        service_next(ServiceStep::Writing, true) == ServiceStep::Reloading,
        service_next(ServiceStep::Reloading, true) == ServiceStep::Done,
        service_next(ServiceStep::Enabling, true) == ServiceStep::Checking,
        service_next(ServiceStep::Checking, true) == ServiceStep::Done,
        uninstall_start(UnitState::Owned) == ServiceStep::Disabling,
        uninstall_start(UnitState::Absent) == ServiceStep::Done,
        service_next(ServiceStep::Disabling, true) == ServiceStep::Removing,
        service_next(ServiceStep::Removing, true) == ServiceStep::Reloading,
        step != ServiceStep::Done ==> service_next(step, false) == ServiceStep::Failed,
        service_next(ServiceStep::Done, false) == ServiceStep::Done,
        service_next(ServiceStep::Failed, true) == ServiceStep::Failed,
{
}

/// What stands where the unit belongs is this program's own exactly where it is a regular
/// file that can be read and holds the marker.
pub proof fn lemma_whose_unit_it_is(target: TargetState, contents: Option<Seq<u8>>)
    ensures
        ({
            let state = unit_state(target, contents);
            let read = target == TargetState::Regular && contents is Some;
            let own = read && holds_marker(contents->0, encode_utf8(OWNERSHIP_MARKER@));
            let older = read && holds_marker(contents->0, encode_utf8(LEGACY_PYTHON_MARKER@));
            &&& state == UnitState::Owned <==> own
            &&& state == UnitState::Legacy <==> older && !own
            &&& state == UnitState::Absent <==> target == TargetState::NotFound
            &&& state == UnitState::Unreadable <==> target == TargetState::Unreadable || (target
                == TargetState::Regular && contents is None)
            &&& state == UnitState::Foreign <==> target == TargetState::NotRegular || (read && !own
                && !older)
        }),
{
}

/// The unit stands among the user's own units, below the home directory.
pub proof fn lemma_where_the_unit_stands(home: Seq<u8>, r: Vec<u8>, path: &[u8])
    requires
        path@ == home,
        call_ensures(artifact_path, (path,), r),
        home.len() > 0,
        home.last() != 0x2f,
    ensures
        r@ == home + encode_utf8("/.config/systemd/user/solstone-tmux.service"@),
{
    let directory = ".config/systemd/user"@;
    let name = "solstone-tmux.service"@;
    let whole = "/.config/systemd/user/solstone-tmux.service"@;
    reveal_strlit(".config/systemd/user");
    reveal_strlit("solstone-tmux.service");
    reveal_strlit("/.config/systemd/user/solstone-tmux.service");
    is_ascii_chars_encode_utf8(directory);
    is_ascii_chars_encode_utf8(name);
    is_ascii_chars_encode_utf8(whole);
    let (a, b, c) = (encode_utf8(directory), encode_utf8(name), encode_utf8(whole));
    assert(a[0] as u32 == directory[0] as u32);
    assert(b[0] as u32 == name[0] as u32);
    let parent = join_path(home, a);
    assert(parent =~= home.push(0x2f) + a);
    assert(a[a.len() - 1] as u32 == directory[directory.len() - 1] as u32);
    assert(parent.last() == a[a.len() - 1]);
    assert(r@ =~= parent.push(0x2f) + b);
    assert forall|i: int| 0 <= i < c.len() implies #[trigger] c[i] == (seq![0x2fu8] + a + seq![
        0x2fu8,
    ] + b)[i] by {
        assert(c[i] as u32 == whole[i] as u32);
        if 1 <= i <= a.len() {
            assert(a[i - 1] as u32 == directory[i - 1] as u32);
            assert(whole[i] == directory[i - 1]);
        } else if i > a.len() + 1 {
            assert(b[i - a.len() - 2] as u32 == name[i - a.len() - 2] as u32);
            assert(whole[i] == name[i - a.len() - 2]);
        }
    }
    assert(c =~= seq![0x2fu8] + a + seq![0x2fu8] + b);
    assert(r@ =~= home + c);
}

} // verus!
