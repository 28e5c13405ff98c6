//! The command line.

use vstd::prelude::*;
use vstd::string::*;
use vstd::utf8::*;

use crate::paths::same_bytes;
use crate::text::{concat3, copy, lemma_encoding_injective, lossy_decoding, lossy_text};

verus! {

pub const USAGE_EXIT_CODE: i32 = 2;

#[derive(Clone, Copy, Debug, PartialEq, Eq, Structural)]
pub enum CliCommand {
    Run,
    Setup,
    Status,
    InstallService,
    UninstallService,
    /// Show the version of the program.
    Version,
}

/// What is said of a command line that cannot be run.
#[derive(Clone, Debug, PartialEq, Eq)]
pub struct CliError(pub String);

impl CliError {
    pub fn message(&self) -> (r: &str)
        ensures
            r@ == self.0@,
    {
        self.0.as_str()
    }
}

pub fn usage() -> (r: &'static str)
    ensures
        r@ == "usage: solstone-tmux [run|setup|status|install-service|uninstall-service]"@,
{
    "usage: solstone-tmux [run|setup|status|install-service|uninstall-service]"
}

/// The version of this program.
pub fn version() -> (r: &'static str)
    ensures
        r@ == "0.1.0"@,
{
    "0.1.0"
}

/// The command that an argument names.
pub open spec fn command_named(argument: Seq<u8>) -> Option<CliCommand> {
    if argument == encode_utf8("run"@) {
        Some(CliCommand::Run)
    } else if argument == encode_utf8("setup"@) {
        Some(CliCommand::Setup)
    } else if argument == encode_utf8("status"@) {
        Some(CliCommand::Status)
    } else if argument == encode_utf8("install-service"@) {
        Some(CliCommand::InstallService)
    } else if argument == encode_utf8("uninstall-service"@) {
        Some(CliCommand::UninstallService)
    } else if argument == encode_utf8("--version"@) {
        Some(CliCommand::Version)
    } else {
        None
    }
}

pub open spec fn asks_for_help(argument: Seq<u8>) -> bool {
    argument == encode_utf8("-h"@) || argument == encode_utf8("--help"@)
}

pub open spec fn complaint(what: Seq<char>, argument: Seq<u8>) -> Seq<char> {
    what + " '"@ + lossy_decoding(argument) + "'\n"@
        + "usage: solstone-tmux [run|setup|status|install-service|uninstall-service]"@
}

/// What a command line means: the first argument is the program, the second the
/// command, and there is no third.
pub open spec fn parsed(args: Seq<Vec<u8>>) -> Result<CliCommand, Seq<char>> {
    if args.len() <= 1 {
        Ok(CliCommand::Run)
    } else if command_named(args[1]@) is None {
        if asks_for_help(args[1]@) {
            Err("usage: solstone-tmux [run|setup|status|install-service|uninstall-service]"@)
        } else {
            Err(complaint("unknown command"@, args[1]@))
        }
    } else if args.len() > 2 {
        Err(complaint("unexpected argument"@, args[2]@))
    } else {
        Ok(command_named(args[1]@)->0)
    }
}

fn find_command(argument: &[u8]) -> (r: Option<CliCommand>)
    ensures
        r == command_named(argument@),
{
    if same_bytes(argument, "run".as_bytes()) {
        Some(CliCommand::Run)
    } else if same_bytes(argument, "setup".as_bytes()) {
        Some(CliCommand::Setup)
    } else if same_bytes(argument, "status".as_bytes()) {
        Some(CliCommand::Status)
    } else if same_bytes(argument, "install-service".as_bytes()) {
        Some(CliCommand::InstallService)
    } else if same_bytes(argument, "uninstall-service".as_bytes()) {
        Some(CliCommand::UninstallService)
    } else if same_bytes(argument, "--version".as_bytes()) {
        Some(CliCommand::Version)
    } else {
        None
    }
}

fn complain(what: &str, argument: &[u8]) -> (r: CliError)
    ensures
        r.0@ == complaint(what@, argument@),
{
    let mut out = concat3(what, " '", lossy_text(argument).as_str());
    out.append("'\n");
    out.append(usage());
    CliError(out)
}

/// What a command line means.
pub fn parse_args(args: &Vec<Vec<u8>>) -> (r: Result<CliCommand, CliError>)
    ensures
        match r {
            Ok(command) => parsed(args@) == Ok::<CliCommand, Seq<char>>(command),
            Err(error) => parsed(args@) == Err::<CliCommand, Seq<char>>(error.0@),
        },
{
    if args.len() <= 1 {
        return Ok(CliCommand::Run);
    }
    let argument = args[1].as_slice();
    let command = match find_command(argument) {
        Some(command) => command,
        None => {
            if same_bytes(argument, "-h".as_bytes()) || same_bytes(argument, "--help".as_bytes()) {
                return Err(CliError(copy(usage())));
            }
            return Err(complain("unknown command", argument));
        },
    };
    if args.len() > 2 {
        return Err(complain("unexpected argument", args[2].as_slice()));
    }
    Ok(command)
}

/// The word that names a command.
pub open spec fn word_of(command: CliCommand) -> Seq<char> {
    match command {
        CliCommand::Run => "run"@,
        CliCommand::Setup => "setup"@,
        CliCommand::Status => "status"@,
        CliCommand::InstallService => "install-service"@,
        CliCommand::UninstallService => "uninstall-service"@,
        CliCommand::Version => "--version"@,
    }
}

proof fn lemma_words_differ(a: Seq<char>, b: Seq<char>)
    requires
        a != b,
    ensures
        encode_utf8(a) != encode_utf8(b),
{
    if encode_utf8(a) == encode_utf8(b) {
        lemma_encoding_injective(a, b);
    }
}

/// A command is run exactly where the command line is its word alone; no argument at all
/// runs the observer, and a word more is refused.
pub proof fn lemma_command_is_read_back(args: Seq<Vec<u8>>, command: CliCommand)
    ensures
        args.len() == 2 && args[1]@ == encode_utf8(word_of(command)) ==> parsed(args) == Ok::<
            CliCommand,
            Seq<char>,
        >(command),
        args.len() <= 1 ==> parsed(args) == Ok::<CliCommand, Seq<char>>(CliCommand::Run),
        args.len() >= 2 && parsed(args) == Ok::<CliCommand, Seq<char>>(command) ==> args.len() == 2
            && args[1]@ == encode_utf8(word_of(command)),
        args.len() >= 3 ==> parsed(args) is Err,
{
    reveal_strlit("run");
    reveal_strlit("setup");
    reveal_strlit("status");
    reveal_strlit("install-service");
    reveal_strlit("uninstall-service");
    reveal_strlit("--version");
    let words = seq![
        "run"@,
        "setup"@,
        "status"@,
        "install-service"@,
        "uninstall-service"@,
        "--version"@,
    ];
    assert forall|i: int, j: int| 0 <= i < 6 && 0 <= j < 6 && i != j implies encode_utf8(
        #[trigger] words[i],
    ) != encode_utf8(#[trigger] words[j]) by {
        assert(words[i].len() != words[j].len());
        lemma_words_differ(words[i], words[j]);
    }
    assert(words[0] == "run"@ && words[1] == "setup"@ && words[2] == "status"@ && words[3]
        == "install-service"@ && words[4] == "uninstall-service"@ && words[5] == "--version"@);
}

/// A command line that cannot be run is answered with what is wrong with it, and the usage;
/// one that asks for help with the usage alone.
pub proof fn lemma_refused_command_lines(args: Seq<Vec<u8>>)
    ensures
        ({
            let usage = "usage: solstone-tmux [run|setup|status|install-service|uninstall-service]"@;
            let known = args.len() >= 2 && command_named(args[1]@) is Some;
            let help = args.len() >= 2 && (args[1]@ == encode_utf8("-h"@) || args[1]@
                == encode_utf8("--help"@));
            &&& args.len() >= 2 && !known && help ==> parsed(args) == Err::<CliCommand, Seq<char>>(
                usage,
            )
            &&& args.len() >= 2 && !known && !help ==> parsed(args) == Err::<
                CliCommand,
                Seq<char>,
            >("unknown command"@ + " '"@ + lossy_decoding(args[1]@) + "'\n"@ + usage)
            &&& args.len() >= 3 && known ==> parsed(args) == Err::<CliCommand, Seq<char>>(
                "unexpected argument"@ + " '"@ + lossy_decoding(args[2]@) + "'\n"@ + usage,
            )
        }),
{
}

} // verus!
