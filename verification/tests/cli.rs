use solstone_tmux::cli::{parse_args, usage, version, CliCommand, USAGE_EXIT_CODE};

fn parse(args: &[&[u8]]) -> Result<CliCommand, String> {
    parse_args(&args.iter().map(|arg| arg.to_vec()).collect()).map_err(|error| error.message().to_owned())
}

#[test]
fn commands_are_known() {
    assert_eq!(parse(&[]), Ok(CliCommand::Run));
    assert_eq!(parse(&[b"solstone-tmux"]), Ok(CliCommand::Run));
    assert_eq!(parse(&[b"x", b"run"]), Ok(CliCommand::Run));
    assert_eq!(parse(&[b"x", b"setup"]), Ok(CliCommand::Setup));
    assert_eq!(parse(&[b"x", b"status"]), Ok(CliCommand::Status));
    assert_eq!(parse(&[b"x", b"install-service"]), Ok(CliCommand::InstallService));
    assert_eq!(parse(&[b"x", b"uninstall-service"]), Ok(CliCommand::UninstallService));
    assert_eq!(parse(&[b"x", b"--version"]), Ok(CliCommand::Version));
    assert_eq!(version(), "0.1.0");
    assert_eq!(USAGE_EXIT_CODE, 2);
}

#[test]
fn other_arguments_are_refused() {
    assert_eq!(parse(&[b"x", b"-h"]), Err(usage().to_owned()));
    assert_eq!(parse(&[b"x", b"--help"]), Err(usage().to_owned()));
    assert_eq!(
        parse(&[b"x", b"go"]),
        Err(format!("unknown command 'go'\n{}", usage()))
    );
    assert_eq!(
        parse(&[b"x", b"g\xff"]),
        Err(format!("unknown command 'g\u{fffd}'\n{}", usage()))
    );
    assert_eq!(
        parse(&[b"x", b"run", b"more"]),
        Err(format!("unexpected argument 'more'\n{}", usage()))
    );
}
