use exoshell::command;
use exoshell::command::{from_str, CommandError, Command, SubcommandError};

fn argv(c: &Command) -> Vec<String> {
    let mut v = vec![c.program().to_string()];
    v.extend(c.args().iter().cloned());
    v
}

fn args(a: &[&str]) -> Vec<String> {
    a.iter().map(|s| s.to_string()).collect()
}

#[test]
fn parse_subcommands() {
    let cmds = parse_subcommands_ok(&["foo"]);
    assert_eq!(vec![vec!["foo".to_string()]], cmds);
}

fn parse_subcommands_ok(a: &[&str]) -> Vec<Vec<String>> {
    command::parse_subcommands(&args(a))
        .unwrap()
        .iter()
        .map(argv)
        .collect()
}

#[test]
fn parse_subcommands_splits_on_separator() {
    assert_eq!(
        vec![args(&["ls", "-l"]), args(&["echo", "a", "b"])],
        parse_subcommands_ok(&["ls", "-l", "--", "echo", "a", "b"])
    );
}

#[test]
fn parse_subcommands_errors() {
    assert_eq!(SubcommandError::NoCommand, command::parse_subcommands(&args(&[])).unwrap_err());
    assert_eq!(
        SubcommandError::SeparatorWithoutCommand,
        command::parse_subcommands(&args(&["--", "ls"])).unwrap_err()
    );
    assert_eq!(
        SubcommandError::SeparatorWithoutCommand,
        command::parse_subcommands(&args(&["ls", "--", "--", "ls"])).unwrap_err()
    );
    assert_eq!(
        SubcommandError::TrailingSeparator,
        command::parse_subcommands(&args(&["ls", "--"])).unwrap_err()
    );
}

#[test]
fn from_str_splits_on_ascii_whitespace() {
    let c = from_str("  echo\thello   world \n").unwrap();
    assert_eq!(args(&["echo", "hello", "world"]), argv(&c));
    assert_eq!(CommandError::Empty, from_str(" \t ").unwrap_err());
}

#[test]
fn command_line_builder() {
    let mut c = Command::new("git".to_string());
    c.arg("status".to_string());
    assert_eq!(args(&["git", "status"]), argv(&c));
}
