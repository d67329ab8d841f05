use exoshell::command::SubcommandError;
use exoshell::iomux::{output_text, source_tag, ChildState, Options, OutputSource};

#[test]
fn child_state_starts_empty() {
    let s = ChildState::new(42);
    assert_eq!(42, s.pid);
    assert_eq!(None, s.outbuf.drain_remainder());
    assert_eq!(None, s.errbuf.drain_remainder());
}

#[test]
fn output_tags_and_text() {
    assert_eq!(' ', source_tag(OutputSource::Stdout));
    assert_eq!('!', source_tag(OutputSource::Stderr));
    assert_eq!("hi\n", output_text(b"hi\n"));
    assert_eq!("hi\n", output_text(b"hi"));
    assert_eq!("\n", output_text(b""));
}

#[test]
fn options_from_args() {
    let args: Vec<String> = ["a", "--", "b", "x"].iter().map(|s| s.to_string()).collect();
    let o = Options::from_args(&args).unwrap();
    assert_eq!(2, o.subcommands.len());
    assert_eq!("b", o.subcommands[1].program());
    assert_eq!(SubcommandError::NoCommand, Options::from_args(&[]).unwrap_err());
}
