use bytes::Bytes;
use exoshell::run::{ChildItem, LogItemSource, Status};
use exoshell::runner::{CommandAction, Event, RunIndexError, Runner};

#[test]
fn exit_and_blank_lines() {
    let mut r = Runner::new();
    assert!(matches!(r.handle_command("  exit \n"), CommandAction::Quit));
    assert!(matches!(r.handle_command("   "), CommandAction::Nothing));
    assert_eq!(0, r.runs().len());
}

#[test]
fn commands_become_runs_to_launch() {
    let mut r = Runner::new();
    match r.handle_command("  echo hi  ") {
        CommandAction::Launch { runix, command } => {
            assert_eq!(0, runix);
            assert_eq!("echo", command.program());
            assert_eq!(vec!["hi".to_string()], command.args().to_vec());
        }
        other => panic!("unexpected {other:?}"),
    }
    match r.handle_command("ls") {
        CommandAction::Launch { runix, .. } => assert_eq!(1, runix),
        other => panic!("unexpected {other:?}"),
    }
    assert_eq!(2, r.runs().len());
    assert_eq!("echo hi", r.runs()[0].command());
}

#[test]
fn unicode_white_space_is_trimmed() {
    let mut r = Runner::new();
    // U+0085 is Unicode white space, so trimming removes it.
    assert!(matches!(r.handle_command("\u{85}x\u{85}"), CommandAction::Launch { .. }));
    assert_eq!("x", r.runs()[0].command());
}

#[test]
fn events_go_to_their_run() {
    let mut r = Runner::new();
    let _ = r.handle_command("a");
    let _ = r.handle_command("b");
    r.handle_event(Event::new(1, Ok(ChildItem::Stdout(Bytes::from(b"hey".to_vec())))))
        .unwrap();
    r.handle_event(Event::new(0, Ok(ChildItem::Exit(Some(0))))).unwrap();
    assert_eq!(Status::Exited(Some(0)), *r.runs()[0].status());
    assert_eq!(0, r.runs()[0].log_length());
    assert_eq!(Status::Running, *r.runs()[1].status());
    assert_eq!(
        vec![(LogItemSource::ChildOut, "hey".to_string())],
        r.runs()[1].log().to_vec()
    );
    assert_eq!(
        RunIndexError { runix: 5, runs: 2 },
        r.handle_event(Event::new(5, Err("x".to_string()))).unwrap_err()
    );
}

#[test]
fn launch_failure_is_recorded() {
    let mut r = Runner::new();
    let _ = r.handle_command("nosuchprogram");
    r.launch_failed(0, "No such file or directory".to_string()).unwrap();
    assert_eq!(Status::FailedToLaunch, *r.runs()[0].status());
    assert_eq!(
        RunIndexError { runix: 1, runs: 1 },
        r.launch_failed(1, "x".to_string()).unwrap_err()
    );
}
