use bytes::Bytes;
use exoshell::pane::{Pane, Rect};
use exoshell::run::{ChildItem, LogItemSource, PaneMeta, Run, Status};

fn pane_rows(p: &Pane<PaneMeta>) -> Vec<Option<(PaneMeta, String)>> {
    let mut it = p.iter();
    let mut out = vec![];
    while let Some(row) = it.next() {
        out.push(row.map(|(m, s)| (m, s.to_string())));
    }
    out
}

#[test]
fn new_run_is_running_with_empty_log() {
    let r = Run::new("ls -l".to_string());
    assert_eq!("ls -l", r.command());
    assert_eq!(Status::Running, *r.status());
    assert_eq!(0, r.log_length());
}

#[test]
fn child_items_are_logged() {
    let mut r = Run::new("x".to_string());
    r.log_child_item(Ok(ChildItem::Stdout(Bytes::from(b"out\n".to_vec()))));
    r.log_child_item(Ok(ChildItem::Stderr(Bytes::from(b"err \xff".to_vec()))));
    r.log_child_item(Err("broken pipe".to_string()));
    r.log_child_item(Ok(ChildItem::Exit(Some(3))));
    assert_eq!(Status::Exited(Some(3)), *r.status());
    let log: Vec<(LogItemSource, String)> = r.log().to_vec();
    assert_eq!(
        vec![
            (LogItemSource::ChildOut, "out\n".to_string()),
            (LogItemSource::ChildErr, "err \u{fffd}".to_string()),
            (LogItemSource::ChildIO, "broken pipe".to_string()),
        ],
        log
    );
}

#[test]
fn execution_error_marks_failure() {
    let mut r = Run::new("nope".to_string());
    r.log_execution_error("not found".to_string());
    assert_eq!(Status::FailedToLaunch, *r.status());
    assert_eq!(
        vec![(LogItemSource::FailedToLaunch, "not found".to_string())],
        r.log().to_vec()
    );
}

#[test]
fn wrap_log_lines_marks_continuations() {
    let mut r = Run::new("x".to_string());
    r.log_child_item(Ok(ChildItem::Stdout(Bytes::from(b"abcdefg\nhi\n".to_vec()))));
    r.log_child_item(Ok(ChildItem::Stderr(Bytes::from(b"zz".to_vec()))));
    assert_eq!(
        vec![
            (PaneMeta::Line(LogItemSource::ChildOut), "abcde".to_string()),
            (PaneMeta::LineContinuation, "fg".to_string()),
            (PaneMeta::LineContinuation, "hi".to_string()),
            (PaneMeta::Line(LogItemSource::ChildErr), "zz".to_string()),
        ],
        r.wrap_log_lines(5)
    );
}

#[test]
fn render_into_writes_header_then_log() {
    let mut r = Run::new("a-long-command".to_string());
    r.log_child_item(Ok(ChildItem::Stdout(Bytes::from(b"hello\n".to_vec()))));
    let mut pane: Pane<PaneMeta> = Pane::from(Rect::new(6, 10));
    r.render_into(&mut pane).unwrap();
    assert_eq!(
        vec![
            Some((PaneMeta::Header(Status::Running), "a-lon\u{2026}".to_string())),
            Some((PaneMeta::Line(LogItemSource::ChildOut), "hello".to_string())),
        ],
        pane_rows(&pane)
    );
}
