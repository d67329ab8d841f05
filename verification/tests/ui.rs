use bytes::Bytes;
use exoshell::pane::Rect;
use exoshell::run::{ChildItem, LogItemSource, PaneMeta, Run, Status};
use exoshell::ui::{last_row, layout_runs, FullRowMeta, InputLine, Key, KeyOutcome};

#[test]
fn input_line_keys() {
    let mut l = InputLine::new();
    assert!(matches!(l.handle_key(Key::Char('l')), KeyOutcome::Redraw));
    assert!(matches!(l.handle_key(Key::Char('s')), KeyOutcome::Redraw));
    assert!(matches!(l.handle_key(Key::Other), KeyOutcome::Ignore));
    assert_eq!("ls", l.text());
    match l.handle_key(Key::Enter) {
        KeyOutcome::Submit(s) => assert_eq!("ls", s),
        other => panic!("unexpected {other:?}"),
    }
    assert_eq!("", l.text());
}

#[test]
fn last_row_is_prompt() {
    assert_eq!(23, last_row(Rect::new(80, 24)));
}

fn view(rows: Vec<exoshell::ui::ScreenRow>) -> Vec<(u16, FullRowMeta, String)> {
    rows.into_iter().map(|r| (r.row, r.meta, r.text)).collect()
}

#[test]
fn layout_stacks_runs_newest_at_bottom() {
    let a = Run::new("a".to_string());
    let mut b = Run::new("b".to_string());
    b.log_child_item(Ok(ChildItem::Stdout(Bytes::from(b"1\n2\n".to_vec()))));
    let rows = layout_runs(Rect::new(10, 8), &[a, b]).unwrap();
    // the prompt is row 7, so runs fill the rows above row 6, newest lowest
    assert_eq!(
        vec![
            (3, FullRowMeta::PaneMeta(PaneMeta::Header(Status::Running)), "b".to_string()),
            (4, FullRowMeta::PaneMeta(PaneMeta::Line(LogItemSource::ChildOut)), "1".to_string()),
            (5, FullRowMeta::PaneMeta(PaneMeta::LineContinuation), "2".to_string()),
            (2, FullRowMeta::PaneMeta(PaneMeta::Header(Status::Running)), "a".to_string()),
        ],
        view(rows)
    );
}

#[test]
fn layout_truncates_tall_runs() {
    let mut b = Run::new("b".to_string());
    b.log_child_item(Ok(ChildItem::Stdout(Bytes::from(b"1\n2\n3\n4\n5\n".to_vec()))));
    let rows = layout_runs(Rect::new(10, 6), &[b]).unwrap();
    assert_eq!(
        vec![
            (0, FullRowMeta::PaneMeta(PaneMeta::Header(Status::Running)), "b".to_string()),
            (1, FullRowMeta::RowTruncation, "".to_string()),
            (2, FullRowMeta::PaneMeta(PaneMeta::LineContinuation), "4".to_string()),
            (3, FullRowMeta::PaneMeta(PaneMeta::LineContinuation), "5".to_string()),
        ],
        view(rows)
    );
}

#[test]
fn layout_overflows_one_row_pane() {
    let mut b = Run::new("b".to_string());
    b.log_child_item(Ok(ChildItem::Stdout(Bytes::from(b"1\n".to_vec()))));
    assert!(layout_runs(Rect::new(10, 3), &[b]).is_none());
}

#[test]
fn layout_without_runs_is_empty_on_small_terminals() {
    assert!(layout_runs(Rect::new(0, 2), &[]).unwrap().is_empty());
}
