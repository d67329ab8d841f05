use exoshell::pane::{truncation_heights, Pane, Rect};

#[test]
fn truncation_heights_cases() {
    assert_eq!((1, 0), truncation_heights(1));
    assert_eq!((1, 0), truncation_heights(2));
    assert_eq!((1, 1), truncation_heights(3));
    assert_eq!((1, 2), truncation_heights(4));
    assert_eq!((2, 2), truncation_heights(5));
    assert_eq!((2, 3), truncation_heights(6));
    assert_eq!((3, 3), truncation_heights(7));
}

fn rows(p: &Pane<u32>) -> Vec<Option<(u32, String)>> {
    let mut it = p.iter();
    let mut out = vec![];
    while let Some(row) = it.next() {
        out.push(row.map(|(m, s)| (m, s.to_string())));
    }
    out
}

#[test]
fn rect_accessors() {
    let r = Rect::new(80u16, 24u16);
    assert_eq!(80, r.width());
    assert_eq!(24, r.height());
    let r = Rect::from((3u16, 4u16));
    assert_eq!((3, 4), (r.width(), r.height()));
    let big: Rect<usize> = r.convert_into();
    assert_eq!((3usize, 4usize), (big.width(), big.height()));
}

#[test]
fn pane_keeps_all_rows_while_they_fit() {
    let mut p: Pane<u32> = Pane::from(Rect::new(10, 3));
    assert_eq!((10, 3), (p.width(), p.height()));
    assert_eq!(0, p.content_len());
    p.append_line(1, "a".to_string()).unwrap();
    p.append_line(2, "b".to_string()).unwrap();
    p.append_line(3, "c".to_string()).unwrap();
    assert_eq!(3, p.content_len());
    assert_eq!(
        vec![
            Some((1, "a".to_string())),
            Some((2, "b".to_string())),
            Some((3, "c".to_string()))
        ],
        rows(&p)
    );
}

#[test]
fn pane_truncates_keeping_first_and_latest_rows() {
    let mut p: Pane<u32> = Pane::from(Rect::new(10, 5));
    for i in 0..9u32 {
        p.append_line(i, format!("row{i}")).unwrap();
    }
    assert_eq!(5, p.content_len());
    assert_eq!(
        vec![
            Some((0, "row0".to_string())),
            Some((1, "row1".to_string())),
            None,
            Some((7, "row7".to_string())),
            Some((8, "row8".to_string())),
        ],
        rows(&p)
    );
}

#[test]
fn pane_of_height_one_shows_first_row_and_indicator() {
    let mut p: Pane<u32> = Pane::from(Rect::new(10, 1));
    for i in 0..4u32 {
        p.append_line(i, format!("r{i}")).unwrap();
    }
    assert_eq!(2, p.content_len());
    assert_eq!(vec![Some((0, "r0".to_string())), None], rows(&p));
}

#[test]
fn pane_refuses_lines_wider_than_itself() {
    let mut p: Pane<u32> = Pane::from(Rect::new(3, 2));
    let err = p.append_line(7, "abcd".to_string()).unwrap_err();
    assert_eq!("abcd", err.line);
    assert_eq!(3, err.width);
    assert_eq!(0, p.content_len());
    // width counts characters, not bytes
    p.append_line(8, "\u{2022}\u{2022}\u{2022}".to_string()).unwrap();
    assert_eq!(1, p.content_len());
}

#[test]
fn zero_height_pane_refuses_wide_line() {
    let mut p: Pane<u32> = Pane::from(Rect::new(1, 0));
    let err = p.append_line(1, "ab".to_string()).unwrap_err();
    assert_eq!(1, err.width);
    assert_eq!(0, p.content_len());
}

#[test]
fn pane_after_n_appends_shows_min_of_n_and_height() {
    for n in 0..12u32 {
        let mut p: Pane<u32> = Pane::from(Rect::new(4, 6));
        for i in 0..n {
            p.append_line(i, format!("{i}")).unwrap();
        }
        assert_eq!(std::cmp::min(n as usize, 6), p.content_len());
    }
}
