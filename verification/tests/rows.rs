use exoshell::rows::{format_rows, truncate_string, FormatRows};

fn check(input: &str, expected: &[&str]) {
    let actual = format_rows(5, input);
    assert_eq!(expected.to_vec(), actual);
}

#[test]
fn format_rows_cases() {
    check("", &[]);
    check("ab", &["ab"]);
    check("abcdefg", &["abcde", "fg"]);
    check("abc\ndefg", &["abc", "defg"]);
    check("abcdef\n\nghi", &["abcde", "f", "", "ghi"]);
}

#[test]
fn format_rows_iterates() {
    let mut it = FormatRows::new(2, "abc");
    assert_eq!(Some("ab".to_string()), it.next());
    assert_eq!(Some("c".to_string()), it.next());
    assert_eq!(None, it.next());
}

#[test]
fn format_rows_counts_characters() {
    assert_eq!(vec!["\u{e9}\u{e9}", "\u{e9}"], format_rows(2, "\u{e9}\u{e9}\u{e9}"));
}

#[test]
fn truncate_string_cases() {
    assert_eq!("abc", truncate_string("abc", 3));
    assert_eq!("ab\u{2026}", truncate_string("abcd", 3));
    assert_eq!("\u{2026}", truncate_string("abcd", 1));
    assert_eq!("", truncate_string("", 0));
}

#[test]
fn zero_width_empty_text_has_no_rows() {
    assert!(format_rows(0, "").is_empty());
    let mut it = FormatRows::new(0, "");
    assert_eq!(None, it.next());
}
