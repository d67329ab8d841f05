use exoshell::glyphs::{exit_glyph, CharBytes, Glyph};
use exoshell::run::{LogItemSource, PaneMeta, Status};
use exoshell::ui::FullRowMeta;

#[test]
fn char_bytes_match_utf8() {
    for c in ['a', '\u{e9}', '\u{21bb}', '\u{1f422}', '\0', '\u{7f}', '\u{80}', '\u{7ff}', '\u{800}', '\u{ffff}', '\u{10000}', '\u{10ffff}'] {
        let mut buf = [0u8; 4];
        let expected = c.encode_utf8(&mut buf).as_bytes().to_vec();
        assert_eq!(expected, CharBytes::new(c).as_bytes().to_vec(), "{c:?}");
    }
}

#[test]
fn glyphs() {
    assert_eq!('q', 'q'.glyph());
    assert_eq!('\u{21bb}', Status::Running.glyph());
    assert_eq!('\u{26a0}', Status::FailedToLaunch.glyph());
    assert_eq!('\u{2713}', Status::Exited(Some(0)).glyph());
    assert_eq!('\u{2717}', Status::Exited(Some(1)).glyph());
    assert_eq!('?', Status::Exited(None).glyph());
    assert_eq!('?', exit_glyph(None));
    assert_eq!('X', LogItemSource::ChildIO.glyph());
    assert_eq!('\u{2022}', LogItemSource::ChildOut.glyph());
    assert_eq!('\u{26a0}', LogItemSource::ChildErr.glyph());
    assert_eq!('\u{26a0}', LogItemSource::FailedToLaunch.glyph());
    assert_eq!(' ', PaneMeta::LineContinuation.glyph());
    assert_eq!('\u{2022}', PaneMeta::Line(LogItemSource::ChildOut).glyph());
    assert_eq!('\u{21bb}', PaneMeta::Header(Status::Running).glyph());
    assert_eq!('\u{22ee}', FullRowMeta::RowTruncation.glyph());
    assert_eq!(
        '\u{2713}',
        FullRowMeta::PaneMeta(PaneMeta::Header(Status::Exited(Some(0)))).glyph()
    );
}
