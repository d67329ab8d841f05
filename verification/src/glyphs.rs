//! The one-character glyphs shown in front of rows, and their UTF-8 bytes.
use crate::run::{LogItemSource, PaneMeta, Status};
use vstd::prelude::*;
use vstd::utf8::encode_scalar;

verus! {

/// `↻`: a run still going.
pub const RUNNING: char = '\u{21BB}';

/// `⚠`: a run that could not start, or output on standard error.
pub const FAILED_TO_LAUNCH: char = '\u{26A0}';

/// `✓`: a run that exited with code 0.
pub const SUCCESS: char = '\u{2713}';

/// `✗`: a run that exited with another code.
pub const FAILURE: char = '\u{2717}';

/// `•`: output on standard output.
pub const CHILD_OUT: char = '\u{2022}';

/// `⋮`: the truncation indicator row.
pub const VERTICAL_TRUNCATION: char = '\u{22EE}';

/// `>`: the prompt row.
pub const HEADER_INDICATOR: char = '>';

/// Something shown with a one-character glyph.
pub trait Glyph {
    /// The glyph.
    spec fn spec_glyph(&self) -> char;

    /// The glyph.
    fn glyph(&self) -> (c: char)
        ensures
            c == self.spec_glyph(),
    ;
}

impl Glyph for char {
    open spec fn spec_glyph(&self) -> char {
        *self
    }

    fn glyph(&self) -> (c: char) {
        *self
    }
}

/// The glyph of an exit: `?` without an exit code, `✓` for code 0 and `✗`
/// otherwise.
pub open spec fn exit_glyph_spec(code: Option<i32>) -> char {
    match code {
        None => '?',
        Some(0) => SUCCESS,
        Some(_) => FAILURE,
    }
}

/// The glyph of an exit.
pub fn exit_glyph(code: Option<i32>) -> (c: char)
    ensures
        c == exit_glyph_spec(code),
        code is None ==> c == '?',
        code matches Some(k) ==> (c == '\u{2713}' <==> k == 0),
        code matches Some(k) ==> (c == '\u{2717}' <==> k != 0),
{
    match code {
        None => '?',
        Some(0) => SUCCESS,
        Some(_) => FAILURE,
    }
}

/// Law: an exit is shown as a success (`✓`) exactly when its code is 0, as a
/// failure (`✗`) exactly when it has another code, and as `?` without a
/// code; a run's status shows the same glyph for its exit.
pub proof fn law_exit_glyph(code: i32)
    ensures
        exit_glyph_spec(Some(code)) == '\u{2713}' <==> code == 0,
        exit_glyph_spec(Some(code)) == '\u{2717}' <==> code != 0,
        exit_glyph_spec(None) == '?',
        Status::Exited(Some(code)).spec_glyph() == exit_glyph_spec(Some(code)),
        Status::Exited(None).spec_glyph() == '?',
{
}

impl Glyph for Status {
    open spec fn spec_glyph(&self) -> char {
        match *self {
            Status::Running => RUNNING,
            Status::FailedToLaunch => FAILED_TO_LAUNCH,
            Status::Exited(code) => exit_glyph_spec(code),
        }
    }

    fn glyph(&self) -> (c: char) {
        match self {
            Status::Running => RUNNING,
            Status::FailedToLaunch => FAILED_TO_LAUNCH,
            Status::Exited(code) => exit_glyph(*code),
        }
    }
}

impl Glyph for LogItemSource {
    open spec fn spec_glyph(&self) -> char {
        match *self {
            LogItemSource::FailedToLaunch => FAILED_TO_LAUNCH,
            LogItemSource::ChildIO => 'X',
            LogItemSource::ChildOut => CHILD_OUT,
            LogItemSource::ChildErr => FAILED_TO_LAUNCH,
        }
    }

    fn glyph(&self) -> (c: char) {
        match self {
            LogItemSource::FailedToLaunch => FAILED_TO_LAUNCH,
            LogItemSource::ChildIO => 'X',
            LogItemSource::ChildOut => CHILD_OUT,
            LogItemSource::ChildErr => FAILED_TO_LAUNCH,
        }
    }
}

impl Glyph for PaneMeta {
    open spec fn spec_glyph(&self) -> char {
        match *self {
            PaneMeta::Header(s) => s.spec_glyph(),
            PaneMeta::Line(src) => src.spec_glyph(),
            PaneMeta::LineContinuation => ' ',
        }
    }

    fn glyph(&self) -> (c: char) {
        match self {
            PaneMeta::Header(s) => s.glyph(),
            PaneMeta::Line(src) => src.glyph(),
            PaneMeta::LineContinuation => ' ',
        }
    }
}

/// The UTF-8 encoding of a character, held without allocating.
pub struct CharBytes {
    len: usize,
    buf: [u8; 4],
}

impl CharBytes {
    #[verifier::type_invariant]
    closed spec fn inv(&self) -> bool {
        1 <= self.len <= 4
    }

    /// The encoded bytes.
    pub closed spec fn spec_bytes(&self) -> Seq<u8> {
        self.buf@.take(self.len as int)
    }

    /// The UTF-8 encoding of `c`.
    pub fn new(c: char) -> (r: Self)
        ensures
            r.spec_bytes() == encode_scalar(c as u32),
    {
        let v = c as u32;
        proof {
            vstd::utf8::char_is_scalar(c);
        }
        let r = if v <= 0x7F {
            CharBytes { len: 1, buf: [(v & 0x7F) as u8, 0, 0, 0] }
        } else if v <= 0x7FF {
            CharBytes {
                len: 2,
                buf: [0xC0 | ((v >> 6) & 0x1F) as u8, 0x80 | (v & 0x3F) as u8, 0, 0],
            }
        } else if v <= 0xFFFF {
            CharBytes {
                len: 3,
                buf: [
                    0xE0 | ((v >> 12) & 0x0F) as u8,
                    0x80 | ((v >> 6) & 0x3F) as u8,
                    0x80 | (v & 0x3F) as u8,
                    0,
                ],
            }
        } else {
            CharBytes {
                len: 4,
                buf: [
                    0xF0 | ((v >> 18) & 0x7) as u8,
                    0x80 | ((v >> 12) & 0x3F) as u8,
                    0x80 | ((v >> 6) & 0x3F) as u8,
                    0x80 | (v & 0x3F) as u8,
                ],
            }
        };
        assert(r.spec_bytes() =~= encode_scalar(v));
        r
    }

    /// The encoded bytes.
    pub fn as_bytes(&self) -> (b: &[u8])
        ensures
            b@ == self.spec_bytes(),
    {
        proof {
            use_type_invariant(self);
        }
        &self.buf.as_slice()[0..self.len]
    }
}

} // verus!
