//! The shell's screen: the line being typed, and where the runs are drawn.
use crate::glyphs::{Glyph, VERTICAL_TRUNCATION};
use crate::pane::{append_all, ContentView, Pane, Rect};
use crate::run::{PaneMeta, Run};
use crate::text::push_char;
use vstd::prelude::*;

verus! {

/// A key press, as far as the shell cares.
#[derive(Clone, Copy, Debug, PartialEq, Eq, Structural)]
pub enum Key {
    /// The Enter key.
    Enter,
    /// A character key.
    Char(char),
    /// Any other key.
    Other,
}

/// What a key press asks of the caller.
#[derive(Debug)]
pub enum KeyOutcome {
    /// Run this command line; the input line is now empty.
    Submit(String),
    /// The input line changed: draw the prompt again.
    Redraw,
    /// Nothing changed.
    Ignore,
}

/// The line being typed at the prompt.
#[derive(Debug)]
pub struct InputLine {
    inbuf: String,
}

impl InputLine {
    /// The text typed so far.
    pub closed spec fn spec_text(&self) -> Seq<char> {
        self.inbuf@
    }

    /// An empty input line.
    pub fn new() -> (l: Self)
        ensures
            l.spec_text() == Seq::<char>::empty(),
    {
        InputLine { inbuf: String::new() }
    }

    /// The text typed so far.
    pub fn text(&self) -> (t: &str)
        ensures
            t@ == self.spec_text(),
    {
        self.inbuf.as_str()
    }

    /// Act on a key press: Enter hands out the line and empties it, a
    /// character is appended, other keys are ignored.
    pub fn handle_key(&mut self, key: Key) -> (outcome: KeyOutcome)
        ensures
            match key {
                Key::Enter => {
                    &&& outcome matches KeyOutcome::Submit(line)
                    &&& line@ == old(self).spec_text()
                    &&& final(self).spec_text() == Seq::<char>::empty()
                },
                Key::Char(c) => {
                    &&& outcome is Redraw
                    &&& final(self).spec_text() == old(self).spec_text().push(c)
                },
                Key::Other => outcome is Ignore && final(self).spec_text() == old(self).spec_text(),
            },
    {
        match key {
            Key::Enter => {
                let mut line = String::new();
                std::mem::swap(&mut line, &mut self.inbuf);
                KeyOutcome::Submit(line)
            },
            Key::Char(c) => {
                push_char(&mut self.inbuf, c);
                KeyOutcome::Redraw
            },
            Key::Other => KeyOutcome::Ignore,
        }
    }
}

/// The metadata of a screen row that shows a run.
#[derive(Clone, Copy, Debug, PartialEq, Eq, Structural)]
pub enum FullRowMeta {
    /// A row of a run's pane.
    PaneMeta(PaneMeta),
    /// The row that stands for rows left out.
    RowTruncation,
}

impl Glyph for FullRowMeta {
    open spec fn spec_glyph(&self) -> char {
        match *self {
            FullRowMeta::PaneMeta(m) => m.spec_glyph(),
            FullRowMeta::RowTruncation => VERTICAL_TRUNCATION,
        }
    }

    fn glyph(&self) -> (c: char) {
        match self {
            FullRowMeta::PaneMeta(m) => m.glyph(),
            FullRowMeta::RowTruncation => VERTICAL_TRUNCATION,
        }
    }
}

/// The index of the last row of a terminal of the given size: the prompt row.
pub fn last_row(termsize: Rect<u16>) -> (r: u16)
    requires
        termsize.spec_height() >= 1,
    ensures
        r == termsize.spec_height() - 1,
{
    termsize.height() - 1
}

/// A row to draw: its index on the screen, its metadata and its text.
#[derive(Debug)]
pub struct ScreenRow {
    pub row: u16,
    pub meta: FullRowMeta,
    pub text: String,
}

/// The abstract value of a row to draw.
pub open spec fn screen_row_view(r: ScreenRow) -> (int, FullRowMeta, Seq<char>) {
    (r.row as int, r.meta, r.text@)
}

/// The screen metadata and text of a pane row; `None` is the truncation row.
pub open spec fn row_meta(r: Option<(PaneMeta, Seq<char>)>) -> (FullRowMeta, Seq<char>) {
    match r {
        Some((m, s)) => (FullRowMeta::PaneMeta(m), s),
        None => (FullRowMeta::RowTruncation, Seq::empty()),
    }
}

/// The rows of a pane of width `w` and height `h` into which `run` was
/// rendered.
pub open spec fn pane_rows(run: Run, w: nat, h: nat) -> Seq<Option<(PaneMeta, Seq<char>)>> {
    append_all(ContentView::<PaneMeta>::Full(Seq::empty()), h, run.render_rows(w)).rows()
}

/// The rows drawn for `runs`, newest first, each in a pane of width `w` whose
/// bottom is just above row `bottom`; `None` when a run's pane is taller than
/// the rows left.
pub open spec fn layout_spec(w: nat, bottom: nat, runs: Seq<Run>) -> Option<
    Seq<(int, FullRowMeta, Seq<char>)>,
>
    decreases runs.len(),
{
    if runs.len() == 0 {
        Some(Seq::empty())
    } else {
        let rows = pane_rows(runs.last(), w, bottom);
        if rows.len() > bottom {
            None
        } else {
            let nb = (bottom - rows.len()) as nat;
            let mine = rows.map(
                |i: int, r: Option<(PaneMeta, Seq<char>)>| (nb + i, row_meta(r).0, row_meta(r).1),
            );
            if nb == 0 {
                Some(mine)
            } else {
                match layout_spec(w, nb, runs.drop_last()) {
                    Some(rest) => Some(mine + rest),
                    None => None,
                }
            }
        }
    }
}

/// Law: the rows drawn for the runs all lie above row `bottom`, so the runs
/// never overwrite the prompt row and never go past the top of the screen.
pub proof fn law_layout_in_bounds(w: nat, bottom: nat, runs: Seq<Run>)
    ensures
        layout_spec(w, bottom, runs) matches Some(v) ==> forall|i: int|
            0 <= i < v.len() ==> 0 <= (#[trigger] v[i]).0 < bottom,
    decreases runs.len(),
{
    if runs.len() > 0 {
        let rows = pane_rows(runs.last(), w, bottom);
        if rows.len() <= bottom {
            let nb = (bottom - rows.len()) as nat;
            let mine = rows.map(
                |i: int, r: Option<(PaneMeta, Seq<char>)>| (nb + i, row_meta(r).0, row_meta(r).1),
            );
            if nb > 0 {
                law_layout_in_bounds(w, nb, runs.drop_last());
                if let Some(rest) = layout_spec(w, nb, runs.drop_last()) {
                    let v = mine + rest;
                    assert forall|i: int| 0 <= i < v.len() implies 0 <= (#[trigger] v[i]).0 < bottom by {
                        if i >= mine.len() {
                            assert(v[i] == rest[i - mine.len()]);
                        }
                    }
                }
            }
        }
    }
}

/// `rows` followed by the rows of `rest`, if there are any.
pub open spec fn prepend_rows(
    rows: Seq<(int, FullRowMeta, Seq<char>)>,
    rest: Option<Seq<(int, FullRowMeta, Seq<char>)>>,
) -> Option<Seq<(int, FullRowMeta, Seq<char>)>> {
    match rest {
        Some(r) => Some(rows + r),
        None => None,
    }
}

/// The rows that show the runs on a terminal of the given size, newest run
/// at the bottom just above the prompt row, older runs above it while rows
/// are left; `None` when a run's pane would be taller than the rows left.
/// Without runs nothing is drawn, on a terminal of any width.
pub fn layout_runs(size: Rect<u16>, runs: &[Run]) -> (rows: Option<Vec<ScreenRow>>)
    requires
        size.spec_height() >= 2,
        runs@.len() > 0 ==> size.spec_height() >= 3 && size.spec_width() >= 2,
    ensures
        match layout_spec(
            (size.spec_width() - 1) as nat,
            (size.spec_height() - 2) as nat,
            runs@,
        ) {
            Some(v) => rows matches Some(r) && r@.map_values(|x: ScreenRow| screen_row_view(x))
                == v,
            None => rows is None,
        },
{
    if runs.len() == 0 {
        let none: Vec<ScreenRow> = Vec::new();
        proof {
            assert(none@.map_values(|x: ScreenRow| screen_row_view(x)) =~= Seq::<
                (int, FullRowMeta, Seq<char>),
            >::empty());
        }
        return Some(none);
    }
    let width = size.width() - 1;
    let ghost w = width as nat;
    let ghost all = runs@;
    let mut row_bottom: u16 = last_row(size) - 1;
    let mut out: Vec<ScreenRow> = Vec::new();
    let mut i: usize = runs.len();
    proof {
        assert(all.take(i as int) =~= all);
        match layout_spec(w, row_bottom as nat, all) {
            Some(r) => {
                assert(Seq::<(int, FullRowMeta, Seq<char>)>::empty() + r =~= r);
            },
            None => {},
        }
    }
    while i > 0
        invariant
            i <= runs@.len(),
            all == runs@,
            width >= 1,
            w == width,
            width == size.spec_width() - 1,
            row_bottom > 0,
            layout_spec(w, (size.spec_height() - 2) as nat, all) == prepend_rows(
                out@.map_values(|x: ScreenRow| screen_row_view(x)),
                layout_spec(w, row_bottom as nat, all.take(i as int)),
            ),
        decreases i,
    {
        let ghost runs_i = all.take(i as int);
        let run = &runs[i - 1];
        proof {
            assert(runs_i.last() == *run);
            assert(runs_i.drop_last() =~= all.take(i - 1));
        }
        let mut pane: Pane<PaneMeta> = Pane::from(Rect::new(width, row_bottom));
        let _ = run.render_into(&mut pane);
        let len = pane.content_len();
        let ghost prows = pane_rows(*run, w, row_bottom as nat);
        proof {
            crate::pane::lemma_rows_len(pane.spec_content());
            assert(pane.spec_content().rows() == prows);
            assert(prows.len() == len);
        }
        if len > row_bottom as usize {
            proof {
                assert(layout_spec(w, row_bottom as nat, runs_i) is None);
            }
            return None;
        }
        let nb: u16 = row_bottom - len as u16;
        let ghost before = out@.map_values(|x: ScreenRow| screen_row_view(x));
        let ghost mine = prows.map(
            |k: int, r: Option<(PaneMeta, Seq<char>)>| (nb + k, row_meta(r).0, row_meta(r).1),
        );
        let mut it = pane.iter();
        let mut k: usize = 0;
        while k < len
            invariant
                k <= len,
                len == prows.len(),
                it.spec_rows() == prows,
                it.spec_pos() == k,
                nb + len <= row_bottom,
                mine == prows.map(
                    |k: int, r: Option<(PaneMeta, Seq<char>)>| (nb + k, row_meta(r).0, row_meta(r).1),
                ),
                out@.map_values(|x: ScreenRow| screen_row_view(x)) == before + mine.take(k as int),
            decreases len - k,
        {
            let item = it.next();
            let ghost prev = out@.map_values(|x: ScreenRow| screen_row_view(x));
            let row = nb + k as u16;
            match item {
                Some(Some((m, s))) => {
                    out.push(ScreenRow { row, meta: FullRowMeta::PaneMeta(m), text: s.to_owned() });
                },
                Some(None) => {
                    out.push(ScreenRow { row, meta: FullRowMeta::RowTruncation, text: String::new() });
                },
                None => {},
            }
            proof {
                assert(mine.take(k + 1) =~= mine.take(k as int).push(mine[k as int]));
                assert(out@.map_values(|x: ScreenRow| screen_row_view(x)) =~= prev.push(
                    mine[k as int],
                ));
            }
            k = k + 1;
        }
        proof {
            assert(mine.take(len as int) =~= mine);
        }
        let ghost old_bottom = row_bottom;
        row_bottom = nb;
        i = i - 1;
        if row_bottom == 0 {
            proof {
                assert(layout_spec(w, old_bottom as nat, runs_i) == Some(mine));
                assert(out@.map_values(|x: ScreenRow| screen_row_view(x)) =~= before + mine);
            }
            return Some(out);
        }
        proof {
            assert(before + mine + match layout_spec(w, nb as nat, all.take(i as int)) {
                Some(r) => r,
                None => Seq::empty(),
            } =~= before + (mine + match layout_spec(w, nb as nat, all.take(i as int)) {
                Some(r) => r,
                None => Seq::empty(),
            }));
        }
    }
    proof {
        assert(out@.map_values(|x: ScreenRow| screen_row_view(x)) + Seq::empty() =~= out@.map_values(
            |x: ScreenRow| screen_row_view(x),
        ));
    }
    Some(out)
}

} // verus!
