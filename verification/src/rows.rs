//! Splitting text into rows of a bounded width, and shortening text to a
//! bounded width.
use crate::text::{chars_of, push_char, string_from_chars};
use vstd::prelude::*;

verus! {

/// The character `'\n'`.
pub open spec fn is_newline_char(c: char) -> bool {
    c == '\n'
}

/// The number of characters in the first row of `s`: up to `w` characters,
/// stopping before the first `'\n'`.
pub open spec fn row_len(w: nat, s: Seq<char>) -> nat
    decreases s.len(),
{
    if w == 0 || s.len() == 0 || is_newline_char(s[0]) {
        0
    } else {
        1 + row_len((w - 1) as nat, s.drop_first())
    }
}

/// What follows the first row of `s`: the `'\n'` that ends a row is dropped.
pub open spec fn after_row(w: nat, s: Seq<char>) -> Seq<char> {
    let k = row_len(w, s);
    if k < s.len() && is_newline_char(s[k as int]) {
        s.skip(k + 1 as int)
    } else {
        s.skip(k as int)
    }
}

/// Split `s` on `'\n'` and into rows of at most `w` characters.
pub open spec fn format_rows_spec(w: nat, s: Seq<char>) -> Seq<Seq<char>>
    decreases s.len(),
{
    if s.len() == 0 {
        Seq::empty()
    } else if after_row(w, s).len() < s.len() {
        seq![s.take(row_len(w, s) as int)] + format_rows_spec(w, after_row(w, s))
    } else {
        seq![s.take(row_len(w, s) as int)]
    }
}

/// The first row is at most `w` characters long and holds no `'\n'`; with
/// `w > 0` something is consumed.
pub proof fn lemma_row_len(w: nat, s: Seq<char>)
    ensures
        row_len(w, s) <= w,
        row_len(w, s) <= s.len(),
        forall|i: int| 0 <= i < row_len(w, s) ==> !is_newline_char(#[trigger] s[i]),
        row_len(w, s) < s.len() && row_len(w, s) < w ==> is_newline_char(s[row_len(w, s) as int]),
        w > 0 && s.len() > 0 ==> after_row(w, s).len() < s.len(),
    decreases s.len(),
{
    if w == 0 || s.len() == 0 || is_newline_char(s[0]) {
    } else {
        lemma_row_len((w - 1) as nat, s.drop_first());
        assert forall|i: int| 0 <= i < row_len(w, s) implies !is_newline_char(#[trigger] s[i]) by {
            if i > 0 {
                assert(s[i] == s.drop_first()[i - 1]);
            }
        }
        if row_len(w, s) < s.len() && row_len(w, s) < w {
            assert(s[row_len(w, s) as int] == s.drop_first()[row_len(
                (w - 1) as nat,
                s.drop_first(),
            ) as int]);
        }
    }
}

/// `s` without its `'\n'` characters.
pub open spec fn strip_newlines(s: Seq<char>) -> Seq<char>
    decreases s.len(),
{
    if s.len() == 0 {
        Seq::empty()
    } else if is_newline_char(s[0]) {
        strip_newlines(s.drop_first())
    } else {
        seq![s[0]] + strip_newlines(s.drop_first())
    }
}

proof fn lemma_strip_newlines_add(a: Seq<char>, b: Seq<char>)
    ensures
        strip_newlines(a + b) == strip_newlines(a) + strip_newlines(b),
    decreases a.len(),
{
    if a.len() == 0 {
        assert(a + b =~= b);
        assert(strip_newlines(a) + strip_newlines(b) =~= strip_newlines(b));
    } else {
        assert((a + b).drop_first() =~= a.drop_first() + b);
        assert((a + b)[0] == a[0]);
        lemma_strip_newlines_add(a.drop_first(), b);
        if !is_newline_char(a[0]) {
            assert(seq![a[0]] + (strip_newlines(a.drop_first()) + strip_newlines(b)) =~= (seq![
                a[0],
            ] + strip_newlines(a.drop_first())) + strip_newlines(b));
        }
    }
}

proof fn lemma_strip_newlines_none(a: Seq<char>)
    requires
        forall|i: int| 0 <= i < a.len() ==> !is_newline_char(#[trigger] a[i]),
    ensures
        strip_newlines(a) == a,
    decreases a.len(),
{
    if a.len() > 0 {
        assert forall|i: int| 0 <= i < a.drop_first().len() implies !is_newline_char(
            #[trigger] a.drop_first()[i],
        ) by {
            assert(a.drop_first()[i] == a[i + 1]);
        }
        lemma_strip_newlines_none(a.drop_first());
        assert(seq![a[0]] + a.drop_first() =~= a);
    }
}

/// Law: splitting text into rows loses nothing but the `'\n'` characters
/// that end rows: the rows, joined, are the text without its `'\n'`s; no row
/// holds a `'\n'` or is wider than the width.
pub proof fn law_format_rows_text(w: nat, s: Seq<char>)
    requires
        w > 0,
    ensures
        format_rows_spec(w, s).flatten() == strip_newlines(s),
        forall|k: int, i: int|
            0 <= k < format_rows_spec(w, s).len() && 0 <= i < format_rows_spec(w, s)[k].len()
                ==> !is_newline_char(#[trigger] format_rows_spec(w, s)[k][i]),
        forall|k: int|
            0 <= k < format_rows_spec(w, s).len() ==> (#[trigger] format_rows_spec(w, s)[k]).len()
                <= w,
    decreases s.len(),
{
    if s.len() > 0 {
        lemma_row_len(w, s);
        let k = row_len(w, s);
        let row = s.take(k as int);
        let rest = after_row(w, s);
        law_format_rows_text(w, rest);
        let rows = format_rows_spec(w, s);
        let more = format_rows_spec(w, rest);
        assert(rows == seq![row] + more);
        assert(rows.flatten() == rows.first() + rows.drop_first().flatten());
        assert(rows.drop_first() =~= more);
        assert forall|i: int| 0 <= i < row.len() implies !is_newline_char(#[trigger] row[i]) by {
            assert(row[i] == s[i]);
        }
        lemma_strip_newlines_none(row);
        if k < s.len() && is_newline_char(s[k as int]) {
            assert(s =~= row + (seq![s[k as int]] + rest));
            lemma_strip_newlines_add(row, seq![s[k as int]] + rest);
            lemma_strip_newlines_add(seq![s[k as int]], rest);
            assert(seq![s[k as int]].drop_first() =~= Seq::<char>::empty());
            assert(strip_newlines(seq![s[k as int]]) == strip_newlines(Seq::<char>::empty()));
            assert(strip_newlines(seq![s[k as int]]) + strip_newlines(rest) =~= strip_newlines(
                rest,
            ));
            assert(strip_newlines(s) == row + strip_newlines(rest));
        } else {
            assert(s =~= row + rest);
            lemma_strip_newlines_add(row, rest);
            assert(strip_newlines(s) == row + strip_newlines(rest));
        }
        assert(rows.flatten() == row + more.flatten());
        assert forall|j: int, i: int|
            0 <= j < rows.len() && 0 <= i < rows[j].len() implies !is_newline_char(
            #[trigger] rows[j][i],
        ) by {
            if j > 0 {
                assert(rows[j] == more[j - 1]);
            }
        }
        assert forall|j: int| 0 <= j < rows.len() implies (#[trigger] rows[j]).len() <= w by {
            if j > 0 {
                assert(rows[j] == more[j - 1]);
            }
        }
    }
}

/// The number of characters of `s` before its first `'\n'` (all of them if
/// it has none).
pub open spec fn line_end(s: Seq<char>) -> nat
    decreases s.len(),
{
    if s.len() == 0 || is_newline_char(s[0]) {
        0
    } else {
        1 + line_end(s.drop_first())
    }
}

/// The lines of `s`: the pieces between its `'\n'` characters, where a
/// `'\n'` at the very end ends the last line rather than starting an empty
/// one; empty text has no lines.
pub open spec fn text_lines(s: Seq<char>) -> Seq<Seq<char>>
    decreases s.len(),
{
    if s.len() == 0 {
        Seq::empty()
    } else if line_end(s) < s.len() {
        seq![s.take(line_end(s) as int)] + text_lines(s.skip(line_end(s) + 1int))
    } else {
        seq![s]
    }
}

/// Each line of `ls` followed by a `'\n'`.
pub open spec fn terminated(ls: Seq<Seq<char>>) -> Seq<char>
    decreases ls.len(),
{
    if ls.len() == 0 {
        Seq::empty()
    } else {
        ls[0] + seq!['\n'] + terminated(ls.drop_first())
    }
}

/// A line cut into consecutive pieces of `w` characters, the last of them
/// possibly shorter; an empty line gives one empty piece.
pub open spec fn chunks(w: nat, l: Seq<char>) -> Seq<Seq<char>>
    decreases l.len(),
{
    if w == 0 || l.len() <= w {
        seq![l]
    } else {
        seq![l.take(w as int)] + chunks(w, l.skip(w as int))
    }
}

/// The pieces of each line of `ls`, in order.
pub open spec fn line_chunks(w: nat, ls: Seq<Seq<char>>) -> Seq<Seq<char>>
    decreases ls.len(),
{
    if ls.len() == 0 {
        Seq::empty()
    } else {
        chunks(w, ls[0]) + line_chunks(w, ls.drop_first())
    }
}

proof fn lemma_line_end(s: Seq<char>)
    ensures
        line_end(s) <= s.len(),
        forall|i: int| 0 <= i < line_end(s) ==> !is_newline_char(#[trigger] s[i]),
        line_end(s) < s.len() ==> is_newline_char(s[line_end(s) as int]),
    decreases s.len(),
{
    if s.len() > 0 && !is_newline_char(s[0]) {
        lemma_line_end(s.drop_first());
        assert forall|i: int| 0 <= i < line_end(s) implies !is_newline_char(#[trigger] s[i]) by {
            if i > 0 {
                assert(s[i] == s.drop_first()[i - 1]);
            }
        }
        if line_end(s) < s.len() {
            assert(s[line_end(s) as int] == s.drop_first()[line_end(s.drop_first()) as int]);
        }
    }
}

proof fn lemma_line_end_unique(s: Seq<char>, k: nat)
    requires
        k <= s.len(),
        forall|i: int| 0 <= i < k ==> !is_newline_char(#[trigger] s[i]),
        k == s.len() || is_newline_char(s[k as int]),
    ensures
        line_end(s) == k,
    decreases s.len(),
{
    if k > 0 {
        assert(!is_newline_char(s[0]));
        let t = s.drop_first();
        assert forall|i: int| 0 <= i < k - 1 implies !is_newline_char(#[trigger] t[i]) by {
            assert(t[i] == s[i + 1]);
        }
        if k < s.len() {
            assert(t[k - 1] == s[k as int]);
        }
        lemma_line_end_unique(t, (k - 1) as nat);
    }
}

proof fn lemma_row_len_line_end(w: nat, s: Seq<char>)
    ensures
        row_len(w, s) == if w < line_end(s) {
            w
        } else {
            line_end(s)
        },
{
    lemma_row_len(w, s);
    lemma_line_end(s);
    let r = row_len(w, s);
    let k = line_end(s);
    if r > k {
        assert(!is_newline_char(s[k as int]));
    }
    if r < w && r < k {
        assert(!is_newline_char(s[r as int]));
    }
}

/// The rows of text start with the pieces of its first line, and go on with
/// the rows of what follows the `'\n'` that ends it.
proof fn lemma_first_line_rows(w: nat, s: Seq<char>)
    requires
        w > 0,
        s.len() > 0,
    ensures
        line_end(s) < s.len() ==> format_rows_spec(w, s) == chunks(w, s.take(line_end(s) as int))
            + format_rows_spec(w, s.skip(line_end(s) + 1int)),
        line_end(s) == s.len() ==> format_rows_spec(w, s) == chunks(w, s),
    decreases s.len(),
{
    lemma_row_len(w, s);
    lemma_line_end(s);
    lemma_row_len_line_end(w, s);
    let k = line_end(s);
    if k <= w {
        if k < s.len() {
            assert(after_row(w, s) == s.skip(k + 1int));
        } else {
            assert(after_row(w, s) =~= Seq::<char>::empty());
            assert(s.take(k as int) =~= s);
            assert(format_rows_spec(w, Seq::<char>::empty()) == Seq::<Seq<char>>::empty());
            assert(format_rows_spec(w, s) =~= seq![s]);
        }
    } else {
        assert(!is_newline_char(s[w as int]));
        let t = s.skip(w as int);
        assert(after_row(w, s) == t);
        assert(format_rows_spec(w, s) == seq![s.take(w as int)] + format_rows_spec(w, t));
        assert forall|i: int| 0 <= i < k - w implies !is_newline_char(#[trigger] t[i]) by {
            assert(t[i] == s[i + w]);
        }
        if k < s.len() {
            assert(t[k - w] == s[k as int]);
        }
        lemma_line_end_unique(t, (k - w) as nat);
        lemma_first_line_rows(w, t);
        if k < s.len() {
            assert(t.skip(k - w + 1) =~= s.skip(k + 1int));
            let l = s.take(k as int);
            assert(l.take(w as int) =~= s.take(w as int));
            assert(l.skip(w as int) =~= t.take(k - w));
            assert(chunks(w, l) == seq![l.take(w as int)] + chunks(w, l.skip(w as int)));
            assert(format_rows_spec(w, s) =~= chunks(w, l) + format_rows_spec(w, s.skip(k + 1int)));
        } else {
            assert(t.take((k - w) as int) =~= t);
            assert(chunks(w, s) == seq![s.take(w as int)] + chunks(w, t));
        }
    }
}

/// Law: the rows of text are its lines, split on `'\n'`, each cut into
/// consecutive pieces of `w` characters, an empty line giving one empty row;
/// so a `'\n'` right after a row of exactly `w` characters starts the next
/// line and gives no empty row.
pub proof fn law_format_rows_lines(w: nat, s: Seq<char>)
    requires
        w > 0,
    ensures
        format_rows_spec(w, s) == line_chunks(w, text_lines(s)),
    decreases s.len(),
{
    if s.len() > 0 {
        lemma_line_end(s);
        lemma_first_line_rows(w, s);
        let k = line_end(s);
        let ls = text_lines(s);
        if k < s.len() {
            let rest = s.skip(k + 1int);
            law_format_rows_lines(w, rest);
            assert(ls == seq![s.take(k as int)] + text_lines(rest));
            assert(ls[0] == s.take(k as int));
            assert(ls.drop_first() =~= text_lines(rest));
            assert(line_chunks(w, ls) == chunks(w, ls[0]) + line_chunks(w, ls.drop_first()));
        } else {
            assert(ls == seq![s]);
            assert(ls[0] == s);
            assert(ls.drop_first() =~= Seq::<Seq<char>>::empty());
            assert(line_chunks(w, ls.drop_first()) == Seq::<Seq<char>>::empty());
            assert(line_chunks(w, ls) == chunks(w, ls[0]) + line_chunks(w, ls.drop_first()));
            assert(chunks(w, s) + Seq::<Seq<char>>::empty() =~= chunks(w, s));
        }
    }
}

/// Law: the lines of text are the pieces between its `'\n'`s: none holds a
/// `'\n'`, and each followed by a `'\n'` gives the text back, with a final
/// `'\n'` added when it had none.
pub proof fn law_text_lines(s: Seq<char>)
    ensures
        forall|i: int, j: int|
            0 <= i < text_lines(s).len() && 0 <= j < text_lines(s)[i].len() ==> !is_newline_char(
                #[trigger] text_lines(s)[i][j],
            ),
        s.len() == 0 ==> text_lines(s).len() == 0,
        s.len() > 0 ==> terminated(text_lines(s)) == if is_newline_char(s.last()) {
            s
        } else {
            s.push('\n')
        },
    decreases s.len(),
{
    if s.len() > 0 {
        lemma_line_end(s);
        let k = line_end(s);
        let ls = text_lines(s);
        if k < s.len() {
            let rest = s.skip(k + 1int);
            law_text_lines(rest);
            let first = s.take(k as int);
            assert(ls[0] == first);
            assert(ls.drop_first() =~= text_lines(rest));
            assert forall|i: int, j: int|
                0 <= i < ls.len() && 0 <= j < ls[i].len() implies !is_newline_char(
                #[trigger] ls[i][j],
            ) by {
                if i == 0 {
                    assert(ls[i][j] == s[j]);
                } else {
                    assert(ls[i] == text_lines(rest)[i - 1]);
                }
            }
            if rest.len() == 0 {
                assert(terminated(text_lines(rest)) =~= Seq::<char>::empty());
                assert(first + seq!['\n'] =~= s);
            } else {
                assert(rest.last() == s.last());
                if is_newline_char(s.last()) {
                    assert(first + seq!['\n'] + rest =~= s);
                } else {
                    assert(first + seq!['\n'] + rest.push('\n') =~= s.push('\n'));
                }
            }
        } else {
            assert(ls == seq![s]);
            assert(ls.drop_first() =~= Seq::<Seq<char>>::empty());
            assert(terminated(ls.drop_first()) == Seq::<char>::empty());
            assert(terminated(ls) == ls[0] + seq!['\n'] + terminated(ls.drop_first()));
            assert(terminated(ls) =~= s + seq!['\n']);
            assert(!is_newline_char(s[s.len() - 1]));
            assert forall|i: int, j: int|
                0 <= i < ls.len() && 0 <= j < ls[i].len() implies !is_newline_char(
                #[trigger] ls[i][j],
            ) by {
                assert(ls[i] == s);
            }
        }
    }
}

/// Split a string on either newlines or `max_width`.
pub struct FormatRows {
    max_width: usize,
    buf: Vec<char>,
    pos: usize,
}

impl FormatRows {
    #[verifier::type_invariant]
    closed spec fn inv(&self) -> bool {
        &&& self.max_width > 0 || self.pos == self.buf@.len()
        &&& self.pos <= self.buf@.len()
    }

    /// The maximum row width.
    pub closed spec fn spec_max_width(&self) -> nat {
        self.max_width as nat
    }

    /// The text not yet split.
    pub closed spec fn spec_remaining(&self) -> Seq<char> {
        self.buf@.skip(self.pos as int)
    }

    /// Rows of `buf`, each at most `max_width` characters long.
    pub fn new(max_width: usize, buf: &str) -> (rows: Self)
        requires
            max_width > 0 || buf@.len() == 0,
        ensures
            rows.spec_max_width() == max_width,
            rows.spec_remaining() == buf@,
    {
        let chars = chars_of(buf);
        let rows = FormatRows { max_width, buf: chars, pos: 0 };
        assert(rows.spec_remaining() =~= buf@);
        rows
    }

    /// The next row, if any text is left.
    pub fn next(&mut self) -> (row: Option<String>)
        ensures
            final(self).spec_max_width() == old(self).spec_max_width(),
            match row {
                None => old(self).spec_remaining().len() == 0 && final(self).spec_remaining()
                    == old(self).spec_remaining(),
                Some(r) => {
                    let s = old(self).spec_remaining();
                    &&& s.len() > 0
                    &&& r@ == s.take(row_len(old(self).spec_max_width(), s) as int)
                    &&& final(self).spec_remaining() == after_row(old(self).spec_max_width(), s)
                },
            },
    {
        proof {
            use_type_invariant(&*self);
        }
        let n = self.buf.len();
        if self.pos >= n {
            return None;
        }
        let ghost s = self.spec_remaining();
        let ghost w = self.max_width as nat;
        let start = self.pos;
        let mut k: usize = 0;
        proof {
            lemma_row_len(w, s);
        }
        while k < self.max_width && start + k < n && self.buf[start + k] != '\n'
            invariant
                n == self.buf@.len(),
                start < n,
                s == self.buf@.skip(start as int),
                w == self.max_width,
                k <= self.max_width,
                start + k <= n,
                k <= row_len(w, s),
                forall|i: int| 0 <= i < row_len(w, s) ==> !is_newline_char(#[trigger] s[i]),
                row_len(w, s) < s.len() && row_len(w, s) < w ==> is_newline_char(
                    s[row_len(w, s) as int],
                ),
                row_len(w, s) <= w,
                row_len(w, s) <= s.len(),
            decreases self.max_width - k,
        {
            assert(s[k as int] == self.buf@[start + k]);
            k = k + 1;
        }
        proof {
            if k < row_len(w, s) {
                assert(s[k as int] == self.buf@[start + k]);
            }
            assert(k == row_len(w, s));
        }
        let row = string_from_chars(&self.buf.as_slice()[start..start + k]);
        proof {
            assert(self.buf@.subrange(start as int, start + k) =~= s.take(k as int));
        }
        if start + k < n && self.buf[start + k] == '\n' {
            self.pos = start + k + 1;
            proof {
                assert(self.buf@.skip(self.pos as int) =~= s.skip(k + 1int));
            }
        } else {
            self.pos = start + k;
            proof {
                assert(self.buf@.skip(self.pos as int) =~= s.skip(k as int));
            }
        }
        Some(row)
    }
}

/// Split `text` on `'\n'` and into rows of at most `max_width` characters.
pub fn format_rows(max_width: usize, text: &str) -> (rows: Vec<String>)
    requires
        max_width > 0 || text@.len() == 0,
    ensures
        rows@.map_values(|r: String| r@) == format_rows_spec(max_width as nat, text@),
        rows@.map_values(|r: String| r@) == line_chunks(max_width as nat, text_lines(text@)),
{
    proof {
        if max_width > 0 {
            law_format_rows_lines(max_width as nat, text@);
        } else {
            assert(text_lines(text@) == Seq::<Seq<char>>::empty());
            assert(line_chunks(0, Seq::<Seq<char>>::empty()) == Seq::<Seq<char>>::empty());
        }
    }
    let mut it = FormatRows::new(max_width, text);
    let mut rows: Vec<String> = Vec::new();
    loop
        invariant
            it.spec_max_width() == max_width,
            max_width > 0 || it.spec_remaining().len() == 0,
            format_rows_spec(max_width as nat, text@) == line_chunks(
                max_width as nat,
                text_lines(text@),
            ),
            rows@.map_values(|r: String| r@) + format_rows_spec(max_width as nat, it.spec_remaining())
                == format_rows_spec(max_width as nat, text@),
        decreases it.spec_remaining().len(),
    {
        let ghost s = it.spec_remaining();
        proof {
            lemma_row_len(max_width as nat, s);
        }
        match it.next() {
            None => {
                proof {
                    assert(rows@.map_values(|r: String| r@) =~= format_rows_spec(
                        max_width as nat,
                        text@,
                    ));
                }
                return rows;
            },
            Some(row) => {
                let ghost prev = rows@.map_values(|r: String| r@);
                rows.push(row);
                proof {
                    assert(rows@.map_values(|r: String| r@) =~= prev.push(row@));
                    assert(format_rows_spec(max_width as nat, s) == seq![row@] + format_rows_spec(
                        max_width as nat,
                        it.spec_remaining(),
                    ));
                    assert(prev.push(row@) + format_rows_spec(max_width as nat, it.spec_remaining())
                        =~= prev + format_rows_spec(max_width as nat, s));
                }
            },
        }
    }
}

/// The first `maxlen` characters of `s`, with the last of them replaced by
/// `'…'` when `s` is longer than `maxlen`.
pub open spec fn truncate_string_spec(s: Seq<char>, maxlen: nat) -> Seq<char> {
    if s.len() > maxlen {
        s.take(maxlen - 1).push('\u{2026}')
    } else {
        s
    }
}

/// Shorten `s` to at most `maxlen` characters, marking a cut with `'…'`.
pub fn truncate_string(s: &str, maxlen: usize) -> (r: String)
    requires
        maxlen > 0 || s@.len() == 0,
    ensures
        r@ == truncate_string_spec(s@, maxlen as nat),
        r@.len() <= maxlen || s@.len() == 0,
{
    let chars = chars_of(s);
    if chars.len() > maxlen {
        let mut r = string_from_chars(&chars.as_slice()[0..maxlen - 1]);
        push_char(&mut r, '\u{2026}');
        proof {
            assert(chars@.subrange(0, maxlen - 1) =~= s@.take(maxlen - 1));
        }
        r
    } else {
        string_from_chars(chars.as_slice())
    }
}

} // verus!
