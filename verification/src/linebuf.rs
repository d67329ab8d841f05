//! Convert arbitrary byte sequences into `b'\n'`-terminated lines.
use bytes::Bytes;
use std::collections::VecDeque;
use vstd::prelude::*;

verus! {

/// The outside type `bytes::Bytes`: an immutable chunk of bytes.
#[verifier::external_type_specification]
#[verifier::external_body]
pub struct ExBytes(Bytes);

/// The bytes that a `bytes::Bytes` holds, in order.
pub uninterp spec fn bytes_content(b: Bytes) -> Seq<u8>;

/// Trusted: `<Vec<u8> as From<bytes::Bytes>>::from` hands back a vector that
/// holds the bytes of the chunk, in the same order.
#[verifier::external_body]
pub(crate) fn bytes_into_vec(chunk: Bytes) -> (v: Vec<u8>)
    ensures
        v@ == bytes_content(chunk),
{
    Vec::from(chunk)
}

/// The byte `b'\n'`.
pub const NEWLINE: u8 = 10u8;

/// `s` holds no `b'\n'`.
pub open spec fn has_no_newline(s: Seq<u8>) -> bool {
    forall|i: int| 0 <= i < s.len() ==> s[i] != NEWLINE
}

/// `s` is a complete line: it ends in `b'\n'`, and that is its only `b'\n'`.
pub open spec fn is_complete_line(s: Seq<u8>) -> bool {
    &&& s.len() > 0
    &&& s.last() == NEWLINE
    &&& has_no_newline(s.drop_last())
}

/// The abstract state of a [`ByteLineBuf`]: the complete lines waiting to be
/// taken, in order, and the bytes received after the last `b'\n'`.
pub struct LineBufView {
    pub lines: Seq<Seq<u8>>,
    pub fragment: Seq<u8>,
}

impl LineBufView {
    /// The state of a buffer that has received nothing.
    pub open spec fn empty() -> LineBufView {
        LineBufView { lines: Seq::empty(), fragment: Seq::empty() }
    }

    /// Every pending line is complete and the fragment holds no `b'\n'`.
    pub open spec fn wf(self) -> bool {
        &&& forall|i: int| 0 <= i < self.lines.len() ==> is_complete_line(#[trigger] self.lines[i])
        &&& has_no_newline(self.fragment)
    }

    /// All bytes held, in the order in which they arrived.
    pub open spec fn content(self) -> Seq<u8> {
        self.lines.flatten() + self.fragment
    }

    /// The state after receiving the byte `b`.
    pub open spec fn push_byte(self, b: u8) -> LineBufView {
        if b == NEWLINE {
            LineBufView { lines: self.lines.push(self.fragment.push(b)), fragment: Seq::empty() }
        } else {
            LineBufView { lines: self.lines, fragment: self.fragment.push(b) }
        }
    }

    /// The state after receiving the bytes `bs`, one by one.
    pub open spec fn push_bytes(self, bs: Seq<u8>) -> LineBufView
        decreases bs.len(),
    {
        if bs.len() == 0 {
            self
        } else {
            self.push_bytes(bs.drop_last()).push_byte(bs.last())
        }
    }

    /// The state after the first pending line was taken.
    pub open spec fn drop_first_line(self) -> LineBufView {
        LineBufView { lines: self.lines.drop_first(), fragment: self.fragment }
    }

    /// Everything the buffer holds, as a sequence of items: the pending lines,
    /// then the fragment when it is not empty.
    pub open spec fn items(self) -> Seq<Seq<u8>> {
        if self.fragment.len() > 0 {
            self.lines.push(self.fragment)
        } else {
            self.lines
        }
    }
}

/// Convert arbitrary byte sequences into `b'\n'`-terminated `Vec<u8>`.
///
/// Insert bytes with [`ByteLineBuf::extend`], [`ByteLineBuf::extend_byte`] or
/// [`ByteLineBuf::extend_chunk`].
#[derive(Debug)]
pub struct ByteLineBuf {
    lines: VecDeque<Vec<u8>>,
    fragment: Vec<u8>,
}

impl View for ByteLineBuf {
    type V = LineBufView;

    closed spec fn view(&self) -> LineBufView {
        LineBufView { lines: self.lines@.map_values(|l: Vec<u8>| l@), fragment: self.fragment@ }
    }
}

/// Taking the first pending line keeps a state well formed.
proof fn lemma_drop_first_line_wf(v: LineBufView)
    requires
        v.wf(),
        v.lines.len() > 0,
    ensures
        v.drop_first_line().wf(),
{
    assert forall|i: int| 0 <= i < v.drop_first_line().lines.len() implies is_complete_line(
        #[trigger] v.drop_first_line().lines[i],
    ) by {
        assert(v.drop_first_line().lines[i] == v.lines[i + 1]);
    }
}

/// Receiving a byte keeps a state well formed.
proof fn lemma_push_byte_wf(v: LineBufView, b: u8)
    requires
        v.wf(),
    ensures
        v.push_byte(b).wf(),
{
    if b == NEWLINE {
        let l = v.fragment.push(b);
        assert(l.drop_last() =~= v.fragment);
        assert forall|i: int| 0 <= i < v.push_byte(b).lines.len() implies is_complete_line(
            #[trigger] v.push_byte(b).lines[i],
        ) by {
            if i < v.lines.len() {
                assert(v.push_byte(b).lines[i] == v.lines[i]);
            }
        }
    }
}


/// The bytes held by a state with pending lines are its first line followed by
/// the bytes held once that line is taken.
proof fn lemma_content_first(v: LineBufView)
    requires
        v.lines.len() > 0,
    ensures
        v.content() == v.lines[0] + v.drop_first_line().content(),
{
    assert(v.lines.flatten() == v.lines.first() + v.lines.drop_first().flatten());
    assert(v.content() =~= v.lines[0] + v.drop_first_line().content());
}

/// Receiving a byte appends it to the bytes held.
proof fn lemma_push_byte_content(v: LineBufView, b: u8)
    ensures
        v.push_byte(b).content() == v.content().push(b),
{
    if b == NEWLINE {
        v.lines.lemma_flatten_push(v.fragment.push(b));
        assert(v.push_byte(b).content() =~= v.content().push(b));
    } else {
        assert(v.push_byte(b).content() =~= v.content().push(b));
    }
}

/// Law: whatever bytes a well formed buffer receives, it stays well formed,
/// and it then holds exactly the bytes it held before followed by the new
/// ones: no byte is lost, duplicated or reordered.
pub proof fn law_push_bytes_content(v: LineBufView, bs: Seq<u8>)
    requires
        v.wf(),
    ensures
        v.push_bytes(bs).wf(),
        v.push_bytes(bs).content() == v.content() + bs,
    decreases bs.len(),
{
    if bs.len() == 0 {
        assert(v.content() + bs =~= v.content());
    } else {
        let prefix = bs.drop_last();
        law_push_bytes_content(v, prefix);
        let w = v.push_bytes(prefix);
        lemma_push_byte_wf(w, bs.last());
        lemma_push_byte_content(w, bs.last());
        assert(v.content() + bs =~= (v.content() + prefix).push(bs.last()));
    }
}

/// Law: receiving `a` and then `b` leaves a buffer in the same state as
/// receiving `a + b` at once, so the way bytes are cut into chunks never
/// changes the lines that come out.
pub proof fn law_push_bytes_split(v: LineBufView, a: Seq<u8>, b: Seq<u8>)
    ensures
        v.push_bytes(a + b) == v.push_bytes(a).push_bytes(b),
    decreases b.len(),
{
    if b.len() == 0 {
        assert(a + b =~= a);
    } else {
        law_push_bytes_split(v, a, b.drop_last());
        assert((a + b).drop_last() =~= a + b.drop_last());
        assert((a + b).last() == b.last());
    }
}

/// Law: a well formed state is determined by the bytes it holds: two well
/// formed states holding the same bytes have the same pending lines and the
/// same fragment.
pub proof fn law_canonical(a: LineBufView, b: LineBufView)
    requires
        a.wf(),
        b.wf(),
        a.content() == b.content(),
    ensures
        a == b,
    decreases a.lines.len(),
{
    let c = a.content();
    if a.lines.len() == 0 && b.lines.len() == 0 {
        assert(a.lines =~= b.lines);
        assert(a.content() =~= a.fragment);
        assert(b.content() =~= b.fragment);
    } else if a.lines.len() == 0 {
        lemma_content_first(b);
        let k = b.lines[0].len() - 1;
        assert(is_complete_line(b.lines[0]));
        assert(c[k] == b.lines[0][k]);
        assert(a.content() =~= a.fragment);
        assert(a.fragment[k] == NEWLINE);
    } else if b.lines.len() == 0 {
        lemma_content_first(a);
        let k = a.lines[0].len() - 1;
        assert(is_complete_line(a.lines[0]));
        assert(c[k] == a.lines[0][k]);
        assert(b.content() =~= b.fragment);
        assert(b.fragment[k] == NEWLINE);
    } else {
        lemma_content_first(a);
        lemma_content_first(b);
        let la = a.lines[0];
        let lb = b.lines[0];
        assert(is_complete_line(la));
        assert(is_complete_line(lb));
        if la.len() < lb.len() {
            let k = la.len() - 1;
            assert(c[k] == la[k]);
            assert(c[k] == lb[k]);
            assert(lb.drop_last()[k] == lb[k]);
        } else if lb.len() < la.len() {
            let k = lb.len() - 1;
            assert(c[k] == la[k]);
            assert(c[k] == lb[k]);
            assert(la.drop_last()[k] == la[k]);
        }
        assert(la =~= c.take(la.len() as int));
        assert(lb =~= c.take(lb.len() as int));
        assert(a.drop_first_line().content() =~= c.skip(la.len() as int));
        assert(b.drop_first_line().content() =~= c.skip(lb.len() as int));
        lemma_drop_first_line_wf(a);
        lemma_drop_first_line_wf(b);
        law_canonical(a.drop_first_line(), b.drop_first_line());
        assert(a.lines =~= b.lines) by {
            assert forall|i: int| 0 <= i < a.lines.len() implies a.lines[i] == b.lines[i] by {
                if i > 0 {
                    assert(a.lines[i] == a.drop_first_line().lines[i - 1]);
                    assert(b.lines[i] == b.drop_first_line().lines[i - 1]);
                }
            }
        }
    }
}

/// Law: taking the first pending line splits the bytes held: that line
/// followed by what is left is what was held before.
pub proof fn law_pop_line_content(v: LineBufView)
    requires
        v.wf(),
        v.lines.len() > 0,
    ensures
        v.drop_first_line().wf(),
        v.lines[0] + v.drop_first_line().content() == v.content(),
        is_complete_line(v.lines[0]),
{
    lemma_drop_first_line_wf(v);
    lemma_content_first(v);
}

/// Law: the items of a well formed state, joined, are exactly the bytes it
/// holds; no item is empty; every item is a complete line except that the
/// last one may be a final fragment without any `b'\n'`.
pub proof fn law_items(v: LineBufView)
    requires
        v.wf(),
    ensures
        v.items().flatten() == v.content(),
        forall|i: int| 0 <= i < v.items().len() ==> (#[trigger] v.items()[i]).len() > 0,
        forall|i: int|
            0 <= i < v.items().len() ==> is_complete_line(#[trigger] v.items()[i]) || (i
                == v.items().len() - 1 && has_no_newline(v.items()[i])),
{
    if v.fragment.len() > 0 {
        v.lines.lemma_flatten_push(v.fragment);
        assert forall|i: int| 0 <= i < v.items().len() implies is_complete_line(
            #[trigger] v.items()[i],
        ) || (i == v.items().len() - 1 && has_no_newline(v.items()[i])) by {
            if i < v.lines.len() {
                assert(v.items()[i] == v.lines[i]);
            }
        }
        assert forall|i: int| 0 <= i < v.items().len() implies (#[trigger] v.items()[i]).len()
            > 0 by {
            if i < v.lines.len() {
                assert(v.items()[i] == v.lines[i]);
                assert(is_complete_line(v.lines[i]));
            }
        }
    } else {
        assert(v.content() =~= v.lines.flatten());
        assert forall|i: int| 0 <= i < v.items().len() implies (#[trigger] v.items()[i]).len()
            > 0 by {
            assert(is_complete_line(v.lines[i]));
        }
    }
}

/// The length of the first line of `s`: up to and including its first
/// `b'\n'`, or all of `s` when it holds none.
pub open spec fn first_line_end(s: Seq<u8>) -> nat
    decreases s.len(),
{
    if s.len() == 0 {
        0
    } else if s[0] == NEWLINE {
        1
    } else {
        1 + first_line_end(s.drop_first())
    }
}

/// The `b'\n'`-terminated segments of `s`, in order; when `s` does not end
/// in `b'\n'`, the last segment is what follows its last `b'\n'`.
pub open spec fn line_segments(s: Seq<u8>) -> Seq<Seq<u8>>
    decreases s.len(),
{
    if s.len() == 0 {
        Seq::empty()
    } else {
        let k = first_line_end(s);
        if 0 < k <= s.len() {
            seq![s.take(k as int)] + line_segments(s.skip(k as int))
        } else {
            seq![s]
        }
    }
}

/// The length of the part of `s` up to and including its last `b'\n'`; 0 when
/// `s` holds none.
pub open spec fn last_line_end(s: Seq<u8>) -> nat
    decreases s.len(),
{
    if s.len() == 0 {
        0
    } else if s.last() == NEWLINE {
        s.len()
    } else {
        last_line_end(s.drop_last())
    }
}

proof fn lemma_first_line_end(s: Seq<u8>)
    ensures
        first_line_end(s) <= s.len(),
        s.len() > 0 ==> first_line_end(s) > 0,
        forall|i: int| 0 <= i < first_line_end(s) - 1 ==> s[i] != NEWLINE,
        first_line_end(s) > 0 && (first_line_end(s) < s.len() || s.last() == NEWLINE) ==> s[first_line_end(s) - 1] == NEWLINE,
    decreases s.len(),
{
    if s.len() > 0 && s[0] != NEWLINE {
        let t = s.drop_first();
        lemma_first_line_end(t);
        assert forall|i: int| 0 <= i < first_line_end(s) - 1 implies s[i] != NEWLINE by {
            if i > 0 {
                assert(s[i] == t[i - 1]);
            }
        }
        if first_line_end(s) < s.len() || s.last() == NEWLINE {
            if t.len() > 0 {
                assert(t.last() == s.last());
                assert(s[first_line_end(s) - 1] == t[first_line_end(t) - 1]);
            }
        }
    }
}

proof fn lemma_last_line_end(s: Seq<u8>)
    ensures
        last_line_end(s) <= s.len(),
        has_no_newline(s.skip(last_line_end(s) as int)),
        last_line_end(s) > 0 ==> s[last_line_end(s) - 1] == NEWLINE,
    decreases s.len(),
{
    if s.len() > 0 && s.last() != NEWLINE {
        let t = s.drop_last();
        lemma_last_line_end(t);
        let j = last_line_end(s);
        assert forall|i: int| 0 <= i < s.skip(j as int).len() implies s.skip(j as int)[i] != NEWLINE by {
            if j + i < t.len() {
                assert(s.skip(j as int)[i] == t.skip(j as int)[i]);
            }
        }
        if j > 0 {
            assert(s[j - 1] == t[j - 1]);
        }
    }
}

/// The segments of text that is empty or ends in `b'\n'` are complete lines
/// that, joined, give the text back.
proof fn lemma_line_segments(s: Seq<u8>)
    requires
        s.len() == 0 || s.last() == NEWLINE,
    ensures
        forall|i: int| 0 <= i < line_segments(s).len() ==> is_complete_line(#[trigger] line_segments(s)[i]),
        line_segments(s).flatten() == s,
    decreases s.len(),
{
    if s.len() > 0 {
        lemma_first_line_end(s);
        let k = first_line_end(s);
        let head = s.take(k as int);
        let rest = s.skip(k as int);
        assert(rest.len() == 0 || rest.last() == s.last());
        lemma_line_segments(rest);
        let segs = line_segments(s);
        assert(segs == seq![head] + line_segments(rest));
        assert(head.drop_last() =~= s.take(k - 1));
        assert(is_complete_line(head));
        assert forall|i: int| 0 <= i < segs.len() implies is_complete_line(#[trigger] segs[i]) by {
            if i > 0 {
                assert(segs[i] == line_segments(rest)[i - 1]);
            }
        }
        assert(segs.flatten() == segs.first() + segs.drop_first().flatten());
        assert(segs.drop_first() =~= line_segments(rest));
        assert(head + rest =~= s);
    }
}

/// Law: a buffer that received the bytes `bs` holds as pending lines the
/// `b'\n'`-terminated segments of `bs`, in order, and as fragment what
/// follows the last `b'\n'` of `bs` (all of `bs` when it holds none).
pub proof fn law_split(bs: Seq<u8>)
    ensures
        LineBufView::empty().push_bytes(bs) == (LineBufView {
            lines: line_segments(bs.take(last_line_end(bs) as int)),
            fragment: bs.skip(last_line_end(bs) as int),
        }),
{
    let j = last_line_end(bs);
    lemma_last_line_end(bs);
    let head = bs.take(j as int);
    if head.len() > 0 {
        assert(head.last() == bs[j - 1]);
    }
    lemma_line_segments(head);
    let c = LineBufView { lines: line_segments(head), fragment: bs.skip(j as int) };
    assert(c.content() =~= bs);
    law_push_bytes_content(LineBufView::empty(), bs);
    assert(LineBufView::empty().content() =~= Seq::<u8>::empty());
    assert(Seq::<u8>::empty() + bs =~= bs);
    law_canonical(LineBufView::empty().push_bytes(bs), c);
}

/// The state after the first `n` pending lines were taken.
pub open spec fn after_pops(v: LineBufView, n: nat) -> LineBufView {
    LineBufView { lines: v.lines.skip(n as int), fragment: v.fragment }
}

/// Law: taking lines one by one from a buffer that received `bs` hands out
/// the `b'\n'`-terminated segments of `bs` in order; once they are all
/// taken there is no line left, and taking lines never changes the fragment,
/// which is what follows the last `b'\n'` of `bs`.
pub proof fn law_pop_order(bs: Seq<u8>, n: nat)
    requires
        n <= line_segments(bs.take(last_line_end(bs) as int)).len(),
    ensures
        ({
            let v = LineBufView::empty().push_bytes(bs);
            let segs = line_segments(bs.take(last_line_end(bs) as int));
            &&& v.lines == segs
            &&& n < segs.len() ==> after_pops(v, n).lines[0] == segs[n as int]
                && after_pops(v, n).drop_first_line() == after_pops(v, n + 1)
            &&& n == segs.len() ==> after_pops(v, n).lines.len() == 0
            &&& after_pops(v, n).fragment == bs.skip(last_line_end(bs) as int)
        }),
{
    law_split(bs);
    let v = LineBufView::empty().push_bytes(bs);
    if n < v.lines.len() {
        assert(after_pops(v, n).lines.drop_first() =~= v.lines.skip(n + 1 as int));
        assert(after_pops(v, n).drop_first_line() == after_pops(v, n + 1));
    }
}

impl ByteLineBuf {
    #[verifier::type_invariant]
    pub(crate) open spec fn inv(&self) -> bool {
        self@.wf()
    }

    /// An empty buffer.
    pub fn new() -> (buf: Self)
        ensures
            buf@ == LineBufView::empty(),
            buf@.wf(),
    {
        let buf = ByteLineBuf { lines: VecDeque::new(), fragment: Vec::new() };
        assert(buf@.lines =~= Seq::<Seq<u8>>::empty());
        buf
    }

    /// Remove and return the first complete pending line, if any.
    pub fn pop_line(&mut self) -> (line: Option<Vec<u8>>)
        ensures
            match line {
                None => old(self)@.lines.len() == 0 && final(self)@ == old(self)@,
                Some(l) => {
                    &&& old(self)@.lines.len() > 0
                    &&& l@ == old(self)@.lines[0]
                    &&& is_complete_line(l@)
                    &&& final(self)@ == old(self)@.drop_first_line()
                },
            },
            final(self)@.wf(),
    {
        proof {
            use_type_invariant(&*self);
        }
        let ghost before = self@;
        let mut lines: VecDeque<Vec<u8>> = VecDeque::new();
        std::mem::swap(&mut lines, &mut self.lines);
        let ghost raw = lines@;
        let line = lines.pop_front();
        proof {
            if line is Some {
                assert(lines@.map_values(|l: Vec<u8>| l@) =~= before.lines.drop_first());
                assert(is_complete_line(before.lines[0]));
                lemma_drop_first_line_wf(before);
            } else {
                assert(lines@.map_values(|l: Vec<u8>| l@) =~= before.lines);
            }
        }
        self.lines = lines;
        proof {
            use_type_invariant(&*self);
        }
        line
    }

    /// Remove and return all complete pending lines, in order.
    pub fn drain_lines(&mut self) -> (lines: Vec<Vec<u8>>)
        ensures
            lines@.map_values(|l: Vec<u8>| l@) == old(self)@.lines,
            final(self)@ == (LineBufView { lines: Seq::empty(), fragment: old(self)@.fragment }),
            final(self)@.wf(),
    {
        let ghost before = self@;
        let mut out: Vec<Vec<u8>> = Vec::new();
        loop
            invariant
                before == old(self)@,
                out@.map_values(|l: Vec<u8>| l@) + self@.lines == before.lines,
                self@.fragment == before.fragment,
            decreases self@.lines.len(),
        {
            let ghost mid = self@;
            match self.pop_line() {
                Some(l) => {
                    let ghost prev = out@;
                    out.push(l);
                    proof {
                        assert(out@.map_values(|l: Vec<u8>| l@) =~= prev.map_values(
                            |l: Vec<u8>| l@,
                        ).push(mid.lines[0]));
                        assert(out@.map_values(|l: Vec<u8>| l@) + self@.lines =~= prev.map_values(
                            |l: Vec<u8>| l@,
                        ) + mid.lines);
                    }
                },
                None => {
                    proof {
                        assert(out@.map_values(|l: Vec<u8>| l@) =~= before.lines);
                        assert(self@.lines =~= Seq::<Seq<u8>>::empty());
                        use_type_invariant(&*self);
                    }
                    return out;
                },
            }
        }
    }

    /// Convert any bytes remaining after the last complete line into `Vec<u8>`.
    pub fn drain_remainder(self) -> (rest: Option<Vec<u8>>)
        ensures
            match rest {
                None => self@.fragment.len() == 0,
                Some(r) => self@.fragment.len() > 0 && r@ == self@.fragment,
            },
    {
        let ByteLineBuf { lines: _, fragment } = self;
        if fragment.len() > 0 {
            Some(fragment)
        } else {
            None
        }
    }

    /// Extend via a single byte.
    pub fn extend_byte(&mut self, b: u8)
        ensures
            final(self)@ == old(self)@.push_byte(b),
            final(self)@.wf(),
    {
        proof {
            use_type_invariant(&*self);
        }
        let ghost before = self@;
        if b == NEWLINE {
            let mut line: Vec<u8> = Vec::new();
            proof {
                assert((LineBufView { lines: before.lines, fragment: line@ }).wf());
            }
            std::mem::swap(&mut line, &mut self.fragment);
            line.push(b);
            proof {
                assert(line@.drop_last() =~= before.fragment);
                assert(is_complete_line(line@));
            }
            let mut lines: VecDeque<Vec<u8>> = VecDeque::new();
            std::mem::swap(&mut lines, &mut self.lines);
            lines.push_back(line);
            proof {
                assert(lines@.map_values(|l: Vec<u8>| l@) =~= before.lines.push(
                    before.fragment.push(b),
                ));
                lemma_push_byte_wf(before, b);
            }
            self.lines = lines;
        } else {
            let mut fragment: Vec<u8> = Vec::new();
            proof {
                assert((LineBufView { lines: before.lines, fragment: fragment@ }).wf());
            }
            std::mem::swap(&mut fragment, &mut self.fragment);
            fragment.push(b);
            proof {
                lemma_push_byte_wf(before, b);
            }
            self.fragment = fragment;
        }
        proof {
            use_type_invariant(&*self);
        }
    }

    /// Extend via each byte of `bytes`, in order.
    pub fn extend(&mut self, bytes: &[u8])
        ensures
            final(self)@ == old(self)@.push_bytes(bytes@),
            final(self)@.wf(),
    {
        let ghost before = self@;
        let n = bytes.len();
        let mut i: usize = 0;
        while i < n
            invariant
                n == bytes@.len(),
                i <= n,
                self@ == before.push_bytes(bytes@.take(i as int)),
            decreases n - i,
        {
            self.extend_byte(bytes[i]);
            proof {
                assert(bytes@.take(i + 1).drop_last() =~= bytes@.take(i as int));
            }
            i = i + 1;
        }
        proof {
            assert(bytes@.take(n as int) =~= bytes@);
            use_type_invariant(&*self);
        }
    }

    /// Extend via each byte of a `bytes::Bytes` chunk, in order.
    pub fn extend_chunk(&mut self, chunk: Bytes)
        ensures
            final(self)@ == old(self)@.push_bytes(bytes_content(chunk)),
            final(self)@.wf(),
    {
        let v = bytes_into_vec(chunk);
        self.extend(v.as_slice());
    }

    /// Convert the buffer into an iterator over its pending lines, followed by
    /// the remaining bytes when there are any.
    pub fn into_iter(self) -> (iter: IntoIter)
        ensures
            iter@ == self@.items(),
    {
        let ghost v = self@;
        let ByteLineBuf { mut lines, fragment } = self;
        if fragment.len() > 0 {
            lines.push_back(fragment);
        }
        let iter = IntoIter { items: lines };
        proof {
            assert(iter@ =~= v.items());
        }
        iter
    }
}

impl Default for ByteLineBuf {
    fn default() -> (buf: Self)
        ensures
            buf@ == LineBufView::empty(),
            buf@.wf(),
    {
        ByteLineBuf::new()
    }
}

/// The items of a consumed [`ByteLineBuf`], in order.
#[derive(Debug)]
pub struct IntoIter {
    items: VecDeque<Vec<u8>>,
}

impl View for IntoIter {
    type V = Seq<Seq<u8>>;

    closed spec fn view(&self) -> Seq<Seq<u8>> {
        self.items@.map_values(|l: Vec<u8>| l@)
    }
}

impl IntoIter {
    /// Remove and return the next item, if any.
    pub fn next(&mut self) -> (item: Option<Vec<u8>>)
        ensures
            match item {
                None => old(self)@.len() == 0 && final(self)@ == old(self)@,
                Some(l) => {
                    &&& old(self)@.len() > 0
                    &&& l@ == old(self)@[0]
                    &&& final(self)@ == old(self)@.drop_first()
                },
            },
    {
        let ghost before = self@;
        let item = self.items.pop_front();
        proof {
            assert(self@ =~= if item is Some {
                before.drop_first()
            } else {
                before
            });
        }
        item
    }
}

} // verus!
