//! A fixed-size pane of text rows that keeps the first and the most recent
//! rows when more rows are appended than fit.
use vstd::prelude::*;

verus! {

/// A width and a height.
#[derive(Clone, Copy, Debug)]
pub struct Rect<N> where N: Copy {
    width: N,
    height: N,
}

impl<N> Rect<N> where N: Copy {
    /// The width.
    pub closed spec fn spec_width(&self) -> N {
        self.width
    }

    /// The height.
    pub closed spec fn spec_height(&self) -> N {
        self.height
    }

    /// A rectangle of the given width and height.
    pub fn new(width: N, height: N) -> (r: Self)
        ensures
            r.spec_width() == width,
            r.spec_height() == height,
    {
        Rect { width, height }
    }

    /// A rectangle from a `(width, height)` pair.
    pub fn from(dims: (N, N)) -> (r: Self)
        ensures
            r.spec_width() == dims.0,
            r.spec_height() == dims.1,
    {
        Rect { width: dims.0, height: dims.1 }
    }

    /// The width.
    #[verifier::when_used_as_spec(spec_width)]
    pub fn width(&self) -> (w: N)
        ensures
            w == self.spec_width(),
    {
        self.width
    }

    /// The height.
    #[verifier::when_used_as_spec(spec_height)]
    pub fn height(&self) -> (h: N)
        ensures
            h == self.spec_height(),
    {
        self.height
    }

    /// The same rectangle with both dimensions converted by `From`.
    pub fn convert_into<M>(&self) -> (r: Rect<M>) where M: Copy + From<N>
        ensures
            <M as vstd::std_specs::convert::FromSpec<N>>::obeys_from_spec() ==> r.spec_width() == <M as vstd::std_specs::convert::FromSpec<
                N,
            >>::from_spec(self.spec_width()) && r.spec_height() == <M as vstd::std_specs::convert::FromSpec<
                N,
            >>::from_spec(self.spec_height()),
    {
        let width = M::from(self.width);
        let height = M::from(self.height);
        Rect { width, height }
    }
}

/// The (head, tail) truncation heights of a pane of the given height; they
/// exclude the truncation indicator row.
pub open spec fn truncation_heights_spec(height: nat) -> (nat, nat) {
    if height <= 1 {
        (1, 0)
    } else {
        let head: nat = if (height - 1) / 2 > 1 {
            ((height - 1) / 2) as nat
        } else {
            1
        };
        (head, (height - head - 1) as nat)
    }
}

/// Return the (head, tail) truncation heights; these exclude a truncation
/// indicator row.
pub fn truncation_heights(height: usize) -> (hs: (usize, usize))
    requires
        height > 0,
    ensures
        hs.0 == truncation_heights_spec(height as nat).0,
        hs.1 == truncation_heights_spec(height as nat).1,
        hs.0 >= 1,
        height >= 2 ==> hs.0 + hs.1 + 1 == height,
        height >= 3 ==> hs.1 == hs.0 || hs.1 == hs.0 + 1,
        height <= 2 ==> hs.0 == 1 && hs.1 == 0,
{
    if height == 1 {
        (1, 0)
    } else {
        let half = (height - 1) / 2;
        let head = if half > 1 {
            half
        } else {
            1
        };
        let tail = height - head - 1;
        (head, tail)
    }
}

/// Law: a truncated pane splits the rows it keeps evenly between the first
/// rows and the latest rows: besides the indicator row, head and tail fill
/// the pane, the tail is as tall as the head or one row taller, and a pane
/// of one or two rows keeps only the first row.
pub proof fn law_truncation_balanced(height: nat)
    requires
        height >= 1,
    ensures
        ({
            let (head, tail) = truncation_heights_spec(height);
            &&& head >= 1
            &&& height >= 2 ==> head + tail + 1 == height
            &&& height >= 3 ==> tail == head || tail == head + 1
            &&& height <= 2 ==> head == 1 && tail == 0
        }),
{
}

/// The rows a pane holds: all of them, or, once more were appended than fit,
/// the first ones and the most recent ones.
pub enum ContentView<M> {
    Full(Seq<(M, Seq<char>)>),
    Truncated { head: Seq<(M, Seq<char>)>, tail: Seq<(M, Seq<char>)> },
}

impl<M> ContentView<M> {
    /// The number of rows shown, counting the truncation indicator row.
    pub open spec fn len(self) -> nat {
        match self {
            ContentView::Full(b) => b.len(),
            ContentView::Truncated { head, tail } => head.len() + tail.len() + 1,
        }
    }

    /// The rows shown, in order; `None` is the truncation indicator row.
    pub open spec fn rows(self) -> Seq<Option<(M, Seq<char>)>> {
        match self {
            ContentView::Full(b) => b.map_values(|e: (M, Seq<char>)| Some(e)),
            ContentView::Truncated { head, tail } => head.map_values(
                |e: (M, Seq<char>)| Some(e),
            ).push(None) + tail.map_values(|e: (M, Seq<char>)| Some(e)),
        }
    }

    /// The content of a pane of height `height` that was sent `all`, in order.
    pub open spec fn layout(height: nat, all: Seq<(M, Seq<char>)>) -> ContentView<M> {
        if all.len() <= height {
            ContentView::Full(all)
        } else {
            ContentView::Truncated {
                head: all.take(truncation_heights_spec(height).0 as int),
                tail: all.skip(all.len() - truncation_heights_spec(height).1),
            }
        }
    }

    /// The content holds no more rows than a pane of height `height` keeps.
    pub open spec fn fits(self, height: nat) -> bool {
        match self {
            ContentView::Full(b) => b.len() <= height,
            ContentView::Truncated { head, tail } => {
                &&& head.len() == truncation_heights_spec(height).0
                &&& tail.len() == truncation_heights_spec(height).1
            },
        }
    }

    /// The content after `entry` was appended to a pane of height `height`.
    pub open spec fn append(self, height: nat, entry: (M, Seq<char>)) -> ContentView<M> {
        match self {
            ContentView::Full(b) => if b.len() + 1 == height + 1 {
                let all = b.push(entry);
                let (hh, ht) = truncation_heights_spec(height);
                let tail = all.skip(hh as int);
                ContentView::Truncated { head: all.take(hh as int), tail: tail.skip(tail.len() - ht) }
            } else {
                ContentView::Full(b.push(entry))
            },
            ContentView::Truncated { head, tail } => {
                let t = tail.push(entry);
                ContentView::Truncated {
                    head,
                    tail: t.skip(t.len() - truncation_heights_spec(height).1),
                }
            },
        }
    }
}

/// The rows of a pane.
#[derive(Debug)]
pub enum Content<M> {
    Full(Vec<(M, String)>),
    Truncated { head: Vec<(M, String)>, tail: Vec<(M, String)> },
}

/// The abstract value of rows held in a vector.
pub open spec fn entries<M>(v: Seq<(M, String)>) -> Seq<(M, Seq<char>)> {
    v.map_values(|e: (M, String)| (e.0, e.1@))
}

impl<M> View for Content<M> {
    type V = ContentView<M>;

    open spec fn view(&self) -> ContentView<M> {
        match self {
            Content::Full(b) => ContentView::Full(entries(b@)),
            Content::Truncated { head, tail } => ContentView::Truncated {
                head: entries(head@),
                tail: entries(tail@),
            },
        }
    }
}

impl<M> Content<M> {
    /// The number of rows shown, counting the truncation indicator row.
    pub(crate) fn len(&self) -> (n: usize)
        requires
            self@.len() <= usize::MAX,
        ensures
            n == self@.len(),
    {
        match self {
            Content::Full(b) => b.len(),
            Content::Truncated { head, tail } => head.len() + tail.len() + 1,
        }
    }

    /// Append a row to the content of a pane of height `height`, truncating
    /// when more rows arrived than fit.
    pub(crate) fn append(&mut self, height: usize, meta: M, line: String)
        requires
            height > 0,
            old(self)@.fits(height as nat),
        ensures
            final(self)@ == old(self)@.append(height as nat, (meta, line@)),
            final(self)@.fits(height as nat),
    {
        let ghost entry = (meta, line@);
        self.append_raw(meta, line);
        self.start_truncation_if_necessary(height);
        self.truncate_tail_if_necessary(height);
        proof {
            lemma_append_fits(old(self)@, height as nat, entry);
        }
    }

    /// Append a row at the end, without truncating.
    pub(crate) fn append_raw(&mut self, meta: M, line: String)
        ensures
            match old(self)@ {
                ContentView::Full(b) => final(self)@ == ContentView::Full(b.push((meta, line@))),
                ContentView::Truncated { head, tail } => final(self)@ == (ContentView::Truncated {
                    head,
                    tail: tail.push((meta, line@)),
                }),
            },
    {
        match self {
            Content::Full(b) => {
                let ghost old_b = b@;
                b.push((meta, line));
                proof {
                    assert(entries(b@) =~= entries(old_b).push((meta, line@)));
                }
            },
            Content::Truncated { head: _, tail } => {
                let ghost old_t = tail@;
                tail.push((meta, line));
                proof {
                    assert(entries(tail@) =~= entries(old_t).push((meta, line@)));
                }
            },
        }
    }

    /// Once there is one row more than the height, split the rows into the
    /// first ones and the rest.
    pub(crate) fn start_truncation_if_necessary(&mut self, height: usize)
        requires
            height > 0,
        ensures
            match old(self)@ {
                ContentView::Full(b) => if b.len() == height + 1 {
                    final(self)@ == (ContentView::Truncated {
                        head: b.take(truncation_heights_spec(height as nat).0 as int),
                        tail: b.skip(truncation_heights_spec(height as nat).0 as int),
                    })
                } else {
                    final(self)@ == old(self)@
                },
                _ => final(self)@ == old(self)@,
            },
    {
        let (height_head, _) = truncation_heights(height);
        let full = match self {
            Content::Full(b) => b.len() > 0 && b.len() - 1 == height,
            _ => false,
        };
        if full {
            let mut taken = Content::Full(Vec::new());
            std::mem::swap(&mut taken, self);
            match taken {
                Content::Full(mut head) => {
                    let ghost all = head@;
                    let tail = head.split_off(height_head);
                    proof {
                        assert(entries(head@) =~= entries(all).take(height_head as int));
                        assert(entries(tail@) =~= entries(all).skip(height_head as int));
                    }
                    *self = Content::Truncated { head, tail };
                },
                Content::Truncated { head, tail } => {
                    *self = Content::Truncated { head, tail };
                },
            }
        }
    }

    /// Keep only the most recent rows of the tail.
    pub(crate) fn truncate_tail_if_necessary(&mut self, height: usize)
        requires
            height > 0,
            old(self)@ is Truncated ==> old(self)@->tail.len() >= truncation_heights_spec(
                height as nat,
            ).1,
        ensures
            match old(self)@ {
                ContentView::Truncated { head, tail } => final(self)@ == (ContentView::Truncated {
                    head,
                    tail: tail.skip(tail.len() - truncation_heights_spec(height as nat).1),
                }),
                _ => final(self)@ == old(self)@,
            },
    {
        let truncated = match self {
            Content::Truncated { .. } => true,
            _ => false,
        };
        if truncated {
            let (_, height_tail) = truncation_heights(height);
            let mut taken = Content::Full(Vec::new());
            std::mem::swap(&mut taken, self);
            match taken {
                Content::Truncated { head, tail } => {
                    let ghost t = tail@;
                    let drop = tail.len() - height_tail;
                    let mut rest = tail;
                    let kept_tail = rest.split_off(drop);
                    proof {
                        assert(entries(kept_tail@) =~= entries(t).skip(drop as int));
                    }
                    *self = Content::Truncated { head, tail: kept_tail };
                },
                Content::Full(b) => {
                    *self = Content::Full(b);
                },
            }
        }
    }
}

/// Appending a row keeps the content within the pane's height.
proof fn lemma_append_fits<M>(c: ContentView<M>, height: nat, entry: (M, Seq<char>))
    requires
        height > 0,
        c.fits(height),
    ensures
        c.append(height, entry).fits(height),
{
}


/// Law: a pane that was sent the rows `all` shows the layout of `all`, and
/// sending one more row shows the layout of the longer sequence; so a pane
/// always shows every row sent while they fit, and otherwise the first rows,
/// a truncation indicator and the most recent rows.
pub proof fn law_append_layout<M>(height: nat, all: Seq<(M, Seq<char>)>, entry: (M, Seq<char>))
    requires
        height > 0,
    ensures
        ContentView::<M>::layout(height, Seq::empty()) == ContentView::<M>::Full(Seq::empty()),
        ContentView::layout(height, all).fits(height),
        ContentView::layout(height, all).append(height, entry) == ContentView::layout(
            height,
            all.push(entry),
        ),
{
    let (hh, ht) = truncation_heights_spec(height);
    let next = all.push(entry);
    if all.len() < height {
    } else if all.len() == height {
        let tail = next.skip(hh as int);
        assert(tail.skip(tail.len() - ht) =~= next.skip(next.len() - ht));
    } else {
        let tail = all.skip(all.len() - ht).push(entry);
        assert(tail.skip(tail.len() - ht) =~= next.skip(next.len() - ht));
        assert(all.take(hh as int) =~= next.take(hh as int));
    }
}

/// Law: the rows shown never exceed the pane's height, except that a pane of
/// height 1 shows its first row and the truncation indicator.
pub proof fn law_fits_height<M>(c: ContentView<M>, height: nat)
    requires
        height > 0,
        c.fits(height),
    ensures
        c.len() <= if height >= 2 {
            height
        } else {
            2
        },
        c.rows().len() == c.len(),
{
}

/// The rows shown are as many as the content's length.
pub proof fn lemma_rows_len<M>(c: ContentView<M>)
    ensures
        c.rows().len() == c.len(),
{
}

/// The content of a pane of height `height` after `rows` were appended, in
/// order.
pub open spec fn append_all<M>(c: ContentView<M>, height: nat, rows: Seq<(M, Seq<char>)>) -> ContentView<M>
    decreases rows.len(),
{
    if rows.len() == 0 {
        c
    } else {
        append_all(c, height, rows.drop_last()).append(height, rows.last())
    }
}

/// Law: appending the rows `rows`, in order, to an empty pane of height `h`
/// gives the layout of `rows`.
pub proof fn law_append_all_layout<M>(h: nat, rows: Seq<(M, Seq<char>)>)
    requires
        h > 0,
    ensures
        append_all(ContentView::<M>::Full(Seq::empty()), h, rows) == ContentView::layout(h, rows),
    decreases rows.len(),
{
    if rows.len() > 0 {
        let prefix = rows.drop_last();
        law_append_all_layout(h, prefix);
        law_append_layout(h, prefix, rows.last());
        assert(prefix.push(rows.last()) =~= rows);
    } else {
        assert(rows =~= Seq::<(M, Seq<char>)>::empty());
    }
}

/// Law: the rows a pane of height `h` shows for the rows `all` sent to it:
/// every row, in order, while they fit; otherwise the first rows, one
/// truncation indicator row, and the most recent rows. For heights of 2 or
/// more the pane then shows exactly `h` rows.
pub proof fn law_layout_rows<M>(h: nat, all: Seq<(M, Seq<char>)>)
    requires
        h > 0,
    ensures
        ({
            let rows = ContentView::layout(h, all).rows();
            let (hh, ht) = truncation_heights_spec(h);
            &&& all.len() <= h ==> rows == all.map_values(|e: (M, Seq<char>)| Some(e))
            &&& all.len() > h ==> {
                &&& rows.len() == hh + ht + 1
                &&& h >= 2 ==> rows.len() == h
                &&& forall|i: int| 0 <= i < hh ==> rows[i] == Some(#[trigger] all[i])
                &&& rows[hh as int] is None
                &&& forall|i: int|
                    0 <= i < ht ==> rows[hh + 1 + i] == Some(#[trigger] all[all.len() - ht + i])
            }
        }),
{
    let (hh, ht) = truncation_heights_spec(h);
    if all.len() > h {
        let rows = ContentView::layout(h, all).rows();
        let head = all.take(hh as int);
        let tail = all.skip(all.len() - ht);
        let hm = head.map_values(|e: (M, Seq<char>)| Some(e));
        assert(rows == hm.push(None) + tail.map_values(|e: (M, Seq<char>)| Some(e)));
        assert forall|i: int| 0 <= i < hh implies rows[i] == Some(#[trigger] all[i]) by {
            assert(rows[i] == hm.push(None)[i]);
        }
        assert(rows[hh as int] == hm.push(None)[hh as int]);
        assert forall|i: int| 0 <= i < ht implies rows[hh + 1 + i] == Some(
            #[trigger] all[all.len() - ht + i],
        ) by {
            assert(tail[i] == all[all.len() - ht + i]);
        }
    }
}

/// A text pane of a fixed size, whose rows carry metadata of type `M`.
#[derive(Debug)]
pub struct Pane<M> {
    rect: Rect<u16>,
    content: Content<M>,
}

/// A row that does not fit within the width of a pane.
#[derive(Debug)]
pub struct AppendError {
    /// The row that was refused.
    pub line: String,
    /// The width of the pane.
    pub width: usize,
}

impl<M> Pane<M> {
    #[verifier::type_invariant]
    closed spec fn inv(&self) -> bool {
        self.content@.fits(self.rect.spec_height() as nat)
    }

    /// The rectangle of the pane.
    pub closed spec fn spec_rect(&self) -> Rect<u16> {
        self.rect
    }

    /// The rows that the pane holds.
    pub closed spec fn spec_content(&self) -> ContentView<M> {
        self.content@
    }

    /// An empty pane of the given size.
    pub fn from(rect: Rect<u16>) -> (p: Self)
        ensures
            p.spec_rect() == rect,
            p.spec_content() == ContentView::<M>::Full(Seq::empty()),
    {
        let p = Pane { rect, content: Content::Full(Vec::new()) };
        assert(p.content@ == ContentView::<M>::Full(Seq::empty())) by {
            assert(entries::<M>(Seq::empty()) =~= Seq::empty());
        }
        p
    }

    /// The width, in characters.
    pub fn width(&self) -> (w: usize)
        ensures
            w == self.spec_rect().spec_width(),
    {
        self.rect.width() as usize
    }

    /// The height, in rows.
    pub fn height(&self) -> (h: usize)
        ensures
            h == self.spec_rect().spec_height(),
    {
        self.rect.height() as usize
    }

    /// The number of rows shown, counting the truncation indicator row.
    pub fn content_len(&self) -> (n: usize)
        ensures
            n == self.spec_content().len(),
            n <= if self.spec_rect().spec_height() >= 2 {
                self.spec_rect().spec_height() as nat
            } else {
                2
            },
    {
        proof {
            use_type_invariant(self);
        }
        self.content.len()
    }

    /// Append a row, unless it is wider than the pane.
    pub fn append_line(&mut self, meta: M, line: String) -> (r: Result<(), AppendError>)
        requires
            line@.len() <= old(self).spec_rect().spec_width() ==> old(self).spec_rect().spec_height()
                > 0,
        ensures
            final(self).spec_rect() == old(self).spec_rect(),
            final(self).spec_content().fits(final(self).spec_rect().spec_height() as nat),
            match r {
                Ok(()) => {
                    &&& line@.len() <= old(self).spec_rect().spec_width()
                    &&& final(self).spec_content() == old(self).spec_content().append(
                        old(self).spec_rect().spec_height() as nat,
                        (meta, line@),
                    )
                },
                Err(e) => {
                    &&& line@.len() > old(self).spec_rect().spec_width()
                    &&& e.line@ == line@
                    &&& e.width == old(self).spec_rect().spec_width()
                    &&& final(self).spec_content() == old(self).spec_content()
                },
            },
    {
        proof {
            use_type_invariant(&*self);
        }
        let width = self.width();
        let height = self.height();
        if line.as_str().unicode_len() > width {
            proof {
                use_type_invariant(&*self);
            }
            Err(AppendError { line, width })
        } else {
            let mut content = Content::Full(Vec::new());
            proof {
                assert(content@ == ContentView::<M>::Full(Seq::empty())) by {
                    assert(entries::<M>(Seq::empty()) =~= Seq::empty());
                }
            }
            std::mem::swap(&mut content, &mut self.content);
            content.append(height, meta, line);
            self.content = content;
            proof {
                use_type_invariant(&*self);
            }
            Ok(())
        }
    }

    /// Return an iterator over the rows shown; a `None` row is the truncation
    /// indicator.
    pub fn iter(&self) -> (it: ContentIter<'_, M>)
        ensures
            it.spec_rows() == self.spec_content().rows(),
            it.spec_pos() == 0,
    {
        proof {
            use_type_invariant(self);
        }
        ContentIter { content: &self.content, pos: 0 }
    }
}

/// The abstract value of a row handed out by a [`ContentIter`].
pub open spec fn row_view<M>(row: Option<(M, &str)>) -> Option<(M, Seq<char>)> {
    match row {
        Some((m, s)) => Some((m, s@)),
        None => None,
    }
}

/// An iterator over the rows of a pane; a `None` row is the truncation
/// indicator.
pub struct ContentIter<'a, M> {
    content: &'a Content<M>,
    pos: usize,
}

impl<'a, M> ContentIter<'a, M> {
    #[verifier::type_invariant]
    closed spec fn inv(&self) -> bool {
        self.content@.len() <= 0x10000
    }

    /// All the rows, including those already handed out.
    pub closed spec fn spec_rows(&self) -> Seq<Option<(M, Seq<char>)>> {
        self.content@.rows()
    }

    /// How many rows were handed out.
    pub closed spec fn spec_pos(&self) -> nat {
        self.pos as nat
    }

    /// Hand out the next row, if any.
    pub fn next(&mut self) -> (row: Option<Option<(M, &'a str)>>) where M: Copy
        ensures
            final(self).spec_rows() == old(self).spec_rows(),
            old(self).spec_pos() < old(self).spec_rows().len() ==> {
                &&& row matches Some(r)
                &&& row_view(r) == old(self).spec_rows()[old(self).spec_pos() as int]
                &&& final(self).spec_pos() == old(self).spec_pos() + 1
            },
            old(self).spec_pos() >= old(self).spec_rows().len() ==> {
                &&& row is None
                &&& final(self).spec_pos() == old(self).spec_pos()
            },
    {
        proof {
            use_type_invariant(&*self);
        }
        let c: &'a Content<M> = self.content;
        let pos = self.pos;
        match c {
            Content::Full(b) => {
                if pos < b.len() {
                    self.pos = pos + 1;
                    let m = b[pos].0;
                    let s: &'a str = b[pos].1.as_str();
                    Some(Some((m, s)))
                } else {
                    None
                }
            },
            Content::Truncated { head, tail } => {
                if pos < head.len() {
                    self.pos = pos + 1;
                    let m = head[pos].0;
                    let s: &'a str = head[pos].1.as_str();
                    Some(Some((m, s)))
                } else if pos == head.len() {
                    self.pos = pos + 1;
                    Some(None)
                } else if pos - head.len() - 1 < tail.len() {
                    let k = pos - head.len() - 1;
                    self.pos = pos + 1;
                    let m = tail[k].0;
                    let s: &'a str = tail[k].1.as_str();
                    Some(Some((m, s)))
                } else {
                    None
                }
            },
        }
    }
}

} // verus!
