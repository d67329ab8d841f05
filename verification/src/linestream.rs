//! The decisions of a stream that maps a stream of byte chunks into a stream
//! of byte lines.
//!
//! Polling the upstream is left to the caller: each poll first asks
//! [`ByteLineStream::poll_buffered`]; when that has no answer, the caller
//! polls the upstream once and hands the outcome to
//! [`ByteLineStream::on_upstream`], repeating while that says `Continue`.
use crate::linebuf::{
    has_no_newline, is_complete_line, law_items, law_push_bytes_content, law_push_bytes_split,
    ByteLineBuf, IntoIter, LineBufView,
};
use vstd::prelude::*;

verus! {

/// What one poll of the upstream gave.
pub enum Upstream<E> {
    /// A chunk of bytes.
    Chunk(Vec<u8>),
    /// An error item.
    Failed(E),
    /// The upstream ended.
    Ended,
    /// The upstream is not ready.
    Pending,
}

/// What to do after the upstream's answer was taken into account.
pub enum UpstreamStep<E> {
    /// Poll again, starting with [`ByteLineStream::poll_buffered`].
    Continue,
    /// Hand this error item downstream.
    Failed(E),
    /// Report that the stream is not ready.
    Pending,
}

enum State {
    Active(ByteLineBuf),
    WindDown(IntoIter),
}

/// The abstract state of a [`ByteLineStream`]: whether the upstream ended,
/// the items that are ready to be handed out, and, while the upstream is
/// active, the bytes received after the last `b'\n'`.
pub struct StreamView {
    pub ended: bool,
    pub queue: Seq<Seq<u8>>,
    pub fragment: Seq<u8>,
}

impl StreamView {
    /// The line buffer that an active stream holds.
    pub open spec fn buffer(self) -> LineBufView {
        LineBufView { lines: self.queue, fragment: self.fragment }
    }

    /// The bytes that are still to come out of the stream, in order.
    pub open spec fn pending_bytes(self) -> Seq<u8> {
        self.queue.flatten() + self.fragment
    }
}

/// Law: a chunk from the upstream is appended, whole and in order, to the
/// bytes still to come out of an active stream, which stays well formed.
pub proof fn law_chunk_appends(v: StreamView, bytes: Seq<u8>)
    requires
        !v.ended,
        v.buffer().wf(),
    ensures
        ({
            let b = v.buffer().push_bytes(bytes);
            let w = StreamView { ended: false, queue: b.lines, fragment: b.fragment };
            &&& w.buffer().wf()
            &&& w.pending_bytes() == v.pending_bytes() + bytes
        }),
{
    law_push_bytes_content(v.buffer(), bytes);
}

/// Law: when the upstream ends, nothing is lost: the items left to hand out
/// are exactly the bytes still to come out; none is empty, and each is a
/// complete line except that the last may be a final fragment without
/// `b'\n'`.
pub proof fn law_end_keeps_bytes(v: StreamView)
    requires
        !v.ended,
        v.buffer().wf(),
    ensures
        ({
            let items = v.buffer().items();
            &&& items.flatten() == v.pending_bytes()
            &&& forall|i: int| 0 <= i < items.len() ==> (#[trigger] items[i]).len() > 0
            &&& forall|i: int|
                0 <= i < items.len() ==> is_complete_line(#[trigger] items[i]) || (i == items.len()
                    - 1 && has_no_newline(items[i]))
        }),
{
    law_items(v.buffer());
}

/// Law: handing out an item removes exactly that item from the front of the
/// bytes still to come out.
pub proof fn law_take_front(v: StreamView)
    requires
        v.queue.len() > 0,
    ensures
        v.queue[0] + (StreamView { queue: v.queue.drop_first(), ..v }).pending_bytes()
            == v.pending_bytes(),
{
    assert(v.queue.flatten() == v.queue.first() + v.queue.drop_first().flatten());
    assert(v.queue[0] + (StreamView { queue: v.queue.drop_first(), ..v }).pending_bytes()
        =~= v.pending_bytes());
}

/// What the upstream gives in a run of polls, leaving out `Pending`, which
/// changes nothing; the end of the sequence is the end of the upstream.
pub enum UpstreamEvent<E> {
    Chunk(Seq<u8>),
    Failed(E),
}

/// What the stream hands out in a run of polls.
pub enum StreamItem<E> {
    Line(Seq<u8>),
    Failed(E),
}

/// Lines handed out as stream items.
pub open spec fn line_items<E>(lines: Seq<Seq<u8>>) -> Seq<StreamItem<E>> {
    lines.map_values(|l: Seq<u8>| StreamItem::<E>::Line(l))
}

/// Chunks given as upstream events.
pub open spec fn chunk_events<E>(chunks: Seq<Seq<u8>>) -> Seq<UpstreamEvent<E>> {
    chunks.map_values(|c: Seq<u8>| UpstreamEvent::<E>::Chunk(c))
}

/// The stream with no item ready and the given fragment.
pub open spec fn idle(fragment: Seq<u8>) -> StreamView {
    StreamView { ended: false, queue: Seq::empty(), fragment }
}

/// Everything a stream in state `v` hands out, poll after poll, until it
/// finishes, when its upstream gives `events` and then ends: each poll
/// hands out a ready item if there is one, and otherwise takes the next
/// event as `on_upstream` does.
pub open spec fn drive<E>(v: StreamView, events: Seq<UpstreamEvent<E>>) -> Seq<StreamItem<E>>
    decreases events.len(), v.queue.len(),
{
    if v.queue.len() > 0 {
        seq![StreamItem::Line(v.queue[0])] + drive(
            StreamView { queue: v.queue.drop_first(), ..v },
            events,
        )
    } else if v.ended {
        Seq::empty()
    } else if events.len() == 0 {
        line_items(v.buffer().items())
    } else {
        match events[0] {
            UpstreamEvent::Chunk(c) => {
                let b = v.buffer().push_bytes(c);
                drive(
                    StreamView { ended: false, queue: b.lines, fragment: b.fragment },
                    events.drop_first(),
                )
            },
            UpstreamEvent::Failed(e) => seq![StreamItem::Failed(e)] + drive(v, events.drop_first()),
        }
    }
}

/// The ready items come out first.
proof fn lemma_drive_queue<E>(v: StreamView, events: Seq<UpstreamEvent<E>>)
    ensures
        drive(v, events) == line_items::<E>(v.queue) + drive(
            (StreamView { queue: Seq::empty(), ..v }),
            events,
        ),
    decreases v.queue.len(),
{
    if v.queue.len() > 0 {
        let w = StreamView { queue: v.queue.drop_first(), ..v };
        lemma_drive_queue(w, events);
        assert(StreamView { queue: Seq::empty(), ..w } == StreamView { queue: Seq::empty(), ..v });
        assert(line_items::<E>(v.queue) =~= seq![StreamItem::Line(v.queue[0])] + line_items::<E>(
            w.queue,
        ));
        assert(drive(v, events) =~= line_items::<E>(v.queue) + drive(
            StreamView { queue: Seq::empty(), ..v },
            events,
        ));
    } else {
        assert(v.queue =~= Seq::<Seq<u8>>::empty());
        assert(StreamView { queue: Seq::empty(), ..v } == v);
        assert(line_items::<E>(v.queue) =~= Seq::<StreamItem<E>>::empty());
        assert(drive(v, events) =~= Seq::<StreamItem<E>>::empty() + drive(v, events));
    }
}

/// Receiving bytes never touches the lines already pending.
proof fn lemma_push_bytes_keeps_lines(lines: Seq<Seq<u8>>, fragment: Seq<u8>, bs: Seq<u8>)
    ensures
        ({
            let p = (LineBufView { lines: Seq::empty(), fragment }).push_bytes(bs);
            (LineBufView { lines, fragment }).push_bytes(bs) == (LineBufView {
                lines: lines + p.lines,
                fragment: p.fragment,
            })
        }),
    decreases bs.len(),
{
    if bs.len() == 0 {
        assert(lines + Seq::<Seq<u8>>::empty() =~= lines);
    } else {
        lemma_push_bytes_keeps_lines(lines, fragment, bs.drop_last());
        let p = (LineBufView { lines: Seq::empty(), fragment }).push_bytes(bs.drop_last());
        if bs.last() == crate::linebuf::NEWLINE {
            assert((lines + p.lines).push(p.fragment.push(bs.last())) =~= lines + p.lines.push(
                p.fragment.push(bs.last()),
            ));
        }
    }
}

/// The items of a buffer are its pending lines followed by the items of its
/// fragment.
proof fn lemma_items_split(lines: Seq<Seq<u8>>, fragment: Seq<u8>)
    ensures
        (LineBufView { lines, fragment }).items() == lines + (LineBufView {
            lines: Seq::empty(),
            fragment,
        }).items(),
{
    if fragment.len() > 0 {
        assert(lines.push(fragment) =~= lines + Seq::<Seq<u8>>::empty().push(fragment));
    } else {
        assert(lines =~= lines + Seq::<Seq<u8>>::empty());
    }
}

/// Handing out the lines of two parts is handing out those of their join.
proof fn lemma_line_items_add<E>(a: Seq<Seq<u8>>, b: Seq<Seq<u8>>)
    ensures
        line_items::<E>(a + b) == line_items::<E>(a) + line_items::<E>(b),
{
    assert(line_items::<E>(a + b) =~= line_items::<E>(a) + line_items::<E>(b));
}

/// Law: when the upstream of an active stream gives the chunks `chunks` and
/// then ends, the stream hands out its ready items and then the items of
/// its buffer after receiving all the chunks joined together: the lines of
/// the joined bytes, then what follows their last `b'\n'` if anything does.
pub proof fn law_run_of_chunks<E>(v: StreamView, chunks: Seq<Seq<u8>>)
    requires
        !v.ended,
    ensures
        drive(v, chunk_events::<E>(chunks)) == line_items::<E>(
            v.buffer().push_bytes(chunks.flatten()).items(),
        ),
    decreases chunks.len(),
{
    lemma_drive_queue(v, chunk_events::<E>(chunks));
    let v0 = idle(v.fragment);
    assert(StreamView { queue: Seq::empty(), ..v } == v0);
    lemma_items_split(v.queue, v.fragment);
    if chunks.len() == 0 {
        assert(chunks.flatten() =~= Seq::<u8>::empty());
        assert(v.buffer().push_bytes(chunks.flatten()) == v.buffer());
        assert(v0.buffer() == (LineBufView { lines: Seq::empty(), fragment: v.fragment }));
        lemma_line_items_add::<E>(v.queue, v0.buffer().items());
    } else {
        let c = chunks[0];
        let rest = chunks.drop_first();
        let p = v0.buffer().push_bytes(c);
        let v1 = StreamView { ended: false, queue: p.lines, fragment: p.fragment };
        assert(chunk_events::<E>(chunks)[0] == UpstreamEvent::<E>::Chunk(c));
        assert(chunk_events::<E>(chunks).drop_first() =~= chunk_events::<E>(rest));
        law_run_of_chunks::<E>(v1, rest);
        assert(v1.buffer() == p);
        assert(chunks.flatten() == c + rest.flatten());
        law_push_bytes_split(v.buffer(), c, rest.flatten());
        lemma_push_bytes_keeps_lines(v.queue, v.fragment, c);
        let r = rest.flatten();
        lemma_push_bytes_keeps_lines(v.queue + p.lines, p.fragment, r);
        lemma_push_bytes_keeps_lines(p.lines, p.fragment, r);
        let y = (LineBufView { lines: Seq::empty(), fragment: p.fragment }).push_bytes(r);
        assert(v.queue + p.lines + y.lines =~= v.queue + (p.lines + y.lines));
        let whole = v.buffer().push_bytes(chunks.flatten());
        assert(whole == (LineBufView { lines: v.queue + (p.lines + y.lines), fragment: y.fragment }));
        lemma_items_split(v.queue, y.fragment);
        lemma_items_split(v.queue + (p.lines + y.lines), y.fragment);
        lemma_items_split(p.lines + y.lines, y.fragment);
        assert(whole.items() =~= v.queue + p.push_bytes(r).items());
        lemma_line_items_add::<E>(v.queue, p.push_bytes(r).items());
    }
}

/// Law: an error from the upstream is passed on after every line completed
/// by the chunks before it, and the bytes after the last `b'\n'` stay
/// buffered for what follows.
pub proof fn law_error_after_lines<E>(
    v: StreamView,
    chunks: Seq<Seq<u8>>,
    e: E,
    rest: Seq<UpstreamEvent<E>>,
)
    requires
        !v.ended,
    ensures
        ({
            let w = v.buffer().push_bytes(chunks.flatten());
            drive(v, chunk_events::<E>(chunks) + seq![UpstreamEvent::Failed(e)] + rest)
                == line_items::<E>(w.lines) + seq![StreamItem::Failed(e)] + drive(idle(w.fragment), rest)
        }),
    decreases chunks.len(),
{
    let evs = chunk_events::<E>(chunks) + seq![UpstreamEvent::Failed(e)] + rest;
    lemma_drive_queue(v, evs);
    let v0 = idle(v.fragment);
    assert(StreamView { queue: Seq::empty(), ..v } == v0);
    if chunks.len() == 0 {
        assert(chunks.flatten() =~= Seq::<u8>::empty());
        assert(evs[0] == UpstreamEvent::Failed(e));
        assert(evs.drop_first() =~= rest);
        assert(v.buffer().push_bytes(chunks.flatten()) == v.buffer());
        assert(drive(v0, evs) == seq![StreamItem::Failed(e)] + drive(v0, rest));
        assert(line_items::<E>(v.queue) + (seq![StreamItem::Failed(e)] + drive(v0, rest))
            =~= line_items::<E>(v.queue) + seq![StreamItem::Failed(e)] + drive(v0, rest));
    } else {
        let c = chunks[0];
        let tail = chunks.drop_first();
        let p = v0.buffer().push_bytes(c);
        let v1 = StreamView { ended: false, queue: p.lines, fragment: p.fragment };
        assert(evs[0] == UpstreamEvent::<E>::Chunk(c));
        assert(evs.drop_first() =~= chunk_events::<E>(tail) + seq![UpstreamEvent::Failed(e)] + rest);
        law_error_after_lines::<E>(v1, tail, e, rest);
        assert(v1.buffer() == p);
        assert(chunks.flatten() == c + tail.flatten());
        law_push_bytes_split(v.buffer(), c, tail.flatten());
        lemma_push_bytes_keeps_lines(v.queue, v.fragment, c);
        let r = tail.flatten();
        lemma_push_bytes_keeps_lines(v.queue + p.lines, p.fragment, r);
        lemma_push_bytes_keeps_lines(p.lines, p.fragment, r);
        let y = (LineBufView { lines: Seq::empty(), fragment: p.fragment }).push_bytes(r);
        let w = v.buffer().push_bytes(chunks.flatten());
        assert(v.queue + p.lines + y.lines =~= v.queue + (p.lines + y.lines));
        assert(w == (LineBufView { lines: v.queue + (p.lines + y.lines), fragment: y.fragment }));
        lemma_line_items_add::<E>(v.queue, p.lines + y.lines);
        let tailpart = seq![StreamItem::Failed(e)] + drive(idle(y.fragment), rest);
        assert(line_items::<E>(v.queue) + (line_items::<E>(p.lines + y.lines) + seq![StreamItem::Failed(e)] + drive(idle(y.fragment), rest))
            =~= line_items::<E>(v.queue + (p.lines + y.lines)) + seq![StreamItem::Failed(e)] + drive(idle(y.fragment), rest));
    }
}

/// Law: a poll answered from what is buffered hands out exactly what `drive`
/// hands out first: the next ready item, nothing once the stream finished,
/// or nothing yet when the upstream must be polled; `drive` of the state
/// after the poll gives the rest.
pub proof fn law_poll_buffered_step<E>(
    before: StreamView,
    after: StreamView,
    answer: Option<Option<Seq<u8>>>,
    events: Seq<UpstreamEvent<E>>,
)
    requires
        match answer {
            Some(Some(line)) => {
                &&& before.queue.len() > 0
                &&& line == before.queue[0]
                &&& after == (StreamView { queue: before.queue.drop_first(), ..before })
            },
            Some(None) => before.ended && before.queue.len() == 0 && after == before,
            None => !before.ended && before.queue.len() == 0 && after == before,
        },
    ensures
        match answer {
            Some(Some(line)) => drive(before, events) == seq![StreamItem::Line(line)] + drive(
                after,
                events,
            ),
            Some(None) => drive(before, events).len() == 0 && drive(after, events).len() == 0,
            None => drive(before, events) == drive(after, events),
        },
{
}

/// Law: a chunk taken from the upstream when nothing is ready changes what
/// the stream hands out over the rest of the run exactly as `drive` does.
pub proof fn law_chunk_step<E>(
    before: StreamView,
    after: StreamView,
    chunk: Seq<u8>,
    events: Seq<UpstreamEvent<E>>,
)
    requires
        !before.ended,
        before.queue.len() == 0,
        !after.ended,
        after.buffer() == before.buffer().push_bytes(chunk),
    ensures
        drive(before, seq![UpstreamEvent::Chunk(chunk)] + events) == drive(after, events),
{
    let evs = seq![UpstreamEvent::Chunk(chunk)] + events;
    assert(evs[0] == UpstreamEvent::<E>::Chunk(chunk));
    assert(evs.drop_first() =~= events);
    let b = before.buffer().push_bytes(chunk);
    assert(after == (StreamView { ended: false, queue: b.lines, fragment: b.fragment }));
}

/// Law: an error taken from the upstream when nothing is ready is handed out
/// at once, and leaves the rest of the run as it was.
pub proof fn law_failed_step<E>(
    before: StreamView,
    after: StreamView,
    e: E,
    events: Seq<UpstreamEvent<E>>,
)
    requires
        !before.ended,
        before.queue.len() == 0,
        after == before,
    ensures
        drive(before, seq![UpstreamEvent::Failed(e)] + events) == seq![StreamItem::Failed(e)]
            + drive(after, events),
{
    let evs = seq![UpstreamEvent::Failed(e)] + events;
    assert(evs[0] == UpstreamEvent::<E>::Failed(e));
    assert(evs.drop_first() =~= events);
}

/// Law: when the upstream ends with nothing ready, the stream goes on to
/// hand out exactly what `drive` hands out at the end of the upstream, and
/// nothing the upstream might give afterwards is ever taken.
pub proof fn law_end_step<E>(before: StreamView, after: StreamView, events: Seq<UpstreamEvent<E>>)
    requires
        !before.ended,
        before.queue.len() == 0,
        after == (StreamView { ended: true, queue: before.buffer().items(), fragment: Seq::empty() }),
    ensures
        drive(before, Seq::<UpstreamEvent<E>>::empty()) == drive(after, events),
{
    lemma_drive_queue(after, events);
    let done = StreamView { queue: Seq::empty(), ..after };
    assert(drive(done, events) == Seq::<StreamItem<E>>::empty());
    assert(drive(after, events) =~= line_items::<E>(after.queue));
}

/// Law: an upstream that is not ready changes nothing.
pub proof fn law_pending_step<E>(before: StreamView, after: StreamView, events: Seq<UpstreamEvent<E>>)
    requires
        after == before,
    ensures
        drive(before, events) == drive(after, events),
{
}

/// Maps a stream of byte chunks into a stream of lines.
///
/// Every line but the last ends in `b'\n'`; the bytes after the final
/// `b'\n'`, if any, come out as a last item when the upstream ends.
pub struct ByteLineStream {
    state: State,
}

impl View for ByteLineStream {
    type V = StreamView;

    closed spec fn view(&self) -> StreamView {
        match self.state {
            State::Active(buf) => StreamView {
                ended: false,
                queue: buf@.lines,
                fragment: buf@.fragment,
            },
            State::WindDown(items) => StreamView {
                ended: true,
                queue: items@,
                fragment: Seq::empty(),
            },
        }
    }
}

impl ByteLineStream {
    /// A stream whose upstream has not given anything yet.
    pub fn new() -> (s: Self)
        ensures
            s@ == (StreamView { ended: false, queue: Seq::empty(), fragment: Seq::empty() }),
            s@.buffer().wf(),
    {
        ByteLineStream { state: State::Active(ByteLineBuf::new()) }
    }

    /// An active stream's buffer is well formed.
    fn settle(&self)
        ensures
            !self@.ended ==> self@.buffer().wf(),
    {
        match &self.state {
            State::Active(buf) => {
                proof {
                    use_type_invariant(buf);
                }
            },
            State::WindDown(_) => {},
        }
    }

    /// Whether the upstream has not ended yet.
    pub fn is_active(&self) -> (active: bool)
        ensures
            active == !self@.ended,
    {
        match &self.state {
            State::Active(_) => true,
            State::WindDown(_) => false,
        }
    }

    /// Answer a poll from what is buffered: `Some(Some(line))` hands out the
    /// next ready item, `Some(None)` says that the stream is finished, and
    /// `None` says that the upstream must be polled.
    pub fn poll_buffered(&mut self) -> (answer: Option<Option<Vec<u8>>>)
        ensures
            match answer {
                Some(Some(line)) => {
                    &&& old(self)@.queue.len() > 0
                    &&& line@ == old(self)@.queue[0]
                    &&& final(self)@ == (StreamView { queue: old(self)@.queue.drop_first(), ..old(self)@ })
                },
                Some(None) => {
                    &&& old(self)@.ended
                    &&& old(self)@.queue.len() == 0
                    &&& final(self)@ == old(self)@
                },
                None => {
                    &&& !old(self)@.ended
                    &&& old(self)@.queue.len() == 0
                    &&& final(self)@ == old(self)@
                },
            },
            !final(self)@.ended ==> final(self)@.buffer().wf(),
    {
        match &mut self.state {
            State::Active(buf) => match buf.pop_line() {
                Some(line) => Some(Some(line)),
                None => None,
            },
            State::WindDown(items) => Some(items.next()),
        }
    }

    /// Take into account what one poll of the upstream gave; only called
    /// while the upstream is active.
    pub fn on_upstream<E>(&mut self, event: Upstream<E>) -> (step: UpstreamStep<E>)
        requires
            !old(self)@.ended,
        ensures
            match event {
                Upstream::Chunk(bytes) => {
                    &&& step is Continue
                    &&& !final(self)@.ended
                    &&& final(self)@.buffer() == old(self)@.buffer().push_bytes(bytes@)
                },
                Upstream::Failed(e) => step == UpstreamStep::Failed(e) && final(self)@ == old(
                    self,
                )@,
                Upstream::Ended => {
                    &&& step is Continue
                    &&& final(self)@ == (StreamView {
                        ended: true,
                        queue: old(self)@.buffer().items(),
                        fragment: Seq::empty(),
                    })
                },
                Upstream::Pending => step is Pending && final(self)@ == old(self)@,
            },
            !final(self)@.ended ==> final(self)@.buffer().wf(),
    {
        match event {
            Upstream::Chunk(bytes) => {
                match &mut self.state {
                    State::Active(buf) => {
                        buf.extend(bytes.as_slice());
                    },
                    State::WindDown(_) => {},
                }
                UpstreamStep::Continue
            },
            Upstream::Failed(e) => {
                self.settle();
                UpstreamStep::Failed(e)
            },
            Upstream::Ended => {
                let mut state = State::WindDown(ByteLineBuf::new().into_iter());
                std::mem::swap(&mut state, &mut self.state);
                match state {
                    State::Active(buf) => {
                        self.state = State::WindDown(buf.into_iter());
                    },
                    State::WindDown(_) => {},
                }
                UpstreamStep::Continue
            },
            Upstream::Pending => {
                self.settle();
                UpstreamStep::Pending
            },
        }
    }
}

} // verus!
