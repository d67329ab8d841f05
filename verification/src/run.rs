//! One run of a command: its status, the log of what it printed, and how it
//! is rendered into a pane.
use crate::linebuf::{bytes_content, bytes_into_vec};
use crate::pane::{
    append_all, law_append_all_layout, law_layout_rows, law_truncation_balanced, AppendError,
    ContentView, Pane,
};
use crate::rows::{format_rows, format_rows_spec, truncate_string, truncate_string_spec};
use crate::text::{from_utf8_lossy, utf8_lossy};
use bytes::Bytes;
use vstd::prelude::*;

verus! {

/// The state of a run.
#[derive(Copy, Clone, Debug, PartialEq, Eq, Structural)]
pub enum Status {
    /// The command is running.
    Running,
    /// The command could not be started.
    FailedToLaunch,
    /// The command exited, with this exit code when it has one.
    Exited(Option<i32>),
}

impl Default for Status {
    fn default() -> (s: Self)
        ensures
            s == Status::Running,
    {
        Status::Running
    }
}

/// Where a log line came from.
#[derive(Copy, Clone, Debug, PartialEq, Eq, Structural)]
pub enum LogItemSource {
    /// The command could not be started.
    FailedToLaunch,
    /// Reading the command's output failed.
    ChildIO,
    /// The command's standard output.
    ChildOut,
    /// The command's standard error.
    ChildErr,
}

/// The metadata of a row of a rendered run.
#[derive(Copy, Clone, Debug, PartialEq, Eq, Structural)]
pub enum PaneMeta {
    /// The header row, which shows the command.
    Header(Status),
    /// The first row of a log line.
    Line(LogItemSource),
    /// A further row of a log line that was wrapped.
    LineContinuation,
}

/// What a running child process reports.
#[derive(Debug)]
pub enum ChildItem {
    /// A chunk of its standard output.
    Stdout(Bytes),
    /// A chunk of its standard error.
    Stderr(Bytes),
    /// It exited, with this exit code when it has one.
    Exit(Option<i32>),
}

/// A command that was run, and what it reported.
#[derive(Debug)]
pub struct Run {
    cmdtext: String,
    status: Status,
    log: Vec<(LogItemSource, String)>,
}

/// The abstract value of a log.
pub open spec fn log_view(log: Seq<(LogItemSource, String)>) -> Seq<(LogItemSource, Seq<char>)> {
    log.map_values(|e: (LogItemSource, String)| (e.0, e.1@))
}

/// The rows of one log line wrapped to width `w`: the first row is marked
/// with the line's source, the others as continuations.
pub open spec fn item_rows(source: LogItemSource, text: Seq<char>, w: nat) -> Seq<
    (PaneMeta, Seq<char>),
> {
    format_rows_spec(w, text).map(
        |i: int, r: Seq<char>|
            (if i == 0 {
                PaneMeta::Line(source)
            } else {
                PaneMeta::LineContinuation
            }, r),
    )
}

/// The rows of a log wrapped to width `w`, in order.
pub open spec fn wrap_rows(log: Seq<(LogItemSource, Seq<char>)>, w: nat) -> Seq<
    (PaneMeta, Seq<char>),
>
    decreases log.len(),
{
    if log.len() == 0 {
        Seq::empty()
    } else {
        wrap_rows(log.drop_last(), w) + item_rows(log.last().0, log.last().1, w)
    }
}

/// Every row of a wrapped log is at most `w` characters wide.
pub proof fn lemma_wrap_rows_width(log: Seq<(LogItemSource, Seq<char>)>, w: nat)
    requires
        w > 0,
    ensures
        forall|k: int|
            0 <= k < wrap_rows(log, w).len() ==> (#[trigger] wrap_rows(log, w)[k]).1.len() <= w,
    decreases log.len(),
{
    if log.len() > 0 {
        lemma_wrap_rows_width(log.drop_last(), w);
        crate::rows::law_format_rows_text(w, log.last().1);
        let a = wrap_rows(log.drop_last(), w);
        let b = item_rows(log.last().0, log.last().1, w);
        assert forall|k: int| 0 <= k < wrap_rows(log, w).len() implies (#[trigger] wrap_rows(
            log,
            w,
        )[k]).1.len() <= w by {
            if k < a.len() {
                assert(wrap_rows(log, w)[k] == a[k]);
            } else {
                assert(wrap_rows(log, w)[k] == b[k - a.len()]);
                assert(b[k - a.len()].1 == format_rows_spec(w, log.last().1)[k - a.len()]);
            }
        }
    }
}

/// Law: a run rendered into a pane that holds nothing yet shows, as its
/// first row, a header that carries the run's own status and its command
/// cut to the pane's width, whatever the pane's height.
pub proof fn law_render_header(run: Run, w: nat, h: nat)
    requires
        h > 0,
    ensures
        ({
            let shown = append_all(ContentView::<PaneMeta>::Full(Seq::empty()), h, run.render_rows(w)).rows();
            &&& shown.len() > 0
            &&& shown[0] == Some(
                (PaneMeta::Header(run.spec_status()), truncate_string_spec(run.spec_command(), w)),
            )
        }),
{
    let all = run.render_rows(w);
    law_append_all_layout(h, all);
    law_layout_rows(h, all);
    law_truncation_balanced(h);
    assert(all.len() > 0);
    let rows = ContentView::layout(h, all).rows();
    if all.len() <= h {
        assert(rows[0] == Some(all[0]));
    } else {
        assert(rows[0] == Some(all[0]));
    }
}

impl Run {
    /// The command text.
    pub closed spec fn spec_command(&self) -> Seq<char> {
        self.cmdtext@
    }

    /// The status.
    pub closed spec fn spec_status(&self) -> Status {
        self.status
    }

    /// The log, in order.
    pub closed spec fn spec_log(&self) -> Seq<(LogItemSource, Seq<char>)> {
        log_view(self.log@)
    }

    /// The rows that rendering into a pane of width `w` appends: the header,
    /// then the wrapped log.
    pub open spec fn render_rows(&self, w: nat) -> Seq<(PaneMeta, Seq<char>)> {
        seq![(PaneMeta::Header(self.spec_status()), truncate_string_spec(self.spec_command(), w))]
            + wrap_rows(self.spec_log(), w)
    }

    /// A running command with an empty log.
    pub fn new(cmdtext: String) -> (r: Self)
        ensures
            r.spec_command() == cmdtext@,
            r.spec_status() == Status::Running,
            r.spec_log() == Seq::<(LogItemSource, Seq<char>)>::empty(),
    {
        let r = Run { cmdtext, status: Status::Running, log: Vec::new() };
        assert(r.spec_log() =~= Seq::<(LogItemSource, Seq<char>)>::empty());
        r
    }

    /// The status.
    pub fn status(&self) -> (s: &Status)
        ensures
            *s == self.spec_status(),
    {
        &self.status
    }

    /// The command text.
    pub fn command(&self) -> (c: &str)
        ensures
            c@ == self.spec_command(),
    {
        self.cmdtext.as_str()
    }

    /// The log, in order.
    pub fn log(&self) -> (l: &[(LogItemSource, String)])
        ensures
            log_view(l@) == self.spec_log(),
    {
        self.log.as_slice()
    }

    /// The number of log lines.
    pub fn log_length(&self) -> (n: usize)
        ensures
            n == self.spec_log().len(),
    {
        self.log.len()
    }

    fn push_log(&mut self, source: LogItemSource, text: String)
        ensures
            final(self).spec_command() == old(self).spec_command(),
            final(self).spec_status() == old(self).spec_status(),
            final(self).spec_log() == old(self).spec_log().push((source, text@)),
    {
        let ghost before = self.spec_log();
        self.log.push((source, text));
        assert(self.spec_log() =~= before.push((source, text@)));
    }

    /// Record that the command could not be started.
    pub fn log_execution_error(&mut self, message: String)
        ensures
            final(self).spec_command() == old(self).spec_command(),
            final(self).spec_status() == Status::FailedToLaunch,
            final(self).spec_log() == old(self).spec_log().push(
                (LogItemSource::FailedToLaunch, message@),
            ),
    {
        self.status = Status::FailedToLaunch;
        self.push_log(LogItemSource::FailedToLaunch, message);
    }

    /// Record what the child process reported: output is logged as text,
    /// an exit sets the status, and a read error is logged with its message.
    pub fn log_child_item(&mut self, item: Result<ChildItem, String>)
        ensures
            final(self).spec_command() == old(self).spec_command(),
            match item {
                Ok(ChildItem::Stdout(b)) => {
                    &&& final(self).spec_status() == old(self).spec_status()
                    &&& final(self).spec_log() == old(self).spec_log().push(
                        (LogItemSource::ChildOut, utf8_lossy(bytes_content(b))),
                    )
                },
                Ok(ChildItem::Stderr(b)) => {
                    &&& final(self).spec_status() == old(self).spec_status()
                    &&& final(self).spec_log() == old(self).spec_log().push(
                        (LogItemSource::ChildErr, utf8_lossy(bytes_content(b))),
                    )
                },
                Ok(ChildItem::Exit(code)) => {
                    &&& final(self).spec_status() == Status::Exited(code)
                    &&& final(self).spec_log() == old(self).spec_log()
                },
                Err(message) => {
                    &&& final(self).spec_status() == old(self).spec_status()
                    &&& final(self).spec_log() == old(self).spec_log().push(
                        (LogItemSource::ChildIO, message@),
                    )
                },
            },
    {
        match item {
            Ok(ChildItem::Stdout(b)) => {
                let v = bytes_into_vec(b);
                let text = from_utf8_lossy(v.as_slice());
                self.push_log(LogItemSource::ChildOut, text);
            },
            Ok(ChildItem::Stderr(b)) => {
                let v = bytes_into_vec(b);
                let text = from_utf8_lossy(v.as_slice());
                self.push_log(LogItemSource::ChildErr, text);
            },
            Ok(ChildItem::Exit(code)) => {
                self.status = Status::Exited(code);
            },
            Err(message) => {
                self.push_log(LogItemSource::ChildIO, message);
            },
        }
    }

    /// The rows of the log wrapped to `max_width`, in order.
    pub fn wrap_log_lines(&self, max_width: usize) -> (rows: Vec<(PaneMeta, String)>)
        requires
            max_width > 0,
        ensures
            rows@.map_values(|e: (PaneMeta, String)| (e.0, e.1@)) == wrap_rows(
                self.spec_log(),
                max_width as nat,
            ),
    {
        let mut rows: Vec<(PaneMeta, String)> = Vec::new();
        let mut i: usize = 0;
        while i < self.log.len()
            invariant
                max_width > 0,
                i <= self.log@.len(),
                rows@.map_values(|e: (PaneMeta, String)| (e.0, e.1@)) == wrap_rows(
                    self.spec_log().take(i as int),
                    max_width as nat,
                ),
            decreases self.log@.len() - i,
        {
            let source = self.log[i].0;
            let parts = format_rows(max_width, self.log[i].1.as_str());
            let ghost before = rows@.map_values(|e: (PaneMeta, String)| (e.0, e.1@));
            let ghost item = item_rows(source, self.log@[i as int].1@, max_width as nat);
            let ghost all_parts = parts@.map_values(|r: String| r@);
            let n = parts.len();
            let mut j: usize = 0;
            proof {
                assert(before + item.take(0) =~= before);
            }
            while j < n
                invariant
                    n == all_parts.len(),
                    j <= n,
                    all_parts == parts@.map_values(|r: String| r@),
                    item == all_parts.map(
                        |ix: int, r: Seq<char>|
                            (if ix == 0 {
                                PaneMeta::Line(source)
                            } else {
                                PaneMeta::LineContinuation
                            }, r),
                    ),
                    rows@.map_values(|e: (PaneMeta, String)| (e.0, e.1@)) == before + item.take(
                        j as int,
                    ),
                decreases n - j,
            {
                let part = parts[j].clone();
                let meta = if j == 0 {
                    PaneMeta::Line(source)
                } else {
                    PaneMeta::LineContinuation
                };
                let ghost prev = rows@.map_values(|e: (PaneMeta, String)| (e.0, e.1@));
                rows.push((meta, part));
                proof {
                    assert(part@ == all_parts[j as int]);
                    assert(item.take(j + 1) =~= item.take(j as int).push(item[j as int]));
                    assert(rows@.map_values(|e: (PaneMeta, String)| (e.0, e.1@)) =~= prev.push(
                        (meta, part@),
                    ));
                }
                j = j + 1;
            }
            proof {
                assert(item.take(n as int) =~= item);
                assert(self.spec_log().take(i + 1).drop_last() =~= self.spec_log().take(i as int));
                assert(self.spec_log().take(i + 1).last() == (source, self.log@[i as int].1@));
            }
            i = i + 1;
        }
        proof {
            assert(self.spec_log().take(self.log@.len() as int) =~= self.spec_log());
        }
        rows
    }

    /// Render the run into `pane`: a header row with the command, cut to the
    /// pane's width, then the log wrapped to that width.
    pub fn render_into(&self, pane: &mut Pane<PaneMeta>) -> (r: Result<(), AppendError>)
        requires
            old(pane).spec_rect().spec_width() > 0,
            old(pane).spec_rect().spec_height() > 0,
        ensures
            r is Ok,
            final(pane).spec_rect() == old(pane).spec_rect(),
            final(pane).spec_content() == append_all(
                old(pane).spec_content(),
                old(pane).spec_rect().spec_height() as nat,
                self.render_rows(old(pane).spec_rect().spec_width() as nat),
            ),
            old(pane).spec_content() == ContentView::<PaneMeta>::Full(Seq::empty()) ==> final(pane).spec_content().rows()[0] == Some(
                (
                    PaneMeta::Header(self.spec_status()),
                    truncate_string_spec(
                        self.spec_command(),
                        old(pane).spec_rect().spec_width() as nat,
                    ),
                ),
            ),
    {
        let width = pane.width();
        let ghost h = pane.spec_rect().spec_height() as nat;
        let ghost start = pane.spec_content();
        proof {
            law_render_header(*self, width as nat, h);
        }
        let header = truncate_string(self.command(), width);
        let ghost all = self.render_rows(width as nat);
        let rows = self.wrap_log_lines(width);
        let r = pane.append_line(PaneMeta::Header(self.status), header);
        proof {
            assert(all.take(1) =~= seq![all[0]]);
            assert(append_all(start, h, all.take(1)) == append_all(start, h, all.take(1).drop_last()).append(h, all[0]));
            assert(all.take(1).drop_last() =~= Seq::<(PaneMeta, Seq<char>)>::empty());
        }
        match r {
            Ok(()) => {},
            Err(e) => {
                return Err(e);
            },
        }
        let n = rows.len();
        let ghost wrapped = wrap_rows(self.spec_log(), width as nat);
        proof {
            lemma_wrap_rows_width(self.spec_log(), width as nat);
            assert(all =~= seq![all[0]] + wrapped);
        }
        let mut j: usize = 0;
        while j < n
            invariant
                n == wrapped.len(),
                all == seq![all[0]] + wrapped,
                j <= n,
                rows@.map_values(|e: (PaneMeta, String)| (e.0, e.1@)) == wrapped,
                forall|k: int| 0 <= k < wrapped.len() ==> (#[trigger] wrapped[k]).1.len() <= width,
                pane.spec_rect() == old(pane).spec_rect(),
                pane.spec_rect().spec_width() == width,
                pane.spec_rect().spec_height() == h,
                h > 0,
                pane.spec_content() == append_all(start, h, all.take(j + 1)),
            decreases n - j,
        {
            let meta = rows[j].0;
            let row = rows[j].1.clone();
            proof {
                assert((meta, row@) == wrapped[j as int]);
            }
            let r = pane.append_line(meta, row);
            proof {
                assert(all.take(j + 2).drop_last() =~= all.take(j + 1));
                assert(all.take(j + 2).last() == all[j + 1]);
            }
            match r {
                Ok(()) => {},
                Err(e) => {
                    return Err(e);
                },
            }
            j = j + 1;
        }
        proof {
            assert(all.take(n + 1) =~= all);
        }
        Ok(())
    }
}

} // verus!
