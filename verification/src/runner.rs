//! The shell's runs: what to do with a command line that was entered, and
//! where to record what a child process reported.
use crate::command::{ascii_fields, from_str, Command};
use crate::run::{ChildItem, Run, Status};
use crate::text::{chars_of, trim, trim_spec};
use vstd::prelude::*;

verus! {

/// What the caller must do after a command line was entered.
#[derive(Debug)]
pub enum CommandAction {
    /// Nothing.
    Nothing,
    /// Send the in-band quit signal.
    Quit,
    /// Start `command`, and report what it does as events of run `runix`.
    Launch { runix: usize, command: Command },
}

/// Something a child process reported, for the run it belongs to.
#[derive(Debug)]
pub struct Event {
    runix: usize,
    ev: Result<ChildItem, String>,
}

/// An event for a run that does not exist.
#[derive(Debug, PartialEq, Eq)]
pub struct RunIndexError {
    /// The run the event was for.
    pub runix: usize,
    /// The number of runs.
    pub runs: usize,
}

impl Event {
    /// The run the event is for.
    pub closed spec fn spec_runix(&self) -> usize {
        self.runix
    }

    /// What the child process reported.
    pub closed spec fn spec_ev(&self) -> Result<ChildItem, String> {
        self.ev
    }

    /// An event of run `runix`.
    pub fn new(runix: usize, ev: Result<ChildItem, String>) -> (e: Self)
        ensures
            e.spec_runix() == runix,
            e.spec_ev() == ev,
    {
        Event { runix, ev }
    }

    /// Record the event in the run it is for.
    pub fn insert_into(self, runs: &mut Vec<Run>) -> (r: Result<(), RunIndexError>)
        ensures
            match r {
                Ok(()) => {
                    &&& self.spec_runix() < old(runs)@.len()
                    &&& final(runs)@.len() == old(runs)@.len()
                    &&& forall|i: int|
                        0 <= i < old(runs)@.len() && i != self.spec_runix() ==> final(runs)@[i]
                            == old(runs)@[i]
                    &&& logged(
                        old(runs)@[self.spec_runix() as int],
                        final(runs)@[self.spec_runix() as int],
                        self.spec_ev(),
                    )
                },
                Err(e) => {
                    &&& self.spec_runix() >= old(runs)@.len()
                    &&& e.runix == self.spec_runix() && e.runs == old(runs)@.len()
                    &&& final(runs)@ == old(runs)@
                },
            },
    {
        let Event { runix, ev } = self;
        let n = runs.len();
        if runix < n {
            runs[runix].log_child_item(ev);
            Ok(())
        } else {
            Err(RunIndexError { runix, runs: n })
        }
    }
}

/// `after` is `before` once `ev` was recorded in it.
pub open spec fn logged(before: Run, after: Run, ev: Result<ChildItem, String>) -> bool {
    &&& after.spec_command() == before.spec_command()
    &&& match ev {
        Ok(ChildItem::Stdout(b)) => {
            &&& after.spec_status() == before.spec_status()
            &&& after.spec_log() == before.spec_log().push(
                (
                    crate::run::LogItemSource::ChildOut,
                    crate::text::utf8_lossy(crate::linebuf::bytes_content(b)),
                ),
            )
        },
        Ok(ChildItem::Stderr(b)) => {
            &&& after.spec_status() == before.spec_status()
            &&& after.spec_log() == before.spec_log().push(
                (
                    crate::run::LogItemSource::ChildErr,
                    crate::text::utf8_lossy(crate::linebuf::bytes_content(b)),
                ),
            )
        },
        Ok(ChildItem::Exit(code)) => {
            &&& after.spec_status() == Status::Exited(code)
            &&& after.spec_log() == before.spec_log()
        },
        Err(message) => {
            &&& after.spec_status() == before.spec_status()
            &&& after.spec_log() == before.spec_log().push(
                (crate::run::LogItemSource::ChildIO, message@),
            )
        },
    }
}

/// The command that ends the shell.
pub open spec fn is_exit(s: Seq<char>) -> bool {
    s == seq!['e', 'x', 'i', 't']
}

/// The message recorded when a command line names no program.
pub open spec fn empty_command_message() -> Seq<char> {
    seq!['e', 'm', 'p', 't', 'y', ' ', 'c', 'o', 'm', 'm', 'a', 'n', 'd']
}

/// The runs of the shell, oldest first.
#[derive(Debug)]
pub struct Runner {
    runs: Vec<Run>,
}

impl Runner {
    /// The runs, oldest first.
    pub closed spec fn spec_runs(&self) -> Seq<Run> {
        self.runs@
    }

    /// A shell that has run nothing yet.
    pub fn new() -> (r: Self)
        ensures
            r.spec_runs() == Seq::<Run>::empty(),
    {
        Runner { runs: Vec::new() }
    }

    /// The runs, oldest first.
    pub fn runs(&self) -> (runs: &[Run])
        ensures
            runs@ == self.spec_runs(),
    {
        self.runs.as_slice()
    }

    /// Act on an entered command line: `exit` asks to quit; a blank line does
    /// nothing; anything else becomes a new run, to be launched.
    pub fn handle_command(&mut self, cmdtext: &str) -> (action: CommandAction)
        ensures
            ({
                let t = trim_spec(cmdtext@);
                let n = old(self).spec_runs().len();
                if is_exit(t) {
                    action is Quit && final(self).spec_runs() == old(self).spec_runs()
                } else if t.len() == 0 {
                    action is Nothing && final(self).spec_runs() == old(self).spec_runs()
                } else {
                    &&& final(self).spec_runs().len() == n + 1
                    &&& final(self).spec_runs().take(n as int) == old(self).spec_runs()
                    &&& final(self).spec_runs()[n as int].spec_command() == t
                    &&& if ascii_fields(t).len() > 0 {
                        &&& final(self).spec_runs()[n as int].spec_status() == Status::Running
                        &&& final(self).spec_runs()[n as int].spec_log().len() == 0
                        &&& action matches CommandAction::Launch { runix, command }
                        &&& runix == n
                        &&& command@ == ascii_fields(t)
                    } else {
                        &&& action is Nothing
                        &&& final(self).spec_runs()[n as int].spec_status() == Status::FailedToLaunch
                        &&& final(self).spec_runs()[n as int].spec_log() == seq![
                            (crate::run::LogItemSource::FailedToLaunch, empty_command_message()),
                        ]
                    }
                }
            }),
    {
        let t = trim(cmdtext);
        let cs = chars_of(t.as_str());
        let exit = cs.len() == 4 && cs[0] == 'e' && cs[1] == 'x' && cs[2] == 'i' && cs[3] == 't';
        proof {
            if exit {
                assert(cs@ =~= seq!['e', 'x', 'i', 't']);
            }
        }
        if exit {
            CommandAction::Quit
        } else if cs.len() == 0 {
            CommandAction::Nothing
        } else {
            let runix = self.runs.len();
            let parsed = from_str(t.as_str());
            let mut run = Run::new(t);
            let ghost before = self.runs@;
            match parsed {
                Ok(command) => {
                    self.runs.push(run);
                    proof {
                        assert(self.runs@.take(runix as int) =~= before);
                    }
                    CommandAction::Launch { runix, command }
                },
                Err(_) => {
                    let message = crate::text::string_from_chars(
                        &['e', 'm', 'p', 't', 'y', ' ', 'c', 'o', 'm', 'm', 'a', 'n', 'd'],
                    );
                    run.log_execution_error(message);
                    proof {
                        assert(run.spec_log() =~= seq![
                            (crate::run::LogItemSource::FailedToLaunch, empty_command_message()),
                        ]);
                    }
                    self.runs.push(run);
                    proof {
                        assert(self.runs@.take(runix as int) =~= before);
                    }
                    CommandAction::Nothing
                },
            }
        }
    }

    /// Record that launching run `runix` failed, with this message.
    pub fn launch_failed(&mut self, runix: usize, message: String) -> (r: Result<(), RunIndexError>)
        ensures
            match r {
                Ok(()) => {
                    &&& runix < old(self).spec_runs().len()
                    &&& final(self).spec_runs() == old(self).spec_runs().update(
                        runix as int,
                        final(self).spec_runs()[runix as int],
                    )
                    &&& final(self).spec_runs()[runix as int].spec_command() == old(
                        self,
                    ).spec_runs()[runix as int].spec_command()
                    &&& final(self).spec_runs()[runix as int].spec_status()
                        == Status::FailedToLaunch
                    &&& final(self).spec_runs()[runix as int].spec_log() == old(
                        self,
                    ).spec_runs()[runix as int].spec_log().push(
                        (crate::run::LogItemSource::FailedToLaunch, message@),
                    )
                },
                Err(e) => {
                    &&& runix >= old(self).spec_runs().len()
                    &&& e.runix == runix && e.runs == old(self).spec_runs().len()
                    &&& final(self).spec_runs() == old(self).spec_runs()
                },
            },
    {
        let n = self.runs.len();
        if runix < n {
            let ghost before = self.runs@;
            self.runs[runix].log_execution_error(message);
            proof {
                assert(self.runs@ =~= before.update(runix as int, self.runs@[runix as int]));
            }
            Ok(())
        } else {
            Err(RunIndexError { runix, runs: n })
        }
    }

    /// Record an event in the run it is for.
    pub fn handle_event(&mut self, event: Event) -> (r: Result<(), RunIndexError>)
        ensures
            match r {
                Ok(()) => {
                    &&& event.spec_runix() < old(self).spec_runs().len()
                    &&& final(self).spec_runs().len() == old(self).spec_runs().len()
                    &&& forall|i: int|
                        0 <= i < old(self).spec_runs().len() && i != event.spec_runix()
                            ==> final(self).spec_runs()[i] == old(self).spec_runs()[i]
                    &&& logged(
                        old(self).spec_runs()[event.spec_runix() as int],
                        final(self).spec_runs()[event.spec_runix() as int],
                        event.spec_ev(),
                    )
                },
                Err(e) => {
                    &&& event.spec_runix() >= old(self).spec_runs().len()
                    &&& e.runix == event.spec_runix()
                    &&& e.runs == old(self).spec_runs().len()
                    &&& final(self).spec_runs() == old(self).spec_runs()
                },
            },
    {
        event.insert_into(&mut self.runs)
    }
}

} // verus!
