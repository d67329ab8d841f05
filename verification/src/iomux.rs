//! Multiplexing the output of several child processes: per-child line
//! buffers, and how an output line is shown.
use crate::command::{parse_subcommands, parse_subcommands_spec, Command, SubcommandError};
use crate::linebuf::{ByteLineBuf, LineBufView};
use crate::text::{from_utf8_lossy, push_char, utf8_lossy};
use vstd::prelude::*;

verus! {

/// The commands to run side by side.
#[derive(Debug)]
pub struct Options {
    pub subcommands: Vec<Command>,
}

impl Options {
    /// The commands given by `args`, in which `--` separates commands.
    pub fn from_args(args: &[String]) -> (r: Result<Options, SubcommandError>)
        ensures
            match parse_subcommands_spec(args@.map_values(|a: String| a@)) {
                Ok(cmds) => r matches Ok(o) && o.subcommands@.map_values(|c: Command| c@) == cmds,
                Err(e) => r matches Err(e2) && e2 == e,
            },
    {
        match parse_subcommands(args) {
            Ok(subcommands) => Ok(Options { subcommands }),
            Err(e) => Err(e),
        }
    }
}

/// Which output stream of a child some bytes came from.
#[derive(Clone, Copy, Debug, PartialEq, Eq, Structural)]
pub enum OutputSource {
    Stdout,
    Stderr,
}

/// A child process and the partial lines of its two output streams.
pub struct ChildState {
    pub pid: u32,
    pub outbuf: ByteLineBuf,
    pub errbuf: ByteLineBuf,
}

impl ChildState {
    /// The state of child `pid` before it printed anything.
    pub fn new(pid: u32) -> (s: Self)
        ensures
            s.pid == pid,
            s.outbuf@ == LineBufView::empty(),
            s.errbuf@ == LineBufView::empty(),
    {
        ChildState { pid, outbuf: ByteLineBuf::default(), errbuf: ByteLineBuf::default() }
    }
}

/// The tag shown after a child's index: a space for standard output, `!`
/// for standard error.
pub open spec fn source_tag_spec(source: OutputSource) -> char {
    match source {
        OutputSource::Stdout => ' ',
        OutputSource::Stderr => '!',
    }
}

/// The tag shown after a child's index.
pub fn source_tag(source: OutputSource) -> (c: char)
    ensures
        c == source_tag_spec(source),
{
    match source {
        OutputSource::Stdout => ' ',
        OutputSource::Stderr => '!',
    }
}

/// The text shown for a chunk of output: the bytes decoded, ending with
/// `'\n'`, which is added when missing.
pub open spec fn output_text_spec(line: Seq<u8>) -> Seq<char> {
    let text = utf8_lossy(line);
    if text.len() > 0 && text.last() == '\n' {
        text
    } else {
        text.push('\n')
    }
}

/// The text shown for a chunk of output.
pub fn output_text(line: &[u8]) -> (s: String)
    ensures
        s@ == output_text_spec(line@),
{
    let mut text = from_utf8_lossy(line);
    let cs = crate::text::chars_of(text.as_str());
    let n = cs.len();
    if n > 0 && cs[n - 1] == '\n' {
        text
    } else {
        push_char(&mut text, '\n');
        text
    }
}

} // verus!
