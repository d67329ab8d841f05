//! Command lines: a program name and its arguments, read from a line of text
//! or from an argument list in which `--` separates commands.
use crate::text::{chars_of, string_from_chars};
use vstd::prelude::*;

verus! {

/// A program to run and its arguments.
#[derive(Debug)]
pub struct Command {
    program: String,
    args: Vec<String>,
}

impl View for Command {
    type V = Seq<Seq<char>>;

    /// The program followed by its arguments.
    closed spec fn view(&self) -> Seq<Seq<char>> {
        seq![self.program@] + self.args@.map_values(|a: String| a@)
    }
}

/// Why a command could not be read.
#[derive(Debug, PartialEq, Eq)]
pub enum CommandError {
    /// The text holds no command name.
    Empty,
}

/// Why an argument list could not be split into commands.
#[derive(Debug, PartialEq, Eq)]
pub enum SubcommandError {
    /// A `--` came where a command name was expected.
    SeparatorWithoutCommand,
    /// There were no arguments at all.
    NoCommand,
    /// The arguments ended with `--`.
    TrailingSeparator,
}

impl Command {
    /// A command that runs `program` without arguments.
    pub fn new(program: String) -> (c: Self)
        ensures
            c@ == seq![program@],
    {
        let c = Command { program, args: Vec::new() };
        assert(c@ =~= seq![program@]);
        c
    }

    /// Add an argument at the end.
    pub fn arg(&mut self, arg: String)
        ensures
            final(self)@ == old(self)@.push(arg@),
    {
        let ghost before = self@;
        self.args.push(arg);
        assert(self@ =~= before.push(arg@));
    }

    /// The program name.
    pub fn program(&self) -> (p: &str)
        ensures
            p@ == self@[0],
    {
        self.program.as_str()
    }

    /// The arguments.
    pub fn args(&self) -> (a: &[String])
        ensures
            a@.map_values(|a: String| a@) == self@.drop_first(),
    {
        assert(self@.drop_first() =~= self.args@.map_values(|a: String| a@));
        self.args.as_slice()
    }
}

/// The characters that `char::is_ascii_whitespace` accepts: space, tab,
/// line feed, form feed and carriage return.
pub open spec fn is_ascii_ws(c: char) -> bool {
    c == ' ' || c == '\t' || c == '\n' || c == '\x0C' || c == '\r'
}

/// Splitting `s` on ASCII whitespace, as far as it was read: the fields that
/// ended, and the field being read.
pub open spec fn fields_acc(s: Seq<char>) -> (Seq<Seq<char>>, Seq<char>)
    decreases s.len(),
{
    if s.len() == 0 {
        (Seq::empty(), Seq::empty())
    } else {
        let (fs, cur) = fields_acc(s.drop_last());
        if is_ascii_ws(s.last()) {
            (if cur.len() > 0 {
                fs.push(cur)
            } else {
                fs
            }, Seq::empty())
        } else {
            (fs, cur.push(s.last()))
        }
    }
}

/// The non-empty runs of non-whitespace characters of `s`, in order.
pub open spec fn ascii_fields(s: Seq<char>) -> Seq<Seq<char>> {
    let (fs, cur) = fields_acc(s);
    if cur.len() > 0 {
        fs.push(cur)
    } else {
        fs
    }
}

/// `s` with its ASCII whitespace left out.
pub open spec fn without_ws(s: Seq<char>) -> Seq<char>
    decreases s.len(),
{
    if s.len() == 0 {
        Seq::empty()
    } else if is_ascii_ws(s.last()) {
        without_ws(s.drop_last())
    } else {
        without_ws(s.drop_last()).push(s.last())
    }
}

/// The number of places in `s` where a run of non-whitespace characters
/// begins: a non-whitespace character at the start or after whitespace.
pub open spec fn run_starts(s: Seq<char>) -> nat
    decreases s.len(),
{
    if s.len() == 0 {
        0
    } else {
        run_starts(s.drop_last()) + if !is_ascii_ws(s.last()) && (s.len() == 1 || is_ascii_ws(
            s[s.len() - 2],
        )) {
            1nat
        } else {
            0nat
        }
    }
}

/// `s` with its leading and trailing ASCII whitespace removed and each run
/// of whitespace between words replaced by one space.
pub open spec fn squeezed(s: Seq<char>) -> Seq<char>
    decreases s.len(),
{
    if s.len() == 0 {
        Seq::empty()
    } else if is_ascii_ws(s.last()) {
        squeezed(s.drop_last())
    } else if (s.len() == 1 || is_ascii_ws(s[s.len() - 2])) && squeezed(s.drop_last()).len() > 0 {
        squeezed(s.drop_last()).push(' ').push(s.last())
    } else {
        squeezed(s.drop_last()).push(s.last())
    }
}

/// The words `ws` with one space between neighbours.
pub open spec fn join_spaced(ws: Seq<Seq<char>>) -> Seq<char>
    decreases ws.len(),
{
    if ws.len() == 0 {
        Seq::empty()
    } else if ws.len() == 1 {
        ws[0]
    } else {
        join_spaced(ws.drop_last()).push(' ') + ws.last()
    }
}

proof fn lemma_join_spaced_push(ws: Seq<Seq<char>>, w: Seq<char>)
    requires
        forall|i: int| 0 <= i < ws.len() ==> (#[trigger] ws[i]).len() > 0,
    ensures
        join_spaced(ws.push(w)) == if ws.len() == 0 {
            w
        } else {
            join_spaced(ws).push(' ') + w
        },
        join_spaced(ws).len() > 0 <==> ws.len() > 0,
    decreases ws.len(),
{
    assert(ws.push(w).drop_last() =~= ws);
    if ws.len() > 1 {
        lemma_join_spaced_push(ws.drop_last(), ws.last());
        assert(ws.drop_last().push(ws.last()) =~= ws);
        assert(ws[ws.len() - 1].len() > 0);
    } else if ws.len() == 1 {
        assert(ws[0].len() > 0);
    }
}

proof fn lemma_fields_squeezed(s: Seq<char>)
    ensures
        ({
            let (fs, cur) = fields_acc(s);
            &&& squeezed(s) == if cur.len() == 0 {
                join_spaced(fs)
            } else {
                join_spaced(fs.push(cur))
            }
        }),
    decreases s.len(),
{
    if s.len() > 0 {
        let p = s.drop_last();
        lemma_fields_squeezed(p);
        lemma_fields_acc(p);
        let (fs, cur) = fields_acc(p);
        let c = s.last();
        if s.len() >= 2 {
            assert(p.last() == s[s.len() - 2]);
        }
        lemma_join_spaced_push(fs, cur);
        if !is_ascii_ws(c) {
            lemma_join_spaced_push(fs, cur.push(c));
            if cur.len() > 0 {
                if fs.len() == 0 {
                } else {
                    assert(join_spaced(fs).push(' ') + cur.push(c) =~= (join_spaced(fs).push(' ')
                        + cur).push(c));
                }
            } else {
                if fs.len() > 0 {
                    assert(join_spaced(fs).push(' ') + seq![c] =~= join_spaced(fs).push(' ').push(c));
                }
                assert(cur.push(c) =~= seq![c]);
            }
        }
    }
}

proof fn lemma_fields_acc(s: Seq<char>)
    ensures
        ({
            let (fs, cur) = fields_acc(s);
            &&& fs.flatten() + cur == without_ws(s)
            &&& forall|i: int| 0 <= i < fs.len() ==> (#[trigger] fs[i]).len() > 0
            &&& forall|i: int, j: int|
                0 <= i < fs.len() && 0 <= j < fs[i].len() ==> !is_ascii_ws(#[trigger] fs[i][j])
            &&& forall|j: int| 0 <= j < cur.len() ==> !is_ascii_ws(#[trigger] cur[j])
            &&& fs.len() + (if cur.len() > 0 {
                1nat
            } else {
                0nat
            }) == run_starts(s)
            &&& cur.len() > 0 <==> (s.len() > 0 && !is_ascii_ws(s.last()))
        }),
    decreases s.len(),
{
    if s.len() > 0 {
        let p = s.drop_last();
        lemma_fields_acc(p);
        let (fs, cur) = fields_acc(p);
        let c = s.last();
        if s.len() >= 2 {
            assert(p.last() == s[s.len() - 2]);
        }
        if is_ascii_ws(c) {
            if cur.len() > 0 {
                fs.lemma_flatten_push(cur);
                let fs2 = fs.push(cur);
                assert forall|i: int, j: int|
                    0 <= i < fs2.len() && 0 <= j < fs2[i].len() implies !is_ascii_ws(
                    #[trigger] fs2[i][j],
                ) by {
                    if i < fs.len() {
                        assert(fs2[i] == fs[i]);
                    } else {
                        assert(fs2[i] == cur);
                    }
                }
                assert(fs2.flatten() + Seq::<char>::empty() =~= fs2.flatten());
            } else {
                assert(fs.flatten() + Seq::<char>::empty() =~= fs.flatten());
                assert(fs.flatten() + cur =~= fs.flatten());
            }
        } else {
            let cur2 = cur.push(c);
            assert(fs.flatten() + cur2 =~= (fs.flatten() + cur).push(c));
            assert forall|j: int| 0 <= j < cur2.len() implies !is_ascii_ws(#[trigger] cur2[j]) by {
                if j < cur.len() {
                    assert(cur2[j] == cur[j]);
                }
            }
        }
    }
}

/// Law: reading the fields of a line loses nothing but whitespace: the
/// fields, joined, are the line without its ASCII whitespace; no field is
/// empty or holds whitespace; there is one field for each run of
/// non-whitespace characters in the line; and the fields with one space
/// between neighbours are the line with its whitespace runs squeezed.
pub proof fn law_ascii_fields(s: Seq<char>)
    ensures
        ascii_fields(s).flatten() == without_ws(s),
        forall|i: int| 0 <= i < ascii_fields(s).len() ==> (#[trigger] ascii_fields(s)[i]).len() > 0,
        forall|i: int, j: int|
            0 <= i < ascii_fields(s).len() && 0 <= j < ascii_fields(s)[i].len() ==> !is_ascii_ws(
                #[trigger] ascii_fields(s)[i][j],
            ),
        ascii_fields(s).len() == run_starts(s),
        join_spaced(ascii_fields(s)) == squeezed(s),
{
    lemma_fields_acc(s);
    lemma_fields_squeezed(s);
    let (fs, cur) = fields_acc(s);
    let out = ascii_fields(s);
    if cur.len() > 0 {
        fs.lemma_flatten_push(cur);
        assert forall|i: int, j: int|
            0 <= i < out.len() && 0 <= j < out[i].len() implies !is_ascii_ws(#[trigger] out[i][j]) by {
            if i < fs.len() {
                assert(out[i] == fs[i]);
            } else {
                assert(out[i] == cur);
            }
        }
    } else {
        assert(fs.flatten() + cur =~= fs.flatten());
    }
}

/// Whether `c` is ASCII whitespace.
fn is_ascii_whitespace(c: char) -> (b: bool)
    ensures
        b == is_ascii_ws(c),
{
    c == ' ' || c == '\t' || c == '\n' || c == '\x0C' || c == '\r'
}

/// Read a command from a line of text: the first whitespace-separated field
/// names the program and the other fields are its arguments.
pub fn from_str(source: &str) -> (r: Result<Command, CommandError>)
    ensures
        match r {
            Ok(c) => ascii_fields(source@).len() > 0 && c@ == ascii_fields(source@),
            Err(e) => ascii_fields(source@).len() == 0 && e == CommandError::Empty,
        },
{
    let chars = chars_of(source);
    let mut fields: Vec<String> = Vec::new();
    let mut cur: Vec<char> = Vec::new();
    let mut i: usize = 0;
    while i < chars.len()
        invariant
            i <= chars@.len(),
            chars@ == source@,
            fields@.map_values(|f: String| f@) == fields_acc(chars@.take(i as int)).0,
            cur@ == fields_acc(chars@.take(i as int)).1,
        decreases chars@.len() - i,
    {
        let c = chars[i];
        let ghost prev = chars@.take(i as int);
        proof {
            assert(chars@.take(i + 1).drop_last() =~= prev);
            assert(chars@.take(i + 1).last() == c);
        }
        if is_ascii_whitespace(c) {
            if cur.len() > 0 {
                let ghost fs = fields@.map_values(|f: String| f@);
                fields.push(string_from_chars(cur.as_slice()));
                proof {
                    assert(fields@.map_values(|f: String| f@) =~= fs.push(cur@));
                }
            }
            cur = Vec::new();
        } else {
            cur.push(c);
        }
        i = i + 1;
    }
    proof {
        assert(chars@.take(chars@.len() as int) =~= source@);
    }
    if cur.len() > 0 {
        let ghost fs = fields@.map_values(|f: String| f@);
        fields.push(string_from_chars(cur.as_slice()));
        proof {
            assert(fields@.map_values(|f: String| f@) =~= fs.push(cur@));
        }
    }
    if fields.len() == 0 {
        return Err(CommandError::Empty);
    }
    let program = fields.remove(0);
    let cmd = Command { program, args: fields };
    proof {
        assert(cmd@ =~= ascii_fields(source@));
    }
    Ok(cmd)
}

/// The argument `--`, which separates commands.
pub open spec fn is_separator(arg: Seq<char>) -> bool {
    arg == seq!['-', '-']
}

/// The argument lists between the `--` separators of `args`, in order; there
/// is one more of them than there are separators.
pub open spec fn groups(args: Seq<Seq<char>>) -> Seq<Seq<Seq<char>>>
    decreases args.len(),
{
    if args.len() == 0 {
        seq![Seq::empty()]
    } else {
        let g = groups(args.drop_last());
        if is_separator(args.last()) {
            g.push(Seq::empty())
        } else {
            g.update(g.len() - 1, g.last().push(args.last()))
        }
    }
}

/// The outcome of splitting `args` into commands: each group between
/// separators is a command, and no group may be empty.
pub open spec fn parse_subcommands_spec(args: Seq<Seq<char>>) -> Result<
    Seq<Seq<Seq<char>>>,
    SubcommandError,
> {
    let g = groups(args);
    if exists|i: int| 0 <= i < g.len() - 1 && (#[trigger] g[i]).len() == 0 {
        Err(SubcommandError::SeparatorWithoutCommand)
    } else if g.last().len() == 0 {
        if g.len() == 1 {
            Err(SubcommandError::NoCommand)
        } else {
            Err(SubcommandError::TrailingSeparator)
        }
    } else {
        Ok(g)
    }
}

/// The argument lists `gs` joined into one, with `--` between neighbours.
pub open spec fn join_groups(gs: Seq<Seq<Seq<char>>>) -> Seq<Seq<char>>
    decreases gs.len(),
{
    if gs.len() <= 1 {
        if gs.len() == 1 {
            gs[0]
        } else {
            Seq::empty()
        }
    } else {
        join_groups(gs.drop_last()).push(seq!['-', '-']) + gs.last()
    }
}

/// Joining the groups of an argument list with `--` gives the list back.
proof fn lemma_join_groups(args: Seq<Seq<char>>)
    ensures
        join_groups(groups(args)) == args,
    decreases args.len(),
{
    if args.len() > 0 {
        let prefix = args.drop_last();
        lemma_join_groups(prefix);
        lemma_groups_len(prefix);
        let g = groups(prefix);
        let a = args.last();
        if is_separator(a) {
            let g2 = g.push(Seq::empty());
            assert(g2.drop_last() =~= g);
            assert(join_groups(g2) == join_groups(g).push(seq!['-', '-']) + Seq::<Seq<char>>::empty());
            assert(join_groups(g).push(seq!['-', '-']) + Seq::<Seq<char>>::empty() =~= args);
        } else {
            let g2 = g.update(g.len() - 1, g.last().push(a));
            if g.len() == 1 {
                assert(join_groups(g2) == g2[0]);
                assert(join_groups(g) == g[0]);
                assert(g2[0] =~= args);
            } else {
                assert(g2.drop_last() =~= g.drop_last());
                assert(join_groups(g2) == join_groups(g.drop_last()).push(seq!['-', '-']) + g.last().push(a));
                assert(join_groups(g) == join_groups(g.drop_last()).push(seq!['-', '-']) + g.last());
                assert(join_groups(g.drop_last()).push(seq!['-', '-']) + g.last().push(a) =~= (join_groups(g.drop_last()).push(seq!['-', '-']) + g.last()).push(a));
                assert(prefix.push(a) =~= args);
            }
        }
    }
}

/// Law: splitting arguments into commands loses nothing: when it succeeds,
/// the commands joined with `--` between them are the arguments, and no
/// command is empty.
pub proof fn law_subcommands_roundtrip(args: Seq<Seq<char>>)
    ensures
        parse_subcommands_spec(args) matches Ok(cmds) ==> {
            &&& join_groups(cmds) == args
            &&& forall|i: int| 0 <= i < cmds.len() ==> (#[trigger] cmds[i]).len() > 0
        },
{
    lemma_join_groups(args);
    lemma_groups_len(args);
    let g = groups(args);
    if parse_subcommands_spec(args) is Ok {
        assert forall|i: int| 0 <= i < g.len() implies (#[trigger] g[i]).len() > 0 by {
            if i < g.len() - 1 {
                assert(!((#[trigger] g[i]).len() == 0));
            }
        }
    }
}

/// There is always at least one group.
proof fn lemma_groups_len(args: Seq<Seq<char>>)
    ensures
        groups(args).len() >= 1,
    decreases args.len(),
{
    if args.len() > 0 {
        lemma_groups_len(args.drop_last());
    }
}

/// Whether `arg` is `--`.
fn is_separator_arg(arg: &str) -> (b: bool)
    ensures
        b == is_separator(arg@),
{
    let cs = chars_of(arg);
    let b = cs.len() == 2 && cs[0] == '-' && cs[1] == '-';
    proof {
        if b {
            assert(cs@ =~= seq!['-', '-']);
        }
    }
    b
}

/// Split arguments into commands, separated by `--`.
pub fn parse_subcommands(args: &[String]) -> (r: Result<Vec<Command>, SubcommandError>)
    ensures
        match parse_subcommands_spec(args@.map_values(|a: String| a@)) {
            Ok(cmds) => r matches Ok(v) && v@.map_values(|c: Command| c@) == cmds,
            Err(e) => r == Err::<Vec<Command>, SubcommandError>(e),
        },
{
    let ghost all = args@.map_values(|a: String| a@);
    let mut commands: Vec<Command> = Vec::new();
    let mut cmdslot: Option<Command> = None;
    let mut i: usize = 0;
    while i < args.len()
        invariant
            i <= args@.len(),
            all == args@.map_values(|a: String| a@),
            ({
                let g = groups(all.take(i as int));
                &&& g.len() >= 1
                &&& commands@.map_values(|c: Command| c@) == g.drop_last()
                &&& forall|j: int| 0 <= j < g.len() - 1 ==> (#[trigger] g[j]).len() > 0
                &&& match cmdslot {
                    Some(c) => c@ == g.last() && g.last().len() > 0,
                    None => g.last().len() == 0,
                }
            }),
        decreases args@.len() - i,
    {
        let ghost prefix = all.take(i as int);
        let ghost g = groups(prefix);
        proof {
            assert(all.take(i + 1).drop_last() =~= prefix);
            assert(all.take(i + 1).last() == args@[i as int]@);
            lemma_groups_len(prefix);
        }
        let arg = &args[i];
        if is_separator_arg(arg.as_str()) {
            match cmdslot {
                Some(cmd) => {
                    let ghost prev = commands@.map_values(|c: Command| c@);
                    commands.push(cmd);
                    cmdslot = None;
                    proof {
                        assert(commands@.map_values(|c: Command| c@) =~= prev.push(g.last()));
                        let g2 = groups(all.take(i + 1));
                        assert(g2 == g.push(Seq::empty()));
                        assert(g2.drop_last() =~= g);
                        assert(g =~= g.drop_last().push(g.last()));
                    }
                },
                None => {
                    proof {
                        let full = groups(all);
                        lemma_groups_prefix(all, i as int + 1);
                        let g2 = groups(all.take(i + 1));
                        assert(g2 == g.push(Seq::empty()));
                        assert(full[g.len() - 1] == g2[g.len() - 1]);
                        assert(full[g.len() - 1].len() == 0);
                    }
                    return Err(SubcommandError::SeparatorWithoutCommand);
                },
            }
        } else {
            let a = string_from_chars(chars_of(arg.as_str()).as_slice());
            match cmdslot {
                Some(mut cmd) => {
                    cmd.arg(a);
                    cmdslot = Some(cmd);
                },
                None => {
                    cmdslot = Some(Command::new(a));
                },
            }
            proof {
                let g2 = groups(all.take(i + 1));
                assert(g2 == g.update(g.len() - 1, g.last().push(args@[i as int]@)));
                assert(g2.drop_last() =~= g.drop_last());
                if g.last().len() == 0 {
                    assert(g.last().push(args@[i as int]@) =~= seq![args@[i as int]@]);
                }
            }
        }
        i = i + 1;
    }
    proof {
        assert(all.take(args@.len() as int) =~= all);
    }
    match cmdslot {
        Some(cmd) => {
            let ghost prev = commands@.map_values(|c: Command| c@);
            commands.push(cmd);
            proof {
                let g = groups(all);
                assert(prev == g.drop_last());
                assert(commands@.map_values(|c: Command| c@) =~= g.drop_last().push(g.last()));
                assert(g.drop_last().push(g.last()) =~= g);
            }
            Ok(commands)
        },
        None => {
            if commands.len() == 0 {
                Err(SubcommandError::NoCommand)
            } else {
                Err(SubcommandError::TrailingSeparator)
            }
        },
    }
}

/// The groups of a prefix of the arguments are the first groups of all the
/// arguments, the last of them possibly still growing.
proof fn lemma_groups_prefix(args: Seq<Seq<char>>, n: int)
    requires
        0 <= n <= args.len(),
    ensures
        groups(args.take(n)).len() <= groups(args).len(),
        forall|j: int|
            0 <= j < groups(args.take(n)).len() - 1 ==> #[trigger] groups(args.take(n))[j]
                == groups(args)[j],
    decreases args.len() - n,
{
    if n == args.len() {
        assert(args.take(n) =~= args);
    } else {
        lemma_groups_prefix(args, n + 1);
        lemma_groups_len(args.take(n));
        let s1 = args.take(n + 1);
        assert(s1.drop_last() =~= args.take(n));
        assert(s1.last() == args[n]);
        let g0 = groups(args.take(n));
        let g1 = groups(s1);
        assert forall|j: int| 0 <= j < g0.len() - 1 implies #[trigger] g0[j] == groups(args)[j] by {
            assert(g1[j] == g0[j]);
        }
    }
}

} // verus!
