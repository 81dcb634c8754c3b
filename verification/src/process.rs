//! What the library asks of the service that runs external programs, and what it
//! takes back from it. The library never runs a program itself: it says which
//! program is to run next and is told how that went.

use crate::text::texts;
use vstd::prelude::*;

verus! {

/// Whether an external program runs as the current user or with elevation.
#[derive(Clone, Copy, Debug, PartialEq, Eq, Structural)]
pub enum Perms {
    Same,
    Sudo,
}

/// One invocation of an external program: the program's name, then its arguments.
#[derive(Debug)]
pub struct Command {
    pub args: Vec<String>,
    pub perms: Perms,
}

/// A `Command` as plain values.
pub struct CommandView {
    pub args: Seq<Seq<char>>,
    pub perms: Perms,
}

impl View for Command {
    type V = CommandView;

    open spec fn view(&self) -> CommandView {
        CommandView { args: texts(self.args@), perms: self.perms }
    }
}

/// The invocations that a vector of them stands for.
pub open spec fn commands(v: Seq<Command>) -> Seq<CommandView> {
    Seq::new(v.len(), |i: int| v[i]@)
}

/// How an invocation ended: whether the program ran and exited with success, and
/// what it wrote to its standard output where that was captured.
#[derive(Debug)]
pub struct Output {
    pub success: bool,
    pub stdout: String,
}

/// What is to happen next in an operation that talks to an external program.
///
/// `Run` asks for the command to be run with the terminal left to it, `Capture`
/// for its standard output to be captured. Either carries the state with which the
/// operation is resumed once the `Output` of the command is known. `Finish` ends
/// the operation with its result.
pub enum Step<S, T> {
    Run(Command, S),
    Capture(Command, S),
    Finish(T),
}

/// The texts of a sequence of string slices.
pub open spec fn strs(v: Seq<&str>) -> Seq<Seq<char>> {
    Seq::new(v.len(), |i: int| v[i]@)
}

/// The invocation of `program` with `switches` as its first arguments.
pub fn invocation(program: &str, switches: &[&str], perms: Perms) -> (command: Command)
    ensures
        command@.args == seq![program@] + strs(switches@),
        command@.perms == perms,
{
    let mut args: Vec<String> = Vec::new();
    push_arg(&mut args, program);
    let mut i: usize = 0;
    assert(texts(args@) =~= seq![program@] + strs(switches@).take(0));
    while i < switches.len()
        invariant
            i <= switches.len(),
            texts(args@) == seq![program@] + strs(switches@).take(i as int),
        decreases switches.len() - i,
    {
        let ghost before = texts(args@);
        push_arg(&mut args, switches[i]);
        assert(before.push(switches@[i as int]@) =~= seq![program@] + strs(switches@).take(i + 1));
        i += 1;
    }
    assert(strs(switches@).take(switches@.len() as int) =~= strs(switches@));
    Command { args, perms }
}

/// Appends a copy of `arg` to `args`.
pub fn push_arg(args: &mut Vec<String>, arg: &str)
    ensures
        texts(final(args)@) == texts(old(args)@).push(arg@),
{
    let owned = arg.to_owned();
    args.push(owned);
    assert(texts(args@) =~= texts(old(args)@).push(arg@));
}

/// Appends copies of all of `more` to `args`.
pub fn push_args(args: &mut Vec<String>, more: &Vec<String>)
    ensures
        texts(final(args)@) == texts(old(args)@) + texts(more@),
{
    let mut i: usize = 0;
    assert(texts(args@) =~= texts(old(args)@) + texts(more@).take(0));
    while i < more.len()
        invariant
            i <= more.len(),
            texts(args@) == texts(old(args)@) + texts(more@).take(i as int),
        decreases more.len() - i,
    {
        let ghost before = texts(args@);
        push_arg(args, more[i].as_str());
        assert(texts(more@).take(i + 1) =~= texts(more@).take(i as int).push(more@[i as int]@));
        assert(before.push(more@[i as int]@) =~= texts(old(args)@) + texts(more@).take(i + 1));
        i += 1;
    }
    assert(texts(more@).take(more@.len() as int) =~= texts(more@));
}

/// The invocation to run next when the first `done` of `commands` have been run
/// and the last of them has ended as `succeeded` says: none after a failure, and
/// none once all have been run.
pub open spec fn next_of(commands: Seq<CommandView>, done: int, succeeded: bool) -> Option<
    CommandView,
> {
    if succeeded && 0 <= done < commands.len() {
        Some(commands[done])
    } else {
        None
    }
}

/// The invocation to run next, as `next_of` says. Before the first invocation
/// nothing has failed: `done` is 0 and `succeeded` holds.
pub fn next_command(commands: &Vec<Command>, done: usize, succeeded: bool) -> (next: Option<
    &Command,
>)
    ensures
        match next_of(self::commands(commands@), done as int, succeeded) {
            Some(command) => next matches Some(c) && c@ == command,
            None => next is None,
        },
{
    if succeeded && done < commands.len() {
        Some(&commands[done])
    } else {
        None
    }
}

} // verus!
