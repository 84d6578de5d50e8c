//! A command that starts no process: it records what is asked of it.
use crate::command_line::command_runner::child::{Child, CommandError};
use crate::command_line::command_runner::command::{Command, Stdio};
use crate::command_line::command_runner::mock_child::MockCommandChild;
use crate::command_line::record_writer::texts;
use vstd::prelude::*;
use vstd::string::*;

verus! {

broadcast use vstd::string::group_string_axioms;

/// A command that starts no process. It records each call in `calls`, and
/// the child that it spawns is a [`MockCommandChild`].
#[derive(Clone, Debug, Eq, PartialEq)]
pub struct MockCommand {
    /// The calls made so far, each as a text such as `new(program)`.
    pub calls: Vec<String>,
    /// The program that the command was set up for.
    pub program: String,
    /// The arguments given so far.
    pub arguments: Vec<String>,
    /// What the standard input of the child is connected to.
    pub input: Stdio,
    /// What the standard output of the child is connected to.
    pub output: Stdio,
}

/// The texts of `args`, with a comma and a space between them.
pub open spec fn joined(args: Seq<Seq<char>>) -> Seq<char>
    decreases args.len(),
{
    if args.len() == 0 {
        Seq::empty()
    } else if args.len() == 1 {
        args[0]
    } else {
        joined(args.drop_last()) + ", "@ + args.last()
    }
}

/// Writes arguments with a comma and a space between them.
pub fn join_arguments(args: &[String]) -> (s: String)
    ensures
        s@ == joined(texts(args@)),
{
    let mut s = String::new();
    let mut i: usize = 0;
    assert(texts(args@.take(0)) =~= Seq::<Seq<char>>::empty());
    while i < args.len()
        invariant
            i <= args.len(),
            s@ == joined(texts(args@.take(i as int))),
        decreases args.len() - i,
    {
        if i > 0 {
            s.append(", ");
        }
        s.append(args[i].as_str());
        proof {
            let now = texts(args@.take(i + 1));
            let was = texts(args@.take(i as int));
            assert(now.drop_last() =~= was);
            assert(now.last() == args[i as int]@);
            if i == 0 {
                assert(s@ =~= now[0]);
            }
        }
        i += 1;
    }
    assert(args@.take(args.len() as int) =~= args@);
    s
}

impl MockCommand {
    /// Returns a command that is equal to this one.
    pub fn duplicate(&self) -> (copy: Self)
        ensures
            copy.calls@ == self.calls@,
            copy.program == self.program,
            copy.arguments@ == self.arguments@,
            copy.input == self.input,
            copy.output == self.output,
    {
        let calls = self.calls.clone();
        let arguments = self.arguments.clone();
        assert(calls@ =~= self.calls@);
        assert(arguments@ =~= self.arguments@);
        MockCommand {
            calls,
            program: self.program.clone(),
            arguments,
            input: self.input,
            output: self.output,
        }
    }
}

impl Command for MockCommand {
    type Child = MockCommandChild;

    open spec fn program(&self) -> String {
        self.program
    }

    open spec fn arguments(&self) -> Vec<String> {
        self.arguments
    }

    open spec fn input(&self) -> Stdio {
        self.input
    }

    open spec fn output(&self) -> Stdio {
        self.output
    }

    /// The command always starts.
    open spec fn refusal(program: String, arguments: Vec<String>, error: CommandError) -> bool {
        false
    }

    /// Records the call as `new(program)`.
    fn new(program: &str) -> (command: Self)
        ensures
            command.calls@.len() == 1,
            command.calls[0]@ == "new("@ + program@ + ")"@,
    {
        let mut call = "new(".to_string();
        call.append(program);
        call.append(")");
        let mut calls: Vec<String> = Vec::new();
        calls.push(call);
        MockCommand {
            calls,
            program: program.to_string(),
            arguments: Vec::new(),
            input: Stdio::Inherit,
            output: Stdio::Inherit,
        }
    }

    /// Records the call as `args([first, second])`.
    fn args(&mut self, args: &[String])
        ensures
            final(self).calls@.len() == old(self).calls@.len() + 1,
            final(self).calls@.last()@ == "args(["@ + joined(texts(args@)) + "])"@,
    {
        let mut call = "args([".to_string();
        call.append(join_arguments(args).as_str());
        call.append("])");
        self.calls.push(call);
        let mut i: usize = 0;
        assert(texts(args@.take(0)) =~= Seq::<Seq<char>>::empty());
        assert(texts(self.arguments@) =~= texts(old(self).arguments@) + texts(args@.take(0)));
        while i < args.len()
            invariant
                i <= args.len(),
                self.program == old(self).program,
                self.input == old(self).input,
                self.output == old(self).output,
                self.calls@.len() == old(self).calls@.len() + 1,
                self.calls@.last()@ == "args(["@ + joined(texts(args@)) + "])"@,
                texts(self.arguments@) == texts(old(self).arguments@) + texts(
                    args@.take(i as int),
                ),
            decreases args.len() - i,
        {
            let ghost before = self.arguments@;
            let argument = args[i].clone();
            self.arguments.push(argument);
            proof {
                assert(texts(before.push(argument)) =~= texts(before).push(argument@));
                assert(args@.take(i + 1) =~= args@.take(i as int).push(args@[i as int]));
                assert(texts(args@.take(i as int).push(args@[i as int])) =~= texts(
                    args@.take(i as int),
                ).push(args@[i as int]@));
                assert(texts(self.arguments@) =~= texts(old(self).arguments@) + texts(
                    args@.take(i + 1),
                ));
            }
            i += 1;
        }
        assert(args@.take(args.len() as int) =~= args@);
    }

    /// Records the call as `spawn()`. The command always starts.
    fn spawn(&mut self) -> (r: Result<MockCommandChild, CommandError>)
        ensures
            r is Ok,
            final(self).calls@.len() == old(self).calls@.len() + 1,
            final(self).calls@.last()@ == "spawn()"@,
    {
        self.calls.push("spawn()".to_string());
        Ok(MockCommandChild::new(self))
    }

    /// Records the call as `stdin(Stdio { .. })`.
    fn stdin(&mut self, cfg: Stdio)
        ensures
            final(self).calls@.len() == old(self).calls@.len() + 1,
            final(self).calls@.last()@ == "stdin(Stdio { .. })"@,
    {
        self.calls.push("stdin(Stdio { .. })".to_string());
        self.input = cfg;
    }

    /// Records the call as `stdout(Stdio { .. })`.
    fn stdout(&mut self, cfg: Stdio)
        ensures
            final(self).calls@.len() == old(self).calls@.len() + 1,
            final(self).calls@.last()@ == "stdout(Stdio { .. })"@,
    {
        self.calls.push("stdout(Stdio { .. })".to_string());
        self.output = cfg;
    }
}

} // verus!
