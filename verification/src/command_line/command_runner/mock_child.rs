//! A child that is no process: it keeps what it is given and answers with a
//! fixed output.
use crate::command_line::command_runner::child::{Child, CommandError};
use crate::command_line::command_runner::mock_command::MockCommand;
use crate::command_line::record_writer::append_bytes;
use vstd::prelude::*;
use vstd::string::*;

verus! {

/// What every [`MockCommandChild`] writes to its standard output.
pub open spec fn mock_output() -> Seq<u8> {
    "the program output is a lie".spec_bytes()
}

/// A child that is no process. It holds the command that spawned it, and it
/// writes the same output whatever it reads.
#[derive(Clone, Debug, Eq, PartialEq)]
pub struct MockCommandChild {
    /// The command that spawned the child, as it was then.
    pub command: MockCommand,
    /// What the child writes to its standard output.
    pub output: Vec<u8>,
    /// The standard input of the child, until it is taken.
    pub stdin: Option<Vec<u8>>,
    /// The standard output of the child, until it is taken.
    pub stdout: Option<Vec<u8>>,
}

impl MockCommandChild {
    /// Makes the child of `command`. Its standard input can be taken, and is
    /// empty.
    pub fn new(command: &MockCommand) -> (child: Self)
        ensures
            child.command.calls@ == command.calls@,
            child.command.program == command.program,
            child.command.arguments@ == command.arguments@,
            child.stdin matches Some(b) && b@.len() == 0,
            child.output@ == mock_output(),
    {
        let mut output: Vec<u8> = Vec::new();
        append_bytes(&mut output, "the program output is a lie".as_bytes());
        assert(output@ =~= mock_output());
        let stdout = output.clone();
        MockCommandChild {
            command: command.duplicate(),
            output,
            stdin: Some(Vec::new()),
            stdout: Some(stdout),
        }
    }

    /// The command that spawned the child.
    pub fn command(&self) -> (command: &MockCommand)
        ensures
            *command == self.command,
    {
        &self.command
    }
}

impl Child for MockCommandChild {
    open spec fn program(&self) -> String {
        self.command.program
    }

    open spec fn arguments(&self) -> Vec<String> {
        self.command.arguments
    }

    open spec fn has_stdin(&self) -> bool {
        self.stdin is Some
    }

    /// The child may write anything: what it writes is the output that it
    /// holds.
    open spec fn outcome(
        program: String,
        arguments: Vec<String>,
        input: Vec<u8>,
        output: Vec<u8>,
    ) -> bool {
        true
    }

    /// The child never fails.
    open spec fn failure(
        program: String,
        arguments: Vec<String>,
        input: Vec<u8>,
        error: CommandError,
    ) -> bool {
        false
    }

    fn stdin(&mut self) -> (buffer: Vec<u8>)
        ensures
            Some(buffer) == old(self).stdin,
            final(self).stdin is None,
    {
        self.stdin.take().unwrap()
    }

    /// Always succeeds, with the output that the child holds.
    fn wait_with_output(self, input: Vec<u8>) -> (r: Result<Vec<u8>, CommandError>)
        ensures
            r == Ok::<Vec<u8>, CommandError>(self.output),
    {
        Ok(self.output)
    }
}

} // verus!
