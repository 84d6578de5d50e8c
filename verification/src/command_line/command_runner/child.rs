//! A child process, as the library sees it.
use vstd::prelude::*;

verus! {

/// Why a command could not be run to its end.
#[derive(Debug)]
pub enum CommandError {
    /// The command could not be started.
    Spawn(String),
    /// The child could not be fed or waited for, or its output not read.
    Wait(String),
}

/// A process that was started to run a command.
///
/// The library collects in a buffer what the child is to read from its
/// standard input, and hands the buffer over when it waits for the child.
///
/// What a child does is for its implementation to say: `outcome` and
/// `failure` relate a command and its input to what may come of it. An
/// implementation that knows nothing of its children lets both hold always.
pub trait Child: Sized {
    /// The program that the child runs.
    spec fn program(&self) -> String;

    /// The arguments that the program was given.
    spec fn arguments(&self) -> Vec<String>;

    /// Whether the standard input of the child is still to be taken.
    spec fn has_stdin(&self) -> bool;

    /// Whether a child that runs `program` with `arguments` and reads `input`
    /// from its standard input may write `output` to its standard output.
    spec fn outcome(
        program: String,
        arguments: Vec<String>,
        input: Vec<u8>,
        output: Vec<u8>,
    ) -> bool;

    /// Whether a child that runs `program` with `arguments` and is to read
    /// `input` from its standard input may fail with `error`.
    spec fn failure(
        program: String,
        arguments: Vec<String>,
        input: Vec<u8>,
        error: CommandError,
    ) -> bool;

    /// Takes the standard input of the child: the buffer for what the child
    /// is to read. It can be taken once, and only a child that still has it
    /// can be asked for it.
    fn stdin(&mut self) -> (buffer: Vec<u8>)
        requires
            old(self).has_stdin(),
        ensures
            !final(self).has_stdin(),
            final(self).program() == old(self).program(),
            final(self).arguments() == old(self).arguments(),
    ;

    /// Gives the child `input` on its standard input and closes it, waits
    /// until the child has ended, and returns what the child wrote to its
    /// standard output.
    fn wait_with_output(self, input: Vec<u8>) -> (r: Result<Vec<u8>, CommandError>)
        ensures
            r matches Ok(output) ==> Self::outcome(
                self.program(),
                self.arguments(),
                input,
                output,
            ),
            r matches Err(error) ==> Self::failure(
                self.program(),
                self.arguments(),
                input,
                error,
            ),
    ;
}

} // verus!
