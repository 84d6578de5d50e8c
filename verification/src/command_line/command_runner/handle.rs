//! The handle of a running command.
use crate::command_line::command_runner::child::{Child, CommandError};
use crate::command_line::record_writer::RecordWriter;
use vstd::prelude::*;
use vstd::string::*;

verus! {

/// A child process together with the writer of its standard input.
///
/// What is written to `stdin` reaches the child when the handle waits for it:
/// `wait_with_output` gives the child what was written, closes its standard
/// input, and only then waits. There is no other way to wait through the
/// handle, so the child is never waited for while its input is still open.
pub struct Handle<'a, CC: Child> {
    /// The child.
    pub child: CC,
    /// The writer of the standard input of the child. Each value written is
    /// followed by the separator that the handle was made with.
    pub stdin: RecordWriter<'a>,
}

impl<'a, CC: Child> Handle<'a, CC> {
    /// Makes the handle of `child`, with a writer that puts `sep` after each
    /// value. The handle takes the standard input of `child`, which `child`
    /// must still have: it can be taken once.
    pub fn new(child: CC, sep: &'a str) -> (handle: Self)
        requires
            child.has_stdin(),
        ensures
            handle.stdin.writer@.len() == 0,
            handle.stdin.separator@ == sep.spec_bytes(),
            handle.child.program() == child.program(),
            handle.child.arguments() == child.arguments(),
            !handle.child.has_stdin(),
    {
        let mut child = child;
        let mut buffer = child.stdin();
        buffer.clear();
        Handle { child, stdin: RecordWriter::new(buffer, sep.as_bytes()) }
    }

    /// Gives up the handle for the child.
    pub fn child(self) -> (child: CC)
        ensures
            child == self.child,
    {
        self.child
    }

    /// Gives the child what was written to its standard input, closes the
    /// input, waits until the child has ended, and returns what it wrote to
    /// its standard output.
    pub fn wait_with_output(self) -> (r: Result<Vec<u8>, CommandError>)
        ensures
            r matches Ok(output) ==> CC::outcome(
                self.child.program(),
                self.child.arguments(),
                self.stdin.writer,
                output,
            ),
            r matches Err(error) ==> CC::failure(
                self.child.program(),
                self.child.arguments(),
                self.stdin.writer,
                error,
            ),
    {
        let Handle { child, stdin } = self;
        child.wait_with_output(stdin.writer())
    }
}

} // verus!
