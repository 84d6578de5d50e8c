//! A command that can be started, as the library sees it.
use crate::command_line::command_runner::child::{Child, CommandError};
use crate::command_line::record_writer::texts;
use vstd::prelude::*;

verus! {

/// What a standard stream of a child is connected to.
#[derive(Clone, Copy, Debug, PartialEq, Eq, Structural)]
pub enum Stdio {
    /// A pipe between the child and the process that started it.
    Piped,
    /// The stream of the process that started the child.
    Inherit,
    /// Nothing.
    Null,
}

/// A command that is being set up and can then be started.
pub trait Command: Sized {
    type Child: Child;

    /// The program that the command runs.
    spec fn program(&self) -> String;

    /// The arguments given so far.
    spec fn arguments(&self) -> Vec<String>;

    /// What the standard input of the child will be connected to.
    spec fn input(&self) -> Stdio;

    /// What the standard output of the child will be connected to.
    spec fn output(&self) -> Stdio;

    /// Whether starting `program` with `arguments` may fail with `error`.
    spec fn refusal(program: String, arguments: Vec<String>, error: CommandError) -> bool;

    /// Sets up a command that runs `program` without arguments, with the
    /// standard streams of the process that starts it.
    fn new(program: &str) -> (command: Self)
        ensures
            command.program()@ == program@,
            command.arguments()@.len() == 0,
            command.input() == Stdio::Inherit,
            command.output() == Stdio::Inherit,
    ;

    /// Adds arguments to the command.
    fn args(&mut self, args: &[String])
        ensures
            final(self).program() == old(self).program(),
            texts(final(self).arguments()@) == texts(old(self).arguments()@) + texts(args@),
            final(self).input() == old(self).input(),
            final(self).output() == old(self).output(),
    ;

    /// Starts the command.
    fn spawn(&mut self) -> (r: Result<Self::Child, CommandError>)
        ensures
            final(self).program() == old(self).program(),
            final(self).arguments() == old(self).arguments(),
            final(self).input() == old(self).input(),
            final(self).output() == old(self).output(),
            r matches Ok(child) ==> child.program()@ == old(self).program()@ && texts(
                child.arguments()@,
            ) == texts(old(self).arguments()@) && (old(self).input() == Stdio::Piped
                ==> child.has_stdin()),
            r matches Err(error) ==> Self::refusal(
                old(self).program(),
                old(self).arguments(),
                error,
            ),
    ;

    /// Says what the standard input of the child is connected to.
    fn stdin(&mut self, cfg: Stdio)
        ensures
            final(self).program() == old(self).program(),
            final(self).arguments() == old(self).arguments(),
            final(self).input() == cfg,
            final(self).output() == old(self).output(),
    ;

    /// Says what the standard output of the child is connected to.
    fn stdout(&mut self, cfg: Stdio)
        ensures
            final(self).program() == old(self).program(),
            final(self).arguments() == old(self).arguments(),
            final(self).input() == old(self).input(),
            final(self).output() == cfg,
    ;
}

} // verus!
