//! Starts a command.
use crate::command_line::command_runner::child::{Child, CommandError};
use crate::command_line::command_runner::command::{Command, Stdio};
use crate::command_line::command_runner::handle::Handle;
use crate::command_line::record_writer::texts;
use vstd::prelude::*;
use vstd::string::*;

verus! {

/// Whether starting `program` with `arguments` as a command of `C` may fail
/// with `error`.
pub open spec fn refused<C: Command>(
    program: Seq<char>,
    arguments: Seq<Seq<char>>,
    error: CommandError,
) -> bool {
    exists|p: String, a: Vec<String>| #[trigger]
        C::refusal(p, a, error) && p@ == program && texts(a@) == arguments
}

/// Starts `program` with `shell_args`, with a pipe to its standard input and
/// one from its standard output, and returns the handle of the child.
///
/// The standard error of the child is that of the process that started it.
pub fn run<'a, C: Command>(program: &str, shell_args: &[String], separator: &'a str) -> (r: Result<
    Handle<'a, C::Child>,
    CommandError,
>)
    ensures
        r matches Ok(handle) ==> handle.child.program()@ == program@ && texts(
            handle.child.arguments()@,
        ) == texts(shell_args@) && handle.stdin.writer@.len() == 0 && handle.stdin.separator@
            == separator.spec_bytes(),
        r matches Err(error) ==> refused::<C>(program@, texts(shell_args@), error),
{
    let mut command = C::new(program);
    command.args(shell_args);
    command.stdin(Stdio::Piped);
    command.stdout(Stdio::Piped);
    assert(texts(command.arguments()@) =~= texts(shell_args@));
    let ghost asked = command;
    match command.spawn() {
        Err(e) => {
            assert(C::refusal(asked.program(), asked.arguments(), e));
            Err(e)
        },
        Ok(child) => Ok(Handle::new(child, separator)),
    }
}

} // verus!
