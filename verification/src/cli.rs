//! The command-line collaborator's error taxonomy and argument check.
//!
//! Opening the file, reading it and printing diagnostics are I/O and
//! live outside this crate; the taxonomy and the argument-count rule
//! are plain logic and are verified here.

use vstd::prelude::*;

verus! {

/// Everything the command-line collaborator can fail with. Each
/// variant maps to one diagnostic line on the standard error stream
/// and to process exit code 1.
#[derive(Clone, Copy, Debug, PartialEq, Eq, Structural)]
pub enum ProgramError {
    WrongNumberOfArguments,
    FileOpenError,
    FileIsDirectory,
    FileReadError,
    GeneralError,
}

/// The tool takes exactly one positional argument, the path of the
/// source file; any other count is rejected.
pub fn check_args(args: &[String]) -> (outcome: Result<(), ProgramError>)
    ensures
        outcome is Ok <==> args@.len() == 1,
        outcome is Err ==> outcome == Result::<(), ProgramError>::Err(
            ProgramError::WrongNumberOfArguments,
        ),
{
    if args.len() != 1 {
        return Err(ProgramError::WrongNumberOfArguments);
    }
    Ok(())
}

} // verus!
