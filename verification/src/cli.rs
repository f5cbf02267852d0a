//! The command line: which input to read, and the usage text.
//!
//! The program takes at most one argument besides its own name: the path of a
//! file to read. Without it, or with `-` in its place, the standard input is
//! read. More arguments than that are an error of usage.

use vstd::prelude::*;
use vstd::string::*;

verus! {

/// Where the bytes come from.
#[derive(Debug, PartialEq, Eq)]
pub enum InputSource {
    /// The standard input of the process.
    StandardInput,
    /// The file at this path.
    File(String),
}

/// The program was called with more than one argument.
#[derive(Clone, Copy, Debug, PartialEq, Eq)]
pub struct UsageError;

/// Exit status after an error of usage.
pub const EXIT_USAGE: i32 = 1;

/// Exit status after an input without bytes: there was nothing to show, which
/// is reported as a failure.
pub const EXIT_EMPTY_INPUT: i32 = 1;

/// The argument that stands for the standard input.
pub open spec fn standard_input_name() -> Seq<char> {
    "-"@
}

/// The usage text for a program called as `program`.
pub open spec fn usage_text(program: Seq<char>) -> Seq<char> {
    "usage: "@ + program + " [input-file | -]"@
}

/// Picks the input from the arguments of the process, of which the first is
/// the name of the program itself.
pub fn select_input(args: &[String]) -> (choice: Result<InputSource, UsageError>)
    ensures
        choice is Err <==> args@.len() > 2,
        choice matches Ok(InputSource::File(path)) ==> {
            &&& args@.len() == 2
            &&& path@ == args@[1]@
            &&& path@ != standard_input_name()
        },
        choice matches Ok(InputSource::StandardInput) ==> {
            ||| args@.len() < 2
            ||| args@[1]@ == standard_input_name()
        },
{
    if args.len() > 2 {
        return Err(UsageError);
    }
    if args.len() == 2 {
        let dash = String::from_str("-");
        if args[1] != dash {
            return Ok(InputSource::File(args[1].clone()));
        }
    }
    Ok(InputSource::StandardInput)
}

/// The usage text for a program called as `program`.
pub fn usage_message(program: &str) -> (text: String)
    ensures
        text@ == usage_text(program@),
{
    let mut text = String::from_str("usage: ");
    text.append(program);
    text.append(" [input-file | -]");
    text
}

} // verus!
