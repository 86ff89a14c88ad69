//! The command line.

use vstd::prelude::*;

use crate::error::{AppError, AppErrorModel, AppResult};
use crate::text::same_text;

verus! {

/// What the program can be asked to do.
#[derive(Clone, Copy, Debug, PartialEq, Eq, Structural)]
pub enum Command {
    Serve,
    PrintPlan,
}

/// What a command line asks for: a command, or how to write one.
#[derive(Clone, Copy, Debug, PartialEq, Eq, Structural)]
pub enum Invocation {
    Run(Command),
    Help,
}

/// How the program is called.
pub const USAGE: &'static str = "perp-arb [serve|print-plan]";

/// What the first argument asks for; `None` where it is no command.
pub open spec fn invocation(argument: Option<Seq<char>>) -> Option<Invocation> {
    match argument {
        None => Some(Invocation::Run(Command::Serve)),
        Some(text) => if text == "serve"@ {
            Some(Invocation::Run(Command::Serve))
        } else if text == "print-plan"@ {
            Some(Invocation::Run(Command::PrintPlan))
        } else if text == "--help"@ || text == "-h"@ || text == "help"@ {
            Some(Invocation::Help)
        } else {
            None
        },
    }
}

/// The refusal of an argument that is no command.
pub open spec fn unknown_command(argument: Seq<char>) -> Seq<char> {
    "unknown command `"@ + argument + "`; supported commands: `serve`, `print-plan`"@
}

/// Reads the first argument of the command line.
pub fn parse_argument(argument: Option<&str>) -> (r: AppResult<Invocation>)
    ensures
        match r {
            Ok(asked) => invocation(
                match argument {
                    Some(text) => Some(text@),
                    None => None,
                },
            ) == Some(asked),
            Err(error) => {
                &&& argument is Some
                &&& invocation(Some(argument->0@)) is None
                &&& error@ == AppErrorModel::Validation(unknown_command(argument->0@))
            },
        },
{
    let text = match argument {
        None => {
            return Ok(Invocation::Run(Command::Serve));
        },
        Some(text) => text,
    };
    if same_text(text, "serve") {
        Ok(Invocation::Run(Command::Serve))
    } else if same_text(text, "print-plan") {
        Ok(Invocation::Run(Command::PrintPlan))
    } else if same_text(text, "--help") || same_text(text, "-h") || same_text(text, "help") {
        Ok(Invocation::Help)
    } else {
        let mut message = "unknown command `".to_owned();
        message.append(text);
        message.append("`; supported commands: `serve`, `print-plan`");
        Err(AppError::Validation(message))
    }
}

/// The program serves if it is asked to or asked for nothing, prints the plan if it is asked to, shows
/// how it is called if it is asked for help, and refuses everything else by name.
pub proof fn arguments_are_commands(argument: Seq<char>)
    ensures
        invocation(None) == Some(Invocation::Run(Command::Serve)),
        invocation(Some("serve"@)) == Some(Invocation::Run(Command::Serve)),
        invocation(Some("print-plan"@)) == Some(Invocation::Run(Command::PrintPlan)),
        invocation(Some("--help"@)) == Some(Invocation::Help),
        invocation(Some("-h"@)) == Some(Invocation::Help),
        invocation(Some("help"@)) == Some(Invocation::Help),
        argument != "serve"@ && argument != "print-plan"@ && argument != "--help"@ && argument
            != "-h"@ && argument != "help"@ ==> invocation(Some(argument)) is None,
        unknown_command(argument) == "unknown command `"@ + argument
            + "`; supported commands: `serve`, `print-plan`"@,
{
    reveal_strlit("serve");
    reveal_strlit("print-plan");
    reveal_strlit("--help");
    reveal_strlit("-h");
    reveal_strlit("help");
    assert("serve"@.len() == 5 && "print-plan"@.len() == 10 && "--help"@.len() == 6);
    assert("-h"@.len() == 2 && "help"@.len() == 4);
}

} // verus!
