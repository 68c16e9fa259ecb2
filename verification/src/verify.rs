//! Certifying a goal by running configured commands: tool verification outranks model
//! opinion. The verdict is computed from the commands' exit statuses alone; no agent output can
//! set or override it. Running each command is the application's (the shared subprocess
//! primitive); the library holds the commands and decides the verdict.

use vstd::prelude::*;

use core::time::Duration;

use crate::exec::{ExecError, Output};

verus! {

/// A single verification command: a program and its argument vector (passed literally, never
/// through a shell), bounded by a timeout.
#[derive(Clone, Debug)]
pub struct VerifyCommand {
    /// The program to run.
    pub program: String,
    /// The arguments, passed literally.
    pub args: Vec<String>,
    /// The wall-clock bound on this command.
    pub timeout: Duration,
}

impl VerifyCommand {
    /// A command running `program` with `args`, bounded by `timeout`.
    pub fn new(program: &str, args: Vec<String>, timeout: Duration) -> (c: VerifyCommand)
        ensures
            c.program@ == program@,
            c.args@ == args@,
            c.timeout == timeout,
    {
        VerifyCommand { program: String::from_str(program), args, timeout }
    }
}

/// Certifies the goal by running its configured commands, in order, in the workspace.
#[derive(Clone, Debug)]
pub struct CommandVerification {
    commands: Vec<VerifyCommand>,
    workspace: String,
}

/// The verdict of a verification.
#[derive(Clone, Copy, Debug, PartialEq, Eq, Structural)]
pub enum Verdict {
    /// Every command exited zero.
    Pass,
    /// Some command exited non-zero, failed to spawn, or timed out.
    Fail,
}

/// Whether a command's result passes it: it ran and exited zero.
pub open spec fn passes(result: Result<Output, ExecError>) -> bool {
    result matches Ok(output) && output.exit_code == Some(0i32)
}

impl CommandVerification {
    pub closed spec fn commands_spec(&self) -> Seq<VerifyCommand> {
        self.commands@
    }

    pub closed spec fn workspace_spec(&self) -> Seq<char> {
        self.workspace@
    }

    /// A verifier that runs `commands` in `workspace`.
    pub fn new(commands: Vec<VerifyCommand>, workspace: &str) -> (v: CommandVerification)
        ensures
            v.commands_spec() == commands@,
            v.workspace_spec() == workspace@,
    {
        CommandVerification { commands, workspace: String::from_str(workspace) }
    }

    /// The commands, in the order they run.
    pub fn commands(&self) -> (c: &Vec<VerifyCommand>)
        ensures
            c@ == self.commands_spec(),
    {
        &self.commands
    }

    /// The workspace the commands run in.
    pub fn workspace(&self) -> (w: &String)
        ensures
            w@ == self.workspace_spec(),
    {
        &self.workspace
    }

    /// The verdict once `results` holds the results of the first commands, in order: `Fail` as
    /// soon as one did not pass (no later command can flip it), `Pass` once every command has
    /// passed, and `None` while the next command still has to run.
    pub fn verdict_after(&self, results: &Vec<Result<Output, ExecError>>) -> (v: Option<Verdict>)
        requires
            results@.len() <= self.commands_spec().len(),
        ensures
            (exists|i: int| 0 <= i < results@.len() && !passes(#[trigger] results@[i])) ==> v == Some(
                Verdict::Fail,
            ),
            (forall|i: int| 0 <= i < results@.len() ==> passes(#[trigger] results@[i])) ==> v == if results@.len()
                == self.commands_spec().len() {
                Some(Verdict::Pass)
            } else {
                None::<Verdict>
            },
    {
        let mut i: usize = 0;
        while i < results.len()
            invariant
                i <= results@.len(),
                forall|j: int| 0 <= j < i ==> passes(#[trigger] results@[j]),
            decreases results@.len() - i,
        {
            if !command_passed(&results[i]) {
                return Some(Verdict::Fail);
            }
            i = i + 1;
        }
        if results.len() == self.commands.len() {
            Some(Verdict::Pass)
        } else {
            None
        }
    }
}

/// Whether a command's result passes it: a clean exit passes; a non-zero exit, a spawn failure
/// or a timeout fails.
pub fn command_passed(result: &Result<Output, ExecError>) -> (b: bool)
    ensures
        b == passes(*result),
{
    match result {
        Ok(output) => match output.exit_code {
            Some(code) => code == 0,
            None => false,
        },
        Err(_) => false,
    }
}

} // verus!
