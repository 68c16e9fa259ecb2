//! A run's configuration as its file states it, and how it combines with the command line.
//!
//! The workspace and the task come from the command line; everything else (the Agent CLI, the
//! verification commands, the agent timeout) comes from the configuration file. Reading and
//! parsing the file (which fails closed) is the application's.

use vstd::prelude::*;
use vstd::utf8::encode_utf8;

use core::time::Duration;

use crate::ids::{id_text, id_v5_oid, uuid_text, uuid_v5_oid};
use crate::run::RunConfig;
use crate::verify::VerifyCommand;

verus! {

/// The Agent CLI to drive, and the wall-clock bound on each invocation.
#[derive(Clone, Debug)]
pub struct AgentConfig {
    pub program: String,
    pub args: Vec<String>,
    pub timeout_secs: u64,
}

/// One objective verification command: a program, its arguments, and a timeout.
#[derive(Clone, Debug)]
pub struct CommandConfig {
    pub program: String,
    pub args: Vec<String>,
    pub timeout_secs: u64,
}

/// The on-disk run configuration: the parameters not supplied on the command line.
#[derive(Clone, Debug)]
pub struct RunFileConfig {
    pub agent: AgentConfig,
    pub verification: Vec<CommandConfig>,
}

/// The duration `Duration::from_secs` makes of `secs` whole seconds.
pub uninterp spec fn duration_of_secs(secs: u64) -> Duration;

/// `Duration::from_secs`. A `Duration` has no view here, so its result is named by
/// [`duration_of_secs`]: the same number of seconds always gives the same duration.
#[verifier::external_body]
fn seconds(secs: u64) -> (d: Duration)
    ensures
        d == duration_of_secs(secs),
{
    Duration::from_secs(secs)
}

/// The identity of a run over `workspace` and `task`: the version-5 UUID (OID namespace) of
/// `workspace`, a newline and `task`, in its hyphenated form.
pub open spec fn run_id_of(workspace: Seq<char>, task: Seq<char>) -> Seq<char> {
    uuid_text(uuid_v5_oid(encode_utf8(workspace + "\n"@ + task)))
}

impl RunFileConfig {
    /// Combines the file configuration with the command-line `workspace` and `task`. The run id
    /// is deterministic over the workspace and the task; the agent and every verification
    /// command are carried over, in order, their timeouts taken as seconds.
    pub fn into_run_config(self, workspace: &str, task: String) -> (c: RunConfig)
        ensures
            c.run_id@ == run_id_of(workspace@, task@),
            c.workspace@ == workspace@,
            c.task@ == task@,
            c.agent_program@ == self.agent.program@,
            c.agent_args@ == self.agent.args@,
            c.timeout == duration_of_secs(self.agent.timeout_secs),
            c.verification@.len() == self.verification@.len(),
            forall|i: int|
                0 <= i < self.verification@.len() ==> (#[trigger] c.verification@[i]).program@
                    == self.verification@[i].program@ && c.verification@[i].args@ == self.verification@[i].args@
                    && c.verification@[i].timeout == duration_of_secs(self.verification@[i].timeout_secs),
    {
        let mut key = String::from_str(workspace);
        key.append("\n");
        key.append(task.as_str());
        let run_id = id_text(id_v5_oid(key.as_str().as_bytes()));
        let mut verification: Vec<VerifyCommand> = Vec::new();
        let n = self.verification.len();
        let mut i: usize = 0;
        while i < n
            invariant
                n == self.verification@.len(),
                i <= n,
                verification@.len() == i,
                forall|j: int|
                    0 <= j < i ==> (#[trigger] verification@[j]).program@ == self.verification@[j].program@
                        && verification@[j].args@ == self.verification@[j].args@
                        && verification@[j].timeout == duration_of_secs(self.verification@[j].timeout_secs),
            decreases n - i,
        {
            let c = &self.verification[i];
            let cmd = VerifyCommand::new(c.program.as_str(), c.args.clone(), seconds(c.timeout_secs));
            verification.push(cmd);
            i = i + 1;
        }
        RunConfig {
            run_id,
            workspace: String::from_str(workspace),
            agent_program: self.agent.program,
            agent_args: self.agent.args,
            task,
            verification,
            timeout: seconds(self.agent.timeout_secs),
        }
    }
}

} // verus!
