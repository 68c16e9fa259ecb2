//! A run's assembled configuration, and how a run's outcome is presented.

use vstd::prelude::*;

use core::time::Duration;

use crate::text::{decimal, decimal_text};
use crate::verify::VerifyCommand;

verus! {

/// Everything needed to assemble and drive one run.
#[derive(Clone, Debug)]
pub struct RunConfig {
    /// Stable identity of the run.
    pub run_id: String,
    /// The workspace the agents and verification commands run in.
    pub workspace: String,
    /// The Agent CLI program to invoke (one CLI backs both Build and Review roles).
    pub agent_program: String,
    /// Arguments passed to the Agent CLI.
    pub agent_args: Vec<String>,
    /// The task the Builder agent should carry out.
    pub task: String,
    /// The objective verification commands re-run to certify the goal.
    pub verification: Vec<VerifyCommand>,
    /// Per-invocation wall-clock bound for agent calls.
    pub timeout: Duration,
}

/// The outcome of a run of rounds, as it is presented.
#[derive(Clone, Debug)]
pub struct RoundReport {
    /// Rounds the run took.
    pub rounds: usize,
    /// Whether the run converged.
    pub converged: bool,
    /// The findings still open.
    pub open_findings: Vec<String>,
}

/// The lines listing open findings, one per finding, in order.
pub open spec fn finding_lines(fs: Seq<String>) -> Seq<char>
    decreases fs.len(),
{
    if fs.len() == 0 {
        Seq::empty()
    } else {
        finding_lines(fs.drop_last()) + "    - "@ + fs.last()@ + "\n"@
    }
}

/// The presentation of a run: its identity, workspace and task, whether it converged and in
/// how many rounds, and its open findings.
pub open spec fn presentation(config: RunConfig, report: RoundReport) -> Seq<char> {
    "run "@ + config.run_id@ + "\n"@ + "  workspace: "@ + config.workspace@ + "\n"@ + "  task:      "@
        + config.task@ + "\n"@ + (if report.converged {
        "  result:    converged in "@
    } else {
        "  result:    did not converge within "@
    }) + decimal(report.rounds as nat) + " round(s)\n"@ + if report.open_findings@.len() == 0 {
        "  findings:  none open\n"@
    } else {
        "  findings:  "@ + decimal(report.open_findings@.len()) + " open\n"@ + finding_lines(
            report.open_findings@,
        )
    }
}

/// Renders a run's outcome for the terminal.
pub fn present(config: &RunConfig, report: &RoundReport) -> (out: String)
    ensures
        out@ == presentation(*config, *report),
{
    let mut out = String::from_str("run ");
    out.append(config.run_id.as_str());
    out.append("\n");
    out.append("  workspace: ");
    out.append(config.workspace.as_str());
    out.append("\n");
    out.append("  task:      ");
    out.append(config.task.as_str());
    out.append("\n");
    if report.converged {
        out.append("  result:    converged in ");
    } else {
        out.append("  result:    did not converge within ");
    }
    out.append(decimal_text(report.rounds as u64).as_str());
    out.append(" round(s)\n");
    let ghost head = out@;
    if report.open_findings.len() == 0 {
        out.append("  findings:  none open\n");
    } else {
        out.append("  findings:  ");
        out.append(decimal_text(report.open_findings.len() as u64).as_str());
        out.append(" open\n");
        let ghost mid = out@;
        let mut i: usize = 0;
        while i < report.open_findings.len()
            invariant
                i <= report.open_findings@.len(),
                out@ == mid + finding_lines(report.open_findings@.subrange(0, i as int)),
            decreases report.open_findings@.len() - i,
        {
            proof {
                let next = report.open_findings@.subrange(0, i + 1);
                assert(next.drop_last() =~= report.open_findings@.subrange(0, i as int));
                assert(next.last() == report.open_findings@[i as int]);
            }
            out.append("    - ");
            out.append(report.open_findings[i].as_str());
            out.append("\n");
            proof {
                assert(out@ =~= mid + finding_lines(report.open_findings@.subrange(0, i + 1)));
            }
            i = i + 1;
        }
        proof {
            assert(report.open_findings@.subrange(0, report.open_findings@.len() as int) =~= report.open_findings@);
        }
    }
    proof {
        assert(out@ =~= presentation(*config, *report));
    }
    out
}

} // verus!
