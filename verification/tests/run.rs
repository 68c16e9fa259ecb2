use std::time::Duration;

use ringi::run::{present, RoundReport, RunConfig};

fn report(converged: bool, rounds: usize, open: &[&str]) -> RoundReport {
    RoundReport {
        rounds,
        converged,
        open_findings: open.iter().map(|s| (*s).to_string()).collect(),
    }
}

fn config() -> RunConfig {
    RunConfig {
        run_id: "run-123".to_string(),
        workspace: "/tmp/ws".to_string(),
        agent_program: "agent".to_string(),
        agent_args: Vec::new(),
        task: "do it".to_string(),
        verification: Vec::new(),
        timeout: Duration::from_secs(5),
    }
}

#[test]
fn a_converged_run_presents_success_and_no_open_findings() {
    let text = present(&config(), &report(true, 2, &[]));
    assert!(text.contains("converged in 2 round(s)"));
    assert!(text.contains("none open"));
    assert!(text.contains("run-123"));
}

#[test]
fn a_non_converged_run_lists_open_findings() {
    let text = present(&config(), &report(false, 8, &["F1", "F2"]));
    assert!(text.contains("did not converge within 8 round(s)"));
    assert!(text.contains("2 open"));
    assert!(text.contains("- F1"));
    assert!(text.contains("- F2"));
}

#[test]
fn the_presentation_is_exact() {
    let text = present(&config(), &report(false, 12, &["F1"]));
    assert_eq!(
        text,
        "run run-123\n  workspace: /tmp/ws\n  task:      do it\n  result:    did not converge within 12 round(s)\n  findings:  1 open\n    - F1\n"
    );
}
