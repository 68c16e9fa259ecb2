use ringi::reconcile::{run, StepMode, StepSpec};

#[test]
fn the_family_composes_into_a_convergent_exactly_once_durable_reconcile() {
    let report = run(vec![
        StepSpec::new("step:normal", StepMode::Normal),
        StepSpec::new("step:fails-first", StepMode::FailsFirst),
        StepSpec::new("step:lapses", StepMode::LapsesAfterSuccess),
    ]);

    // suunta drove it to convergence, not the cycle bound.
    assert!(report.converged, "the run must converge (suunta): {report:?}");

    // Every step's side effect happened exactly once — across a retry and a reclaim.
    for id in ["step:normal", "step:fails-first", "step:lapses"] {
        assert_eq!(
            report.executions_of(id),
            Some(1),
            "{id} must execute exactly once: {report:?}"
        );
    }

    // The release drove the retry; the witness suppressed the post-lapse re-execution.
    assert!(
        report.was_retried("step:fails-first"),
        "the failing step must retry via deferred reclaim: {report:?}"
    );
    assert!(
        report.was_deduplicated("step:lapses"),
        "the reclaimed-after-success step must be deduplicated by shaahid: {report:?}"
    );
}

use std::cell::Cell;
use std::time::Duration;

use pacta_memory::MemoryRegistry;
use ringi::agent::{AgentAdapter, AgentError, AgentRequest, AgentResponse, AgentRole};
use ringi::reconcile::{
    deed_for_step, outcome_of, run_with_runner, step_to_pact, AgentStepRunner, ScriptedRunner,
    StepOutcome, StepRunner, MAX_CYCLES,
};
use uuid::Uuid;

/// An agent that exits with the given codes in turn (the last one repeats), counting calls.
struct FakeAgent {
    codes: Vec<i32>,
    calls: Cell<usize>,
}

impl AgentAdapter for FakeAgent {
    fn run(&self, request: AgentRequest) -> Result<AgentResponse, AgentError> {
        assert!(request.prompt.starts_with("Perform step: "));
        let n = self.calls.get();
        self.calls.set(n + 1);
        let code = self.codes[n.min(self.codes.len() - 1)];
        Ok(AgentResponse { exit_code: Some(code), stdout: String::new(), stderr: String::new(), structured: None })
    }
}

fn runner(codes: Vec<i32>) -> AgentStepRunner<FakeAgent> {
    AgentStepRunner::new(FakeAgent { codes, calls: Cell::new(0) }, "/tmp/ws", Duration::from_secs(5))
}

#[test]
fn a_builder_agent_step_converges() {
    let mut r = runner(vec![0]);
    let report = run_with_runner::<MemoryRegistry, _>(vec![StepSpec::new("step:build", StepMode::Normal)], &mut r);
    assert!(report.converged, "the agent-driven run must converge: {report:?}");
    assert_eq!(report.executions_of("step:build"), Some(1), "the Builder step must execute exactly once: {report:?}");
}

#[test]
fn a_failing_builder_agent_retries_then_converges() {
    let mut r = runner(vec![1, 0]);
    let report = run_with_runner::<MemoryRegistry, _>(vec![StepSpec::new("step:flaky", StepMode::Normal)], &mut r);
    assert!(report.converged, "must converge after retrying: {report:?}");
    assert!(report.was_retried("step:flaky"), "a real non-zero exit must drive the retry: {report:?}");
    assert_eq!(report.executions_of("step:flaky"), Some(1), "only the successful attempt executes: {report:?}");
}

#[test]
fn an_agent_that_never_succeeds_stops_at_the_cycle_bound() {
    let mut r = runner(vec![1]);
    let report = run_with_runner::<MemoryRegistry, _>(vec![StepSpec::new("step:stuck", StepMode::Normal)], &mut r);
    assert!(!report.converged);
    assert_eq!(report.cycles, MAX_CYCLES);
    assert_eq!(report.executions_of("step:stuck"), None);
    assert!(report.was_retried("step:stuck"));
}

#[test]
fn only_a_clean_exit_is_success() {
    let ok = Ok(AgentResponse { exit_code: Some(0), stdout: String::new(), stderr: String::new(), structured: None });
    let bad = Ok(AgentResponse { exit_code: Some(2), stdout: String::new(), stderr: String::new(), structured: None });
    assert_eq!(outcome_of(&ok), StepOutcome::Succeeded);
    assert_eq!(outcome_of(&bad), StepOutcome::Failed);
    assert_eq!(outcome_of(&Err(AgentError::TimedOut)), StepOutcome::Failed);
}

#[test]
fn the_scripted_runner_fails_each_fails_first_step_once() {
    let steps = vec![
        StepSpec::new("a", StepMode::FailsFirst),
        StepSpec::new("b", StepMode::Normal),
    ];
    let mut r = ScriptedRunner::from_modes(&steps);
    assert_eq!(r.run(&steps[0]), StepOutcome::Failed);
    assert_eq!(r.run(&steps[0]), StepOutcome::Succeeded);
    assert_eq!(r.run(&steps[1]), StepOutcome::Succeeded);
}

#[test]
fn a_step_becomes_a_pact_on_its_own_docket_and_a_deed_of_its_id() {
    let step = StepSpec::new("step:x", StepMode::Normal);
    let pact = step_to_pact(&step);
    assert_eq!(pact.id, Uuid::new_v5(&Uuid::NAMESPACE_OID, b"step:x").as_u128());
    assert_eq!(pact.docket, "step:x");
    assert_eq!(pact.kind, "step");
    assert_eq!(pact.clause, b"step:x".to_vec());
    let deed = deed_for_step(&step);
    assert_eq!(deed.seal, "step:x");
    assert_eq!(deed.fingerprint, b"step:x".to_vec());
}

#[test]
fn an_empty_desired_set_converges_at_once() {
    let report = run(vec![]);
    assert!(report.converged);
    assert_eq!(report.cycles, 1);
    assert!(report.executions.is_empty());
}

#[test]
fn a_duplicated_step_still_executes_exactly_once() {
    let report = run(vec![
        StepSpec::new("dup", StepMode::Normal),
        StepSpec::new("dup", StepMode::Normal),
    ]);
    assert!(report.converged);
    assert_eq!(report.executions.len(), 1);
    assert_eq!(report.executions_of("dup"), Some(1));
    assert!(report.was_deduplicated("dup"));
}

#[test]
fn an_agent_runner_asks_a_builder_to_perform_the_step() {
    let adapter = FakeAgent { codes: vec![0], calls: Cell::new(0) };
    let r = AgentStepRunner::new(adapter, "/ws", Duration::from_secs(1));
    let req = r.request_for(&StepSpec::new("s1", StepMode::Normal));
    assert_eq!(req.prompt, "Perform step: s1");
    assert_eq!(req.workspace, "/ws");
    assert!(req.env.is_empty());
    assert_eq!(req.role, AgentRole::Builder);
}

#[test]
fn a_scripted_run_with_fresh_holders_converges_within_three_cycles() {
    let report = run(vec![
        StepSpec::new("a", StepMode::Normal),
        StepSpec::new("b", StepMode::FailsFirst),
        StepSpec::new("c", StepMode::LapsesAfterSuccess),
        StepSpec::new("d", StepMode::Normal),
    ]);
    let mut seen = std::collections::HashSet::new();
    for h in report.issued.holders() {
        assert!(seen.insert(*h), "holders are fresh uuids: {report:?}");
    }
    assert!(report.converged);
    assert_eq!(report.cycles, 3, "{report:?}");
    assert!(report.was_retried("b"));
    assert!(!report.was_retried("a") && !report.was_retried("c") && !report.was_retried("d"));
    assert!(report.was_deduplicated("c"));
    assert!(!report.was_deduplicated("a") && !report.was_deduplicated("b"));
}

#[test]
fn a_run_of_normal_steps_converges_in_two_cycles() {
    let report = run(vec![StepSpec::new("x", StepMode::Normal), StepSpec::new("y", StepMode::Normal)]);
    assert!(report.converged);
    assert_eq!(report.cycles, 2);
    assert_eq!(report.issued.holders().len(), 2);
}

#[test]
fn a_step_failing_five_times_converges_in_seven_cycles() {
    // Five failed cycles, one that executes, and one that finds nothing left.
    let mut r = runner(vec![1, 1, 1, 1, 1, 0]);
    let report = run_with_runner::<MemoryRegistry, _>(vec![StepSpec::new("step:slow", StepMode::Normal)], &mut r);
    assert!(report.converged, "{report:?}");
    assert_eq!(report.cycles, 7, "{report:?}");
    assert!(report.was_retried("step:slow"));
    assert_eq!(report.executions_of("step:slow"), Some(1));
    assert_eq!(report.issued.holders().len(), 6);
}
