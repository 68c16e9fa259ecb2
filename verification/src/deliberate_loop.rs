//! The decisions of the two Agent-CLI invocation loops: the deliberation turn loop (respondent
//! answers, arbitrator proposes a successor, suunta decides convergence) and the isolated
//! per-condition evaluator loop of a dossier ready for its decision.
//!
//! Every invocation is claimed before the agent runs and settled after: fulfilled only when
//! its own outcome says the result is final, released for retry otherwise. Reading and writing
//! the store, claiming and settling, and running agents are the application's; this module
//! decides, from what they report, what happens next. Neither loop authors content itself:
//! a successor comes only from the arbitrator's moves applied by `apply_arbitration`, and
//! readiness only from `is_ready`.

use vstd::prelude::*;

use crate::agent::{trim_text, trimmed};
use crate::deliberation::{apply_arbitration, ArbitrationOutput, ConditionEvaluationOutput, ConditionVerdict};
use crate::dossier::{Condition, LifecycleState, SubmittedDossier};
use crate::event::{idempotency_key_of, Event, EventPayload, EventVisibility, InvocationCoordinate};
use crate::ids::{id_text, parse_id, uuid_parsed, uuid_text};
use crate::revision::{batch_error, is_successor, Digest, Revision};

verus! {

/// What a claimed unit of work decided about its own outcome, apart from whether it ran
/// without error: a final result settles the claim; a valid but not final one (a negative
/// verdict whose circumstance may change) leaves it claimable.
#[derive(Clone, Debug)]
pub enum Settlement<T> {
    /// The result is final: the claim never needs to be retried under this coordinate.
    Fulfilled(T),
    /// The result is usable now but not final: the coordinate stays claimable.
    Retryable(T),
}

impl<T> Settlement<T> {
    /// The result, whichever way it settles.
    pub open spec fn inner(self) -> T {
        match self {
            Settlement::Fulfilled(t) => t,
            Settlement::Retryable(t) => t,
        }
    }

    /// The result, whichever way it settles.
    pub fn into_inner(self) -> (t: T)
        ensures
            t == self.inner(),
    {
        match self {
            Settlement::Fulfilled(t) => t,
            Settlement::Retryable(t) => t,
        }
    }
}

/// Whether an invocation's outcome settles its claim fulfilled: only a final result does; a
/// retryable result or an error releases the claim for retry.
pub open spec fn settles_fulfilled<T, E>(outcome: Result<Settlement<T>, E>) -> bool {
    outcome matches Ok(Settlement::Fulfilled(_))
}

/// Whether to settle the claim fulfilled (`true`) or release it for retry (`false`).
pub fn settle_fulfilled<T, E>(outcome: &Result<Settlement<T>, E>) -> (b: bool)
    ensures
        b == settles_fulfilled(*outcome),
{
    match outcome {
        Ok(Settlement::Fulfilled(_)) => true,
        _ => false,
    }
}

/// The name of a lifecycle state, as it is printed.
pub open spec fn state_name(s: LifecycleState) -> Seq<char> {
    match s {
        LifecycleState::Draft => "Draft"@,
        LifecycleState::Submitted => "Submitted"@,
        LifecycleState::Deliberating => "Deliberating"@,
        LifecycleState::ReadyForDecision => "ReadyForDecision"@,
        LifecycleState::Approved => "Approved"@,
        LifecycleState::ApprovedWithConditions => "ApprovedWithConditions"@,
        LifecycleState::Rejected => "Rejected"@,
        LifecycleState::Cancelled => "Cancelled"@,
        LifecycleState::Invalidated => "Invalidated"@,
    }
}

/// The name of a lifecycle state.
pub fn state_label(s: LifecycleState) -> (l: &'static str)
    ensures
        l@ == state_name(s),
{
    match s {
        LifecycleState::Draft => "Draft",
        LifecycleState::Submitted => "Submitted",
        LifecycleState::Deliberating => "Deliberating",
        LifecycleState::ReadyForDecision => "ReadyForDecision",
        LifecycleState::Approved => "Approved",
        LifecycleState::ApprovedWithConditions => "ApprovedWithConditions",
        LifecycleState::Rejected => "Rejected",
        LifecycleState::Cancelled => "Cancelled",
        LifecycleState::Invalidated => "Invalidated",
    }
}

/// `"Dossier <id> <what> (state: <state>)"`.
fn state_error(dossier_id: &str, what: &str, state: LifecycleState) -> (e: String)
    ensures
        e@ == "Dossier "@ + dossier_id@ + " "@ + what@ + " (state: "@ + state_name(state) + ")"@,
{
    let mut e = String::from_str("Dossier ");
    e.append(dossier_id);
    e.append(" ");
    e.append(what);
    e.append(" (state: ");
    e.append(state_label(state));
    e.append(")");
    e
}

/// Whether deliberation may run from `state`.
pub open spec fn can_deliberate(state: LifecycleState) -> bool {
    state == LifecycleState::Deliberating || state == LifecycleState::Submitted
}

/// The entry check of a deliberation: a deliberating or submitted dossier may deliberate (a
/// submitted one first enters deliberation: `Ok(true)`); any other is refused.
pub fn deliberation_entry(dossier_id: &str, state: LifecycleState) -> (r: Result<bool, String>)
    ensures
        r is Ok <==> can_deliberate(state),
        r matches Ok(enter) ==> enter == (state == LifecycleState::Submitted),
        r matches Err(e) ==> e@ == "Dossier "@ + dossier_id@ + " "@ + "is not deliberating"@
            + " (state: "@ + state_name(state) + ")"@,
{
    match state {
        LifecycleState::Deliberating => Ok(false),
        LifecycleState::Submitted => Ok(true),
        _ => Err(state_error(dossier_id, "is not deliberating", state)),
    }
}

/// The entry check of condition evaluation: only a dossier ready for its decision.
pub fn evaluation_entry(dossier_id: &str, state: LifecycleState) -> (r: Result<(), String>)
    ensures
        r is Ok <==> state == LifecycleState::ReadyForDecision,
        r matches Err(e) ==> e@ == "Dossier "@ + dossier_id@ + " "@ + "is not ReadyForDecision"@
            + " (state: "@ + state_name(state) + ")"@,
{
    if state == LifecycleState::ReadyForDecision {
        Ok(())
    } else {
        Err(state_error(dossier_id, "is not ReadyForDecision", state))
    }
}

/// What happens after a turn.
#[derive(Clone, Copy, Debug, PartialEq, Eq, Structural)]
pub enum TurnStep {
    /// The successor converged: the dossier becomes ready for its decision.
    MarkReady,
    /// Run this turn next.
    NextTurn(u32),
    /// The turn budget is spent without convergence.
    Exhausted,
}

/// The first turn of a deliberation allowed `max_turns` turns, if it may run any.
pub fn first_turn(max_turns: u32) -> (t: Option<u32>)
    ensures
        t == if max_turns >= 1 { Some(1u32) } else { None::<u32> },
{
    if max_turns >= 1 {
        Some(1)
    } else {
        None
    }
}

/// After turn `turn` of at most `max_turns`: a converged successor makes the dossier ready;
/// otherwise the next turn runs while the budget lasts.
pub fn after_turn(turn: u32, max_turns: u32, ready: bool) -> (s: TurnStep)
    ensures
        s == if ready {
            TurnStep::MarkReady
        } else if turn < max_turns {
            TurnStep::NextTurn((turn + 1) as u32)
        } else {
            TurnStep::Exhausted
        },
{
    if ready {
        TurnStep::MarkReady
    } else if turn < max_turns {
        TurnStep::NextTurn(turn + 1)
    } else {
        TurnStep::Exhausted
    }
}

/// The identity of a dossier as coordinates carry it: its id parsed as a UUID, or the nil UUID
/// when it does not parse.
pub fn dossier_uuid(dossier_id: &str) -> (id: u128)
    ensures
        id == match uuid_parsed(dossier_id@) {
            Some(v) => v,
            None => 0,
        },
{
    match parse_id(dossier_id) {
        Some(v) => v,
        None => 0,
    }
}

/// The coordinate of the first attempt of `role` at `turn`, over the revision digest `input`.
pub fn coordinate(dossier_id: u128, role: &str, input: &Digest, turn: u32) -> (c: InvocationCoordinate)
    ensures
        c.dossier_id == dossier_id,
        c.role@ == role@,
        c.input_digest.0@ == input.0@,
        c.turn == turn,
        c.attempt == 1,
{
    InvocationCoordinate {
        dossier_id,
        role: String::from_str(role),
        input_digest: Digest(input.0.clone()),
        turn,
        attempt: 1,
    }
}

/// The coordinate of the evaluation of `condition`, the `index`-th of its dossier.
pub fn evaluator_coordinate(dossier_id: u128, condition: &Condition, input: &Digest, index: u32) -> (c: InvocationCoordinate)
    ensures
        c.dossier_id == dossier_id,
        c.role@ == "condition_evaluator:"@ + uuid_text(condition.id),
        c.input_digest.0@ == input.0@,
        c.turn == index,
        c.attempt == 1,
{
    let mut role = String::from_str("condition_evaluator:");
    role.append(id_text(condition.id).as_str());
    InvocationCoordinate { dossier_id, role, input_digest: Digest(input.0.clone()), turn: index, attempt: 1 }
}

/// The question a respondent is asked each turn.
pub fn respondent_question() -> (q: String)
    ensures
        q@ == "Please review the unresolved dissents and risks and provide a claim on how to proceed."@,
{
    String::from_str("Please review the unresolved dissents and risks and provide a claim on how to proceed.")
}

/// What an already recorded event for the respondent's coordinate means: a public record is the
/// respondent's claim, reused instead of invoking it again; any other payload is an error; no
/// event means the respondent must be invoked (`Ok(None)`).
pub fn recorded_claim(coordinate: &InvocationCoordinate, found: Option<Event>) -> (r: Result<Option<String>, String>)
    ensures
        match found {
            None => r == Ok::<Option<String>, String>(None),
            Some(e) => match e.payload {
                EventPayload::PublicRecord(claim) => r matches Ok(Some(c)) && c@ == claim@,
                _ => r matches Err(m) && m@ == "respondent coordinate "@ + idempotency_key_of(*coordinate)
                    + " has a persisted event with an unexpected payload type"@,
            },
        },
{
    match found {
        None => Ok(None),
        Some(e) => match e.payload {
            EventPayload::PublicRecord(claim) => Ok(Some(claim)),
            _ => {
                let mut m = String::from_str("respondent coordinate ");
                m.append(coordinate.idempotency_key().as_str());
                m.append(" has a persisted event with an unexpected payload type");
                Err(m)
            },
        },
    }
}

/// A respondent's answer: a clean exit yields its trimmed stdout as a final claim; anything
/// else fails the invocation with its stderr.
pub fn respondent_outcome(exit_code: Option<i32>, stdout: &str, stderr: &str) -> (r: Result<Settlement<String>, String>)
    ensures
        r is Ok <==> exit_code == Some(0i32),
        r matches Ok(s) ==> s matches Settlement::Fulfilled(claim) && claim@ == trimmed(stdout@),
        r matches Err(e) ==> e@ == "Respondent failed: "@ + stderr@,
{
    if exit_code == Some(0i32) {
        Ok(Settlement::Fulfilled(trim_text(stdout)))
    } else {
        let mut e = String::from_str("Respondent failed: ");
        e.append(stderr);
        Err(e)
    }
}

/// An arbitrator's answer over `base`: a non-zero exit fails with its stderr; otherwise its
/// structured output (`output`, already read as an [`ArbitrationOutput`] or the reason it could
/// not be) is applied to `base`, and a batch the revision refuses fails too. Only a valid
/// successor settles the claim, and it is final.
pub fn arbitration_outcome(
    base: &Revision,
    exit_code: Option<i32>,
    stderr: &str,
    output: Result<ArbitrationOutput, String>,
) -> (r: Result<Settlement<Revision>, String>)
    ensures
        exit_code != Some(0i32) ==> (r matches Err(e) && e@ == "Arbitrator failed: "@ + stderr@),
        exit_code == Some(0i32) ==> match output {
            Err(reason) => r matches Err(e) && e@ == reason@,
            Ok(o) => match batch_error(*base, o.moves@) {
                Some(msg) => r matches Err(e) && e@ == msg,
                None => r matches Ok(Settlement::Fulfilled(next)) && is_successor(
                    *base,
                    o.current_understanding@,
                    o.moves@,
                    next,
                ),
            },
        },
{
    if exit_code != Some(0i32) {
        let mut e = String::from_str("Arbitrator failed: ");
        e.append(stderr);
        return Err(e);
    }
    match output {
        Err(reason) => Err(reason),
        Ok(o) => match apply_arbitration(base, o) {
            Ok(next) => Ok(Settlement::Fulfilled(next)),
            Err(msg) => Err(String::from_str(msg)),
        },
    }
}

/// A condition evaluator's answer: a non-zero exit fails with its stderr; an output that could
/// not be read fails with the reason; a `True` verdict is final, while `False` and `Unknown`
/// are valid but leave the coordinate claimable.
pub fn evaluation_outcome(
    condition_id: u128,
    exit_code: Option<i32>,
    stderr: &str,
    output: Result<ConditionEvaluationOutput, String>,
) -> (r: Result<Settlement<ConditionEvaluationOutput>, String>)
    ensures
        exit_code != Some(0i32) ==> (r matches Err(e) && e@ == "Condition evaluator failed for condition "@
            + uuid_text(condition_id) + ": "@ + stderr@),
        exit_code == Some(0i32) ==> match output {
            Err(reason) => r matches Err(e) && e@ == reason@,
            Ok(o) => if o.verdict == ConditionVerdict::True {
                r matches Ok(Settlement::Fulfilled(x)) && x == o
            } else {
                r matches Ok(Settlement::Retryable(x)) && x == o
            },
        },
{
    if exit_code != Some(0i32) {
        let mut e = String::from_str("Condition evaluator failed for condition ");
        e.append(id_text(condition_id).as_str());
        e.append(": ");
        e.append(stderr);
        return Err(e);
    }
    match output {
        Err(reason) => Err(reason),
        Ok(o) => if o.verdict == ConditionVerdict::True {
            Ok(Settlement::Fulfilled(o))
        } else {
            Ok(Settlement::Retryable(o))
        },
    }
}

/// The event recording a respondent's claim at `turn`, public and bound to its coordinate.
pub fn respondent_event(claim: &String, turn: u32, coordinate: InvocationCoordinate) -> (e: Event)
    ensures
        e.visibility == EventVisibility::Public,
        e.payload matches EventPayload::PublicRecord(c) && c@ == claim@,
        e.timestamp == turn as u64 * 1000,
        e.coordinate == Some(coordinate),
{
    let mut e = Event::new_public(EventPayload::PublicRecord(claim.clone()), turn as u64 * 1000);
    e.coordinate = Some(coordinate);
    e
}

/// The sealed event recording a condition's evaluation: its reasoning never reaches a
/// respondent. Only a `True` verdict, whose settlement is terminal, carries its coordinate; a
/// negative one leaves it unset so a later retry under the same coordinate records its own.
pub fn evaluation_event(
    condition: &Condition,
    output: &ConditionEvaluationOutput,
    index: u64,
    coordinate: InvocationCoordinate,
) -> (e: Event)
    ensures
        e.visibility == EventVisibility::Sealed,
        e.payload matches EventPayload::SealedEvaluation { evaluator, reasoning } && evaluator@
            == "condition:"@ + uuid_text(condition.id) && reasoning@ == output.reason@,
        e.timestamp == index,
        e.coordinate == if output.verdict == ConditionVerdict::True {
            Some(coordinate)
        } else {
            None::<InvocationCoordinate>
        },
{
    let mut evaluator = String::from_str("condition:");
    evaluator.append(id_text(condition.id).as_str());
    let mut e = Event::new_sealed(
        EventPayload::SealedEvaluation { evaluator, reasoning: output.reason.clone() },
        index,
    );
    if output.verdict == ConditionVerdict::True {
        e.coordinate = Some(coordinate);
    }
    e
}

/// Records a verdict on condition `index`: `True` marks it met; `False` and `Unknown` leave
/// the dossier as it was (unknown is never success).
pub fn apply_verdict(dossier: &mut SubmittedDossier, index: usize, verdict: ConditionVerdict)
    requires
        index < old(dossier).conditions@.len(),
    ensures
        final(dossier).id == old(dossier).id,
        final(dossier).state == old(dossier).state,
        final(dossier).locked_settings == old(dossier).locked_settings,
        final(dossier).conditions@.len() == old(dossier).conditions@.len(),
        forall|j: int|
            0 <= j < old(dossier).conditions@.len() && j != index ==> #[trigger] final(dossier).conditions@[j]
                == old(dossier).conditions@[j],
        final(dossier).conditions@[index as int].id == old(dossier).conditions@[index as int].id,
        final(dossier).conditions@[index as int].description == old(dossier).conditions@[index as int].description,
        final(dossier).conditions@[index as int].is_met == (old(dossier).conditions@[index as int].is_met
            || verdict == ConditionVerdict::True),
{
    if verdict == ConditionVerdict::True {
        dossier.conditions[index].is_met = true;
    }
}

/// The conditions still to evaluate: the indices of the unmet ones, in order.
pub fn unmet_conditions(conditions: &Vec<Condition>) -> (idx: Vec<usize>)
    ensures
        forall|k: int| 0 <= k < idx@.len() ==> #[trigger] idx@[k] < conditions@.len() && !conditions@[idx@[k] as int].is_met,
        forall|k1: int, k2: int| 0 <= k1 < k2 < idx@.len() ==> #[trigger] idx@[k1] < #[trigger] idx@[k2],
        forall|j: int| 0 <= j < conditions@.len() && !(#[trigger] conditions@[j]).is_met ==> idx@.contains(j as usize),
{
    let mut idx: Vec<usize> = Vec::new();
    let mut i: usize = 0;
    while i < conditions.len()
        invariant
            i <= conditions@.len(),
            forall|k: int| 0 <= k < idx@.len() ==> #[trigger] idx@[k] < i && !conditions@[idx@[k] as int].is_met,
            forall|k1: int, k2: int| 0 <= k1 < k2 < idx@.len() ==> #[trigger] idx@[k1] < #[trigger] idx@[k2],
            forall|j: int| 0 <= j < i && !(#[trigger] conditions@[j]).is_met ==> idx@.contains(j as usize),
        decreases conditions@.len() - i,
    {
        if !conditions[i].is_met {
            let ghost before = idx@;
            idx.push(i);
            proof {
                assert forall|j: int| 0 <= j < i + 1 && !(#[trigger] conditions@[j]).is_met implies idx@.contains(j as usize) by {
                    if j < i {
                        let k = choose|k: int| 0 <= k < before.len() && before[k] == j as usize;
                        assert(idx@[k] == j as usize);
                    } else {
                        assert(idx@[before.len() as int] == j as usize);
                    }
                }
            }
        }
        i = i + 1;
    }
    idx
}

} // verus!
