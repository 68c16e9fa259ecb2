use ringi::deliberate_loop::{
    after_turn, arbitration_outcome, deliberation_entry, dossier_uuid, evaluation_entry,
    evaluation_event, evaluation_outcome, first_turn, recorded_claim, respondent_outcome,
    settle_fulfilled, Settlement, TurnStep,
};
use ringi::deliberation::{ArbitrationOutput, ConditionEvaluationOutput, ConditionVerdict};
use ringi::dossier::{Condition, LifecycleState};
use ringi::event::{Event, EventPayload, EventVisibility, InvocationCoordinate};
use ringi::revision::{Digest, Dissent, EventRef, Move, Resolution, Revision};
use uuid::Uuid;

fn base() -> (Revision, u128) {
    let dissent_id = Uuid::new_v4().as_u128();
    let rev = Revision {
        revision_id: Uuid::new_v4().as_u128(),
        parent_digest: None,
        content_digest: Digest("dig".into()),
        original_proposal: "Plan".into(),
        current_understanding: "Plan".into(),
        positions: vec![],
        dissents: vec![Dissent { id: dissent_id, claim: "No".into(), resolved_by: None }],
        risks: vec![],
        questions: vec![],
    };
    (rev, dissent_id)
}

fn evaluation(verdict: ConditionVerdict) -> ConditionEvaluationOutput {
    ConditionEvaluationOutput { verdict, reason: "because".into(), provenance: vec![] }
}

#[test]
fn only_a_final_result_settles_the_claim() {
    assert!(settle_fulfilled::<u8, String>(&Ok(Settlement::Fulfilled(1))));
    assert!(!settle_fulfilled::<u8, String>(&Ok(Settlement::Retryable(1))));
    assert!(!settle_fulfilled::<u8, String>(&Err("boom".to_string())));
    assert_eq!(Settlement::Retryable(7u8).into_inner(), 7);
    assert_eq!(Settlement::Fulfilled(9u8).into_inner(), 9);
}

#[test]
fn only_a_deliberating_or_submitted_dossier_deliberates() {
    assert_eq!(deliberation_entry("d1", LifecycleState::Submitted), Ok(true));
    assert_eq!(deliberation_entry("d1", LifecycleState::Deliberating), Ok(false));
    assert_eq!(
        deliberation_entry("d1", LifecycleState::Approved),
        Err("Dossier d1 is not deliberating (state: Approved)".to_string())
    );
}

#[test]
fn only_a_dossier_ready_for_decision_is_evaluated() {
    assert_eq!(evaluation_entry("d2", LifecycleState::ReadyForDecision), Ok(()));
    assert_eq!(
        evaluation_entry("d2", LifecycleState::Deliberating),
        Err("Dossier d2 is not ReadyForDecision (state: Deliberating)".to_string())
    );
}

#[test]
fn the_turn_loop_stops_at_readiness_or_its_budget() {
    assert_eq!(first_turn(0), None);
    assert_eq!(first_turn(3), Some(1));
    assert_eq!(after_turn(1, 3, false), TurnStep::NextTurn(2));
    assert_eq!(after_turn(3, 3, false), TurnStep::Exhausted);
    assert_eq!(after_turn(2, 3, true), TurnStep::MarkReady);
}

#[test]
fn a_respondent_claim_is_its_trimmed_stdout() {
    match respondent_outcome(Some(0), "  use hydrogen \n", "") {
        Ok(Settlement::Fulfilled(claim)) => assert_eq!(claim, "use hydrogen"),
        other => panic!("unexpected {other:?}"),
    }
    assert_eq!(
        respondent_outcome(Some(2), "", "bad").unwrap_err(),
        "Respondent failed: bad"
    );
}

#[test]
fn an_arbitrator_without_usable_output_does_not_settle() {
    let (rev, _) = base();
    let r = arbitration_outcome(&rev, Some(0), "", Err("Arbitrator produced no structured output".into()));
    assert!(!settle_fulfilled(&r));
    assert_eq!(r.unwrap_err(), "Arbitrator produced no structured output");
    let failed = arbitration_outcome(&rev, Some(1), "crash", Err("unused".into()));
    assert_eq!(failed.unwrap_err(), "Arbitrator failed: crash");
}

#[test]
fn an_arbitration_the_revision_refuses_does_not_settle() {
    let (rev, dissent_id) = base();
    let output = ArbitrationOutput {
        current_understanding: "Plan".into(),
        moves: vec![Move::ResolveDissent {
            id: dissent_id,
            resolution: Resolution { reason: "Tested".into(), provenance: vec![] },
        }],
    };
    let r = arbitration_outcome(&rev, Some(0), "", Ok(output));
    assert!(!settle_fulfilled(&r));
    assert_eq!(r.unwrap_err(), "Dissent resolution requires event provenance");
}

#[test]
fn a_valid_arbitration_settles_with_its_successor() {
    let (rev, dissent_id) = base();
    let output = ArbitrationOutput {
        current_understanding: "Updated".into(),
        moves: vec![Move::ResolveDissent {
            id: dissent_id,
            resolution: Resolution {
                reason: "Tested".into(),
                provenance: vec![EventRef { event_id: Uuid::new_v4().as_u128() }],
            },
        }],
    };
    let r = arbitration_outcome(&rev, Some(0), "", Ok(output));
    assert!(settle_fulfilled(&r));
    let next = r.unwrap().into_inner();
    assert_eq!(next.current_understanding, "Updated");
    assert_eq!(next.parent_digest, Some(rev.content_digest.clone()));
}

#[test]
fn a_true_verdict_settles_its_evaluation() {
    let id = Uuid::new_v4().as_u128();
    let r = evaluation_outcome(id, Some(0), "", Ok(evaluation(ConditionVerdict::True)));
    assert!(settle_fulfilled(&r));
}

#[test]
fn a_false_verdict_stays_retryable() {
    let id = Uuid::new_v4().as_u128();
    let r = evaluation_outcome(id, Some(0), "", Ok(evaluation(ConditionVerdict::False)));
    assert!(matches!(r, Ok(Settlement::Retryable(_))));
}

#[test]
fn an_unknown_verdict_stays_retryable() {
    let id = Uuid::new_v4().as_u128();
    let r = evaluation_outcome(id, Some(0), "", Ok(evaluation(ConditionVerdict::Unknown)));
    assert!(matches!(r, Ok(Settlement::Retryable(_))));
    let failed = evaluation_outcome(id, Some(4), "oops", Ok(evaluation(ConditionVerdict::True)));
    assert_eq!(
        failed.unwrap_err(),
        format!("Condition evaluator failed for condition {}: oops", Uuid::from_u128(id))
    );
}

#[test]
fn sealed_evaluation_events_carry_a_coordinate_only_for_a_true_verdict() {
    let condition = Condition { id: Uuid::new_v4().as_u128(), description: "Budget".into(), is_met: false };
    let coordinate = InvocationCoordinate {
        dossier_id: 1,
        role: "condition_evaluator".into(),
        input_digest: Digest("d".into()),
        turn: 0,
        attempt: 1,
    };
    let t = evaluation_event(&condition, &evaluation(ConditionVerdict::True), 0, coordinate.clone());
    assert_eq!(t.visibility, EventVisibility::Sealed);
    assert_eq!(t.coordinate, Some(coordinate.clone()));
    match &t.payload {
        EventPayload::SealedEvaluation { evaluator, reasoning } => {
            assert_eq!(evaluator, &format!("condition:{}", Uuid::from_u128(condition.id)));
            assert_eq!(reasoning, "because");
        }
        other => panic!("unexpected {other:?}"),
    }
    let f = evaluation_event(&condition, &evaluation(ConditionVerdict::False), 0, coordinate);
    assert_eq!(f.coordinate, None);
}

#[test]
fn an_already_recorded_claim_is_reused() {
    let coordinate = InvocationCoordinate {
        dossier_id: 5,
        role: "respondent".into(),
        input_digest: Digest("d".into()),
        turn: 1,
        attempt: 1,
    };
    assert_eq!(recorded_claim(&coordinate, None), Ok(None));
    let claim = Event::new_public(EventPayload::PublicRecord("prior".into()), 1);
    assert_eq!(recorded_claim(&coordinate, Some(claim)), Ok(Some("prior".to_string())));
    let odd = Event::new_public(EventPayload::Synthesis("x".into()), 1);
    assert_eq!(
        recorded_claim(&coordinate, Some(odd)),
        Err(format!(
            "respondent coordinate {} has a persisted event with an unexpected payload type",
            coordinate.idempotency_key()
        ))
    );
}

#[test]
fn a_dossier_id_that_is_not_a_uuid_maps_to_the_nil_uuid() {
    let id = Uuid::new_v4();
    assert_eq!(dossier_uuid(&id.to_string()), id.as_u128());
    assert_eq!(dossier_uuid("not-a-uuid"), 0);
}

use ringi::deliberate_loop::{apply_verdict, unmet_conditions};
use ringi::dossier::{ArbitrationSettings, Limits, LockedSettings, RoleBindings, StrategyPreset, SubmittedDossier};

fn ready_with(conditions: Vec<Condition>) -> SubmittedDossier {
    SubmittedDossier {
        id: 9,
        state: LifecycleState::ReadyForDecision,
        locked_settings: LockedSettings {
            arbitration: ArbitrationSettings::resolve(StrategyPreset::Economy),
            limits: Limits { max_turns: 2 },
            roles: RoleBindings { respondent: "r".into(), arbitrator: "a".into() },
        },
        conditions,
    }
}

#[test]
fn only_a_true_verdict_marks_a_condition_met() {
    let c = |d: &str, met: bool| Condition { id: Uuid::new_v4().as_u128(), description: d.into(), is_met: met };
    let mut d = ready_with(vec![c("a", false), c("b", true), c("c", false)]);
    assert_eq!(unmet_conditions(&d.conditions), vec![0, 2]);
    apply_verdict(&mut d, 0, ConditionVerdict::Unknown);
    apply_verdict(&mut d, 2, ConditionVerdict::False);
    assert_eq!(unmet_conditions(&d.conditions), vec![0, 2]);
    apply_verdict(&mut d, 2, ConditionVerdict::True);
    assert!(d.conditions[2].is_met);
    assert_eq!(unmet_conditions(&d.conditions), vec![0]);
}
