use ringi::deliberation::{
    apply_arbitration, build_arbitrator_prompt, build_condition_evaluator_prompt,
    build_respondent_prompt, ArbitrationOutput, ArbitrationSession, ConditionEvaluationOutput,
    ConditionVerdict,
};
use ringi::dossier::{ArbitrationSettings, Condition, SessionScope, StrategyPreset};
use ringi::event::{Event, EventPayload, EventVisibility};
use ringi::revision::{Digest, Dissent, EventRef, Move, Question, Resolution, Revision, Risk};
use uuid::Uuid;

#[test]
fn condition_evaluator_prompt_does_not_leak_another_condition() {
    let revision = Revision {
        revision_id: Uuid::new_v4().as_u128(),
        parent_digest: None,
        content_digest: Digest("dig".into()),
        original_proposal: "Plan".into(),
        current_understanding: "Plan".into(),
        positions: vec![],
        dissents: vec![],
        risks: vec![],
        questions: vec![],
    };
    let first = Condition {
        id: Uuid::new_v4().as_u128(),
        description: "Budget is under $1000".into(),
        is_met: false,
    };
    let second = Condition {
        id: Uuid::new_v4().as_u128(),
        description: "Security review completed".into(),
        is_met: false,
    };

    let prompt = build_condition_evaluator_prompt(&first, &revision);
    assert!(prompt.contains(&first.description));
    assert!(!prompt.contains(&second.description));
}

#[test]
fn arbitrator_prompt_shows_stable_ids_for_unresolved_items() {
    // A Move targets an existing item by id, and ringi (not the agent) mints ids for newly
    // created risks/questions — so the arbitrator prompt must show each item's id, or the
    // arbitrator would have no way to target it again in a later turn.
    let dissent_id = Uuid::new_v4().as_u128();
    let risk_id = Uuid::new_v4().as_u128();
    let question_id = Uuid::new_v4().as_u128();
    let revision = Revision {
        revision_id: Uuid::new_v4().as_u128(),
        parent_digest: None,
        content_digest: Digest("dig".into()),
        original_proposal: "Plan".into(),
        current_understanding: "Plan".into(),
        positions: vec![],
        dissents: vec![Dissent {
            id: dissent_id,
            claim: "Too slow".into(),
            resolved_by: None,
        }],
        risks: vec![Risk {
            id: risk_id,
            description: "Overheating".into(),
            resolved_by: None,
        }],
        questions: vec![Question {
            id: question_id,
            text: "Which supplier?".into(),
            answered_by: None,
        }],
    };

    let prompt = build_arbitrator_prompt(&revision, &vec![]);
    assert!(prompt.contains(&Uuid::from_u128(dissent_id).to_string()));
    assert!(prompt.contains(&Uuid::from_u128(risk_id).to_string()));
    assert!(prompt.contains(&Uuid::from_u128(question_id).to_string()));
}

#[test]
fn respondent_prompt_includes_only_unresolved_items() {
    let revision = Revision {
        revision_id: Uuid::new_v4().as_u128(),
        parent_digest: None,
        content_digest: Digest("dig".into()),
        original_proposal: "Let's build a spaceship".into(),
        current_understanding: "It should go to Mars".into(),
        positions: vec!["Alice: Mars is cool".into()],
        dissents: vec![
            Dissent {
                id: Uuid::new_v4().as_u128(),
                claim: "Too expensive".into(),
                resolved_by: None,
            },
            Dissent {
                id: Uuid::new_v4().as_u128(),
                claim: "Too far".into(),
                resolved_by: Some(Resolution {
                    reason: "Warp drive".into(),
                    provenance: vec![],
                }),
            },
        ],
        risks: vec![
            Risk {
                id: Uuid::new_v4().as_u128(),
                description: "Aliens".into(),
                resolved_by: None,
            },
            Risk {
                id: Uuid::new_v4().as_u128(),
                description: "Solar flare".into(),
                resolved_by: Some(Resolution {
                    reason: "Shielding".into(),
                    provenance: vec![],
                }),
            },
        ],
        questions: vec![
            Question {
                id: Uuid::new_v4().as_u128(),
                text: "Which engine supplier?".into(),
                answered_by: None,
            },
            Question {
                id: Uuid::new_v4().as_u128(),
                text: "Launch site?".into(),
                answered_by: Some(Resolution {
                    reason: "Cape Canaveral".into(),
                    provenance: vec![],
                }),
            },
        ],
    };

    let prompt = build_respondent_prompt("What fuel to use?", &revision);
    assert!(prompt.contains("Let's build a spaceship"));
    assert!(prompt.contains("Mars is cool"));
    assert!(prompt.contains("Too expensive"));
    assert!(!prompt.contains("Too far")); // resolved should not be included
    assert!(prompt.contains("Aliens"));
    assert!(!prompt.contains("Solar flare")); // resolved risk should not be included
    assert!(prompt.contains("Which engine supplier?"));
    assert!(!prompt.contains("Launch site?")); // answered question should not be included
    assert!(prompt.contains("What fuel to use?"));
}

#[test]
fn respondent_answer_is_a_claim_that_does_not_mutate_ssot() {
    // A respondent answers the question
    let answer = "Use liquid hydrogen.";

    // Ringi records it as an event (a claim)
    let event = Event::new_public(EventPayload::PublicRecord(answer.into()), 12345);

    // This event is just data. It cannot mutate a Revision directly, proving it's only a claim.
    // It's up to the arbitrator to create a successor revision containing this claim.
    assert_eq!(event.visibility, EventVisibility::Public);
    assert!(matches!(event.payload, EventPayload::PublicRecord(ref s) if s == answer));
}

#[test]
fn arbitrator_move_missing_provenance_is_rejected() {
    let dissent_id = Uuid::new_v4().as_u128();
    let base = Revision {
        revision_id: Uuid::new_v4().as_u128(),
        parent_digest: None,
        content_digest: Digest("dig".into()),
        original_proposal: "Plan".into(),
        current_understanding: "Plan".into(),
        positions: vec![],
        dissents: vec![Dissent {
            id: dissent_id,
            claim: "No".into(),
            resolved_by: None,
        }],
        risks: vec![],
        questions: vec![],
    };

    // A move resolving the dissent, but with no event provenance.
    let output = ArbitrationOutput {
        current_understanding: "Plan".into(),
        moves: vec![Move::ResolveDissent {
            id: dissent_id,
            resolution: Resolution {
                reason: "Tested".into(),
                provenance: vec![],
            },
        }],
    };

    let result = apply_arbitration(&base, output);
    assert_eq!(
        result.unwrap_err(),
        "Dissent resolution requires event provenance"
    );
}

#[test]
fn arbitrator_move_batch_applies_and_leaves_untouched_items_unchanged() {
    let dissent_id = Uuid::new_v4().as_u128();
    let untouched_risk_id = Uuid::new_v4().as_u128();
    let base = Revision {
        revision_id: Uuid::new_v4().as_u128(),
        parent_digest: None,
        content_digest: Digest("dig".into()),
        original_proposal: "Plan".into(),
        current_understanding: "Plan".into(),
        positions: vec![],
        dissents: vec![Dissent {
            id: dissent_id,
            claim: "No".into(),
            resolved_by: None,
        }],
        risks: vec![Risk {
            id: untouched_risk_id,
            description: "Untouched risk".into(),
            resolved_by: None,
        }],
        questions: vec![],
    };

    let output = ArbitrationOutput {
        current_understanding: "Updated".into(),
        moves: vec![Move::ResolveDissent {
            id: dissent_id,
            resolution: Resolution {
                reason: "Tested".into(),
                provenance: vec![EventRef {
                    event_id: Uuid::new_v4().as_u128(),
                }],
            },
        }],
    };

    let successor = apply_arbitration(&base, output).expect("valid move batch applies");
    assert!(successor.dissents[0].resolved_by.is_some());
    // The risk had no move targeting it — it must survive completely unchanged, not
    // inferred as removed or altered.
    assert_eq!(successor.risks[0].id, untouched_risk_id);
    assert!(successor.risks[0].resolved_by.is_none());
    // original_proposal is carried forward unconditionally — there is no field through
    // which the agent could have supplied or altered it.
    assert_eq!(successor.original_proposal, "Plan");
    assert_eq!(successor.current_understanding, "Updated");
}

#[test]
fn condition_evaluator_records_never_reach_respondent() {
    // Evaluate a condition
    let output = ConditionEvaluationOutput {
        verdict: ConditionVerdict::False,
        reason: "Sealed reason: API is down".into(),
        provenance: vec![],
    };

    // This goes into a Sealed event
    let event = Event::new_sealed(
        EventPayload::SealedEvaluation {
            evaluator: "cond".into(),
            reasoning: output.reason.clone(),
        },
        1,
    );
    assert_eq!(event.visibility, EventVisibility::Sealed);

    // When building a respondent prompt from a revision, the sealed event is NOT included
    let base = Revision {
        revision_id: Uuid::new_v4().as_u128(),
        parent_digest: None,
        content_digest: Digest("dig".into()),
        original_proposal: "Plan".into(),
        current_understanding: "Plan".into(),
        positions: vec![],
        dissents: vec![],
        risks: vec![],
        questions: vec![],
    };

    let prompt = build_respondent_prompt("Question", &base);
    // The prompt must NOT contain the sealed reason
    assert!(!prompt.contains("Sealed reason: API is down"));
}

#[test]
fn persistent_arbitration_session_reconstruction_without_authoritative_memory() {
    let settings = ArbitrationSettings::resolve(StrategyPreset::Economy);
    assert_eq!(settings.session_scope, SessionScope::Persistent);

    let id = "session-123".to_string();

    // 1. If we have it in memory, we reuse it.
    let session1 = ArbitrationSession::determine(&settings, Some(id.clone()), false);
    assert_eq!(session1.session_id, id);
    assert_eq!(session1.provenance.reason, "persistent session reused");

    // 2. If we lose memory (None), we just create a new one, proving memory isn't authoritative.
    let session2 = ArbitrationSession::determine(&settings, None, false);
    assert_ne!(session2.session_id, id);
    assert!(session2.session_id.starts_with("session-"));
    assert_eq!(session2.provenance.reason, "process loss reconstruction");

    // 3. For Assurance strategy, we always get a new session even if memory has one.
    let settings_assurance = ArbitrationSettings::resolve(StrategyPreset::Assurance);
    let session3 = ArbitrationSession::determine(&settings_assurance, Some(id.clone()), false);
    assert_ne!(session3.session_id, id);
    assert_eq!(session3.provenance.reason, "fresh per resolution scope");

    // 4. Escalation trigger match forces fresh.
    let session4 = ArbitrationSession::determine(&settings, Some(id.clone()), true);
    assert_ne!(session4.session_id, id);
    assert_eq!(session4.provenance.reason, "escalation trigger matched");
}

