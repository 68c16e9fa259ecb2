use ringi::convergence::is_ready;
use ringi::revision::{Digest, Dissent, EventRef, Question, Resolution, Revision, Risk};
use suunta::{
    plan_residual, Bearing, Correction, Fix, Reversibility, Satisfaction, SatisfactionFinding,
    Sigil, Sounding,
};
use uuid::Uuid;

fn revision_with(dissents: Vec<Dissent>, risks: Vec<Risk>) -> Revision {
    Revision {
        revision_id: Uuid::new_v4().as_u128(),
        parent_digest: None,
        content_digest: Digest("dig".into()),
        original_proposal: "p".into(),
        current_understanding: "u".into(),
        positions: vec![],
        dissents,
        risks,
        questions: vec![],
    }
}

fn resolved() -> Option<Resolution> {
    Some(Resolution {
        reason: "handled".into(),
        provenance: vec![EventRef {
            event_id: Uuid::new_v4().as_u128(),
        }],
    })
}

#[test]
fn empty_residual_is_ready() {
    assert!(is_ready(&revision_with(vec![], vec![])));
}

#[test]
fn an_open_target_is_not_ready() {
    let rev = revision_with(
        vec![Dissent {
            id: Uuid::new_v4().as_u128(),
            claim: "no".into(),
            resolved_by: None,
        }],
        vec![],
    );
    assert!(!is_ready(&rev));
}

#[test]
fn a_satisfied_target_is_reported_and_converges() {
    // A resolved dissent and a resolved risk must both be positively certified, not
    // omitted; otherwise suunta would retain them and never converge.
    let rev = revision_with(
        vec![Dissent {
            id: Uuid::new_v4().as_u128(),
            claim: "no".into(),
            resolved_by: resolved(),
        }],
        vec![Risk {
            id: Uuid::new_v4().as_u128(),
            description: "heat".into(),
            resolved_by: resolved(),
        }],
    );
    assert!(is_ready(&rev));
}

#[test]
fn a_mix_of_resolved_and_open_is_not_ready() {
    let rev = revision_with(
        vec![Dissent {
            id: Uuid::new_v4().as_u128(),
            claim: "ok".into(),
            resolved_by: resolved(),
        }],
        vec![Risk {
            id: Uuid::new_v4().as_u128(),
            description: "heat".into(),
            resolved_by: None,
        }],
    );
    assert!(!is_ready(&rev));
}

#[test]
fn a_resolution_without_provenance_does_not_satisfy() {
    // An unbacked resolution (reason but no provenance) must not certify satisfaction,
    // or an agent could converge a dossier with an empty-provenance claim.
    let rev = revision_with(
        vec![Dissent {
            id: Uuid::new_v4().as_u128(),
            claim: "x".into(),
            resolved_by: Some(Resolution {
                reason: "trust me".into(),
                provenance: vec![],
            }),
        }],
        vec![],
    );
    assert!(!is_ready(&rev));
}

#[test]
fn unknown_verdict_blocks_convergence_at_the_seam() {
    // Forward-compat: v1's structural mapping never emits Unknown, but if a target is
    // reported Unknown, suunta must retain it and withhold convergence.
    let sigil = Sigil::new("dissent:probe");
    let bearing = Bearing::new(vec![Correction::new(
        sigil.clone(),
        Reversibility::Reversible,
        (),
    )]);
    let sounding = Sounding::new(
        Fix::new(vec![SatisfactionFinding {
            target: sigil,
            satisfaction: Satisfaction::Unknown,
        }]),
        vec![],
    );
    assert!(!plan_residual(bearing, &sounding).is_converged());
}


#[test]
fn a_resumed_deliberation_is_ready_only_past_the_root() {
    let root = revision_with(vec![], vec![]);
    assert!(is_ready(&root));
    assert!(!ringi::convergence::is_ready_for_decision(&root));
    let mut turned = revision_with(vec![], vec![]);
    turned.parent_digest = Some(Digest("parent".into()));
    assert!(ringi::convergence::is_ready_for_decision(&turned));
    let open = Dissent { id: Uuid::new_v4().as_u128(), claim: "c".into(), resolved_by: None };
    let mut unresolved = revision_with(vec![open], vec![]);
    unresolved.parent_digest = Some(Digest("parent".into()));
    assert!(!ringi::convergence::is_ready_for_decision(&unresolved));
}

#[test]
fn an_unanswered_question_withholds_readiness() {
    let mut r = revision_with(vec![], vec![]);
    r.questions = vec![Question { id: Uuid::new_v4().as_u128(), text: "why?".into(), answered_by: None }];
    assert!(!is_ready(&r));
    r.questions[0].answered_by = resolved();
    assert!(is_ready(&r));
    r.questions[0].answered_by = Some(Resolution { reason: "because".into(), provenance: vec![] });
    assert!(!is_ready(&r));
}
