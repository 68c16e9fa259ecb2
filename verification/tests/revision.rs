use ringi::revision::{Digest, Dissent, EventRef, Move, Question, Resolution, Revision, Risk};
use uuid::Uuid;

fn create_base_revision() -> Revision {
    Revision {
        revision_id: Uuid::new_v4().as_u128(),
        parent_digest: None,
        content_digest: Digest("initial".into()),
        original_proposal: "Let's build X".into(),
        current_understanding: "Building X".into(),
        positions: vec![],
        dissents: vec![Dissent {
            id: Uuid::new_v4().as_u128(),
            claim: "X is too slow".into(),
            resolved_by: None,
        }],
        risks: vec![],
        questions: vec![],
    }
}

fn base_with_unresolved_risk() -> (Revision, u128) {
    let risk_id = Uuid::new_v4().as_u128();
    let base = Revision {
        revision_id: Uuid::new_v4().as_u128(),
        parent_digest: None,
        content_digest: Digest("initial".into()),
        original_proposal: "Let's build X".into(),
        current_understanding: "Building X".into(),
        positions: vec![],
        dissents: vec![],
        risks: vec![Risk {
            id: risk_id,
            description: "X may overheat".into(),
            resolved_by: None,
        }],
        questions: vec![],
    };
    (base, risk_id)
}

fn base_with_unanswered_question() -> (Revision, u128) {
    let question_id = Uuid::new_v4().as_u128();
    let base = Revision {
        revision_id: Uuid::new_v4().as_u128(),
        parent_digest: None,
        content_digest: Digest("initial".into()),
        original_proposal: "Let's build X".into(),
        current_understanding: "Building X".into(),
        positions: vec![],
        dissents: vec![],
        risks: vec![],
        questions: vec![Question {
            id: question_id,
            text: "Which supplier?".into(),
            answered_by: None,
        }],
    };
    (base, question_id)
}

fn provenance() -> Vec<EventRef> {
    vec![EventRef {
        event_id: Uuid::new_v4().as_u128(),
    }]
}

#[test]
fn an_empty_move_batch_carries_every_residual_item_forward_unchanged() {
    let base = create_base_revision();
    let dissent_id = base.dissents[0].id;

    let successor = base
        .apply_moves("unchanged".into(), vec![])
        .expect("empty batch is valid");
    assert_eq!(successor.parent_digest, Some(base.content_digest.clone()));
    assert_eq!(successor.dissents[0].id, dissent_id);
    assert!(successor.dissents[0].resolved_by.is_none());
    // original_proposal is carried forward unconditionally — there is no field through
    // which a move batch could supply or alter it.
    assert_eq!(successor.original_proposal, base.original_proposal);
}

#[test]
fn a_move_targeting_a_nonexistent_dissent_is_rejected() {
    let base = create_base_revision();
    let err = base
        .apply_moves(
            "unchanged".into(),
            vec![Move::ResolveDissent {
                id: Uuid::new_v4().as_u128(),
                resolution: Resolution {
                    reason: "Tested".into(),
                    provenance: provenance(),
                },
            }],
        )
        .unwrap_err();
    assert_eq!(err, "Move targets a dissent that does not exist");
}

#[test]
fn resolving_a_dissent_without_provenance_is_rejected() {
    let base = create_base_revision();
    let dissent_id = base.dissents[0].id;

    let err = base
        .apply_moves(
            "unchanged".into(),
            vec![Move::ResolveDissent {
                id: dissent_id,
                resolution: Resolution {
                    reason: "Tested and it's fast enough".into(),
                    provenance: vec![], // Missing provenance!
                },
            }],
        )
        .unwrap_err();
    assert_eq!(err, "Dissent resolution requires event provenance");
}

#[test]
fn resolving_a_dissent_with_provenance_succeeds() {
    let base = create_base_revision();
    let dissent_id = base.dissents[0].id;

    let successor = base
        .apply_moves(
            "unchanged".into(),
            vec![Move::ResolveDissent {
                id: dissent_id,
                resolution: Resolution {
                    reason: "Tested and it's fast enough".into(),
                    provenance: provenance(),
                },
            }],
        )
        .expect("valid resolution applies");
    assert!(successor.dissents[0].resolved_by.is_some());
}

#[test]
fn resolving_an_already_resolved_dissent_is_rejected() {
    let base = create_base_revision();
    let dissent_id = base.dissents[0].id;
    let once_resolved = base
        .apply_moves(
            "unchanged".into(),
            vec![Move::ResolveDissent {
                id: dissent_id,
                resolution: Resolution {
                    reason: "Tested".into(),
                    provenance: provenance(),
                },
            }],
        )
        .expect("first resolution applies");

    let err = once_resolved
        .apply_moves(
            "unchanged".into(),
            vec![Move::ResolveDissent {
                id: dissent_id,
                resolution: Resolution {
                    reason: "Tested again".into(),
                    provenance: provenance(),
                },
            }],
        )
        .unwrap_err();
    assert_eq!(err, "Cannot resolve a dissent that is already resolved");
}

#[test]
fn an_unresolved_risk_survives_an_empty_batch_with_its_id() {
    let (base, risk_id) = base_with_unresolved_risk();
    let successor = base
        .apply_moves("unchanged".into(), vec![])
        .expect("empty batch is valid");
    assert_eq!(successor.risks[0].id, risk_id);
    assert!(successor.risks[0].resolved_by.is_none());
}

#[test]
fn closing_a_risk_without_provenance_is_rejected() {
    let (base, risk_id) = base_with_unresolved_risk();
    let err = base
        .apply_moves(
            "unchanged".into(),
            vec![Move::CloseRisk {
                id: risk_id,
                resolution: Resolution {
                    reason: "Mitigated with a heatsink".into(),
                    provenance: vec![],
                },
            }],
        )
        .unwrap_err();
    assert_eq!(err, "Risk resolution requires event provenance");
}

#[test]
fn closing_a_risk_with_provenance_succeeds() {
    let (base, risk_id) = base_with_unresolved_risk();
    let successor = base
        .apply_moves(
            "unchanged".into(),
            vec![Move::CloseRisk {
                id: risk_id,
                resolution: Resolution {
                    reason: "Mitigated with a heatsink".into(),
                    provenance: provenance(),
                },
            }],
        )
        .expect("valid closure applies");
    assert!(successor.risks[0].resolved_by.is_some());
}

#[test]
fn adding_a_risk_with_empty_description_is_rejected() {
    let base = create_base_revision();
    let err = base
        .apply_moves(
            "unchanged".into(),
            vec![Move::AddRisk {
                description: String::new(),
            }],
        )
        .unwrap_err();
    assert_eq!(err, "A new risk requires a non-empty description");
}

#[test]
fn adding_a_risk_appends_a_new_open_risk() {
    let base = create_base_revision();
    let successor = base
        .apply_moves(
            "unchanged".into(),
            vec![Move::AddRisk {
                description: "Newly spotted risk".into(),
            }],
        )
        .expect("valid add-risk applies");
    assert_eq!(successor.risks.len(), 1);
    assert_eq!(successor.risks[0].description, "Newly spotted risk");
    assert!(successor.risks[0].resolved_by.is_none());
}

#[test]
fn an_unanswered_question_survives_an_empty_batch_with_its_id() {
    let (base, question_id) = base_with_unanswered_question();
    let successor = base
        .apply_moves("unchanged".into(), vec![])
        .expect("empty batch is valid");
    assert_eq!(successor.questions[0].id, question_id);
    assert!(successor.questions[0].answered_by.is_none());
}

#[test]
fn answering_a_question_without_provenance_is_rejected() {
    let (base, question_id) = base_with_unanswered_question();
    let err = base
        .apply_moves(
            "unchanged".into(),
            vec![Move::AnswerQuestion {
                id: question_id,
                resolution: Resolution {
                    reason: "Acme Corp".into(),
                    provenance: vec![],
                },
            }],
        )
        .unwrap_err();
    assert_eq!(err, "Question answer requires event provenance");
}

#[test]
fn answering_a_question_with_provenance_succeeds() {
    let (base, question_id) = base_with_unanswered_question();
    let successor = base
        .apply_moves(
            "unchanged".into(),
            vec![Move::AnswerQuestion {
                id: question_id,
                resolution: Resolution {
                    reason: "Acme Corp".into(),
                    provenance: provenance(),
                },
            }],
        )
        .expect("valid answer applies");
    assert!(successor.questions[0].answered_by.is_some());
}

#[test]
fn asking_a_question_with_empty_text_is_rejected() {
    let base = create_base_revision();
    let err = base
        .apply_moves(
            "unchanged".into(),
            vec![Move::AskQuestion {
                text: String::new(),
            }],
        )
        .unwrap_err();
    assert_eq!(err, "A new question requires non-empty text");
}

#[test]
fn asking_a_question_appends_a_new_open_question() {
    let base = create_base_revision();
    let successor = base
        .apply_moves(
            "unchanged".into(),
            vec![Move::AskQuestion {
                text: "Which supplier?".into(),
            }],
        )
        .expect("valid ask-question applies");
    assert_eq!(successor.questions.len(), 1);
    assert_eq!(successor.questions[0].text, "Which supplier?");
    assert!(successor.questions[0].answered_by.is_none());
}

#[test]
fn a_batch_targeting_the_same_item_twice_is_rejected() {
    let base = create_base_revision();
    let dissent_id = base.dissents[0].id;
    let err = base
        .apply_moves(
            "unchanged".into(),
            vec![
                Move::ResolveDissent {
                    id: dissent_id,
                    resolution: Resolution {
                        reason: "First".into(),
                        provenance: provenance(),
                    },
                },
                Move::ResolveDissent {
                    id: dissent_id,
                    resolution: Resolution {
                        reason: "Second".into(),
                        provenance: provenance(),
                    },
                },
            ],
        )
        .unwrap_err();
    assert_eq!(err, "A move batch cannot target the same item twice");
}

#[test]
fn a_batch_with_one_invalid_move_applies_none_of_them() {
    // A dissent and a risk in the same revision, so one valid move (close the risk) and one
    // invalid move (resolve the dissent with no provenance) can be declared in one batch.
    let dissent_id = Uuid::new_v4().as_u128();
    let (mut base, risk_id) = base_with_unresolved_risk();
    base.dissents.push(Dissent {
        id: dissent_id,
        claim: "Also too slow".into(),
        resolved_by: None,
    });

    let err = base
        .clone()
        .apply_moves(
            "unchanged".into(),
            vec![
                Move::CloseRisk {
                    id: risk_id,
                    resolution: Resolution {
                        reason: "Mitigated".into(),
                        provenance: provenance(),
                    },
                },
                Move::ResolveDissent {
                    id: dissent_id,
                    resolution: Resolution {
                        reason: "Missing provenance".into(),
                        provenance: vec![], // invalid
                    },
                },
            ],
        )
        .unwrap_err();
    assert_eq!(err, "Dissent resolution requires event provenance");

    // The risk's own move was valid, but the batch must still apply nothing: re-attempting
    // the risk closure alone (against the original, untouched base) must still succeed,
    // proving the earlier rejected batch left the risk open.
    let successor = base
        .apply_moves(
            "unchanged".into(),
            vec![Move::CloseRisk {
                id: risk_id,
                resolution: Resolution {
                    reason: "Mitigated".into(),
                    provenance: provenance(),
                },
            }],
        )
        .expect("risk is still open, since the earlier mixed batch applied nothing");
    assert!(successor.risks[0].resolved_by.is_some());
}

#[test]
fn test_identical_content_produces_the_same_digest() {
    let a = create_base_revision();
    let mut b = create_base_revision();
    // Vary only fields that are not part of the SSOT content: identity and the
    // (pre-digest) content_digest placeholder.
    b.revision_id = Uuid::new_v4().as_u128();
    b.dissents[0].id = a.dissents[0].id;

    assert_eq!(a.compute_digest(), b.compute_digest());
}

#[test]
fn test_changed_content_produces_a_different_digest() {
    let a = create_base_revision();
    let mut b = a.clone();
    b.current_understanding = "Building Y instead".into();

    assert_ne!(a.compute_digest(), b.compute_digest());
}


#[test]
fn a_digest_is_sixty_four_lowercase_hex_digits() {
    let mut r = create_base_revision();
    r.current_understanding = "line \"quoted\"\n\ttab \\ back \u{1}".into();
    let d = r.compute_digest();
    assert_eq!(d.0.len(), 64);
    assert!(d.0.chars().all(|c| c.is_ascii_digit() || ('a'..='f').contains(&c)));
}

#[test]
fn a_successor_gets_a_fresh_random_id() {
    let base = create_base_revision();
    let next = base.apply_moves("u2".into(), vec![]).unwrap();
    assert_ne!(next.revision_id, base.revision_id);
    assert_eq!(Uuid::from_u128(next.revision_id).get_version_num(), 4);
}
