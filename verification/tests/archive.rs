use ringi::archive::render_archive;
use ringi::dossier::{
    ArbitrationSettings, Condition, LifecycleState, Limits, LockedSettings, RoleBindings,
    StrategyPreset, SubmittedDossier,
};
use ringi::event::{Event, EventPayload};
use ringi::revision::{Digest as RevisionDigest, Revision};
use sha2::Digest;
use uuid::Uuid;

fn approved_dossier(id: u128, conditions: Vec<Condition>) -> SubmittedDossier {
    SubmittedDossier {
        id,
        state: LifecycleState::Approved,
        locked_settings: LockedSettings {
            arbitration: ArbitrationSettings::resolve(StrategyPreset::Economy),
            limits: Limits { max_turns: 1 },
            roles: RoleBindings {
                respondent: "unused".to_string(),
                arbitrator: "unused".to_string(),
            },
        },
        conditions,
    }
}

fn base_revision() -> Revision {
    Revision {
        revision_id: Uuid::new_v4().as_u128(),
        parent_digest: None,
        content_digest: RevisionDigest("dig".into()),
        original_proposal: "p".into(),
        current_understanding: "u".into(),
        positions: vec![],
        dissents: vec![],
        risks: vec![],
        questions: vec![],
    }
}

fn render(id: u128, dossier: &SubmittedDossier, events: Vec<Event>) -> String {
    let id_str = Uuid::from_u128(id).to_string();
    render_archive(&id_str, dossier, &Some(base_revision()), &events).unwrap()
}

#[test]
fn public_events_render_in_commit_order() {
    let id = Uuid::new_v4().as_u128();
    let first = Event::new_public(EventPayload::PublicRecord("first claim".into()), 1);
    let second = Event::new_public(EventPayload::PublicRecord("second claim".into()), 2);
    let rendered = render(id, &approved_dossier(id, vec![]), vec![first, second]);
    let first_pos = rendered.find("first claim").unwrap();
    let second_pos = rendered.find("second claim").unwrap();
    assert!(first_pos < second_pos, "events must render in commit order");
}

#[test]
fn a_sealed_evaluation_renders_its_evaluator_and_reasoning() {
    let id = Uuid::new_v4().as_u128();
    let sealed = Event::new_sealed(
        EventPayload::SealedEvaluation {
            evaluator: "condition:budget".into(),
            reasoning: "under the cap".into(),
        },
        1,
    );
    let rendered = render(id, &approved_dossier(id, vec![]), vec![sealed]);
    assert!(rendered.contains("[condition:budget] under the cap"));
}

#[test]
fn empty_sections_render_an_explicit_placeholder() {
    let id = Uuid::new_v4().as_u128();
    let rendered = render(id, &approved_dossier(id, vec![]), vec![]);
    assert!(rendered.contains("*(No public events recorded)*"));
    assert!(rendered.contains("*(No sealed evaluations recorded)*"));
    assert!(rendered.contains("*(No conditions attached)*"));
}

#[test]
fn conditions_render_as_checkboxes_matching_their_final_resolved_status() {
    let id = Uuid::new_v4().as_u128();
    let dossier = approved_dossier(
        id,
        vec![
            Condition {
                id: Uuid::new_v4().as_u128(),
                description: "Security review completed".into(),
                is_met: true,
            },
            Condition {
                id: Uuid::new_v4().as_u128(),
                description: "Load test passed".into(),
                is_met: false,
            },
        ],
    );
    let rendered = render(id, &dossier, vec![]);
    assert!(rendered.contains("- [x] Security review completed"));
    assert!(rendered.contains("- [ ] Load test passed"));
}

#[test]
fn the_integrity_digest_differs_when_event_content_differs() {
    let id_a = Uuid::new_v4().as_u128();
    let rendered_a = render(
        id_a,
        &approved_dossier(id_a, vec![]),
        vec![Event::new_public(EventPayload::PublicRecord("claim A".into()), 1)],
    );
    let id_b = Uuid::new_v4().as_u128();
    let rendered_b = render(
        id_b,
        &approved_dossier(id_b, vec![]),
        vec![Event::new_public(EventPayload::PublicRecord("claim B".into()), 1)],
    );

    let digest_of = |rendered: &str| {
        rendered
            .lines()
            .find(|l| l.starts_with("**Integrity Digest"))
            .unwrap()
            .to_string()
    };
    assert_ne!(digest_of(&rendered_a), digest_of(&rendered_b));
}

#[test]
fn a_non_terminal_dossier_cannot_be_archived() {
    let id = Uuid::new_v4().as_u128();
    let mut dossier = approved_dossier(id, vec![]);
    dossier.state = LifecycleState::ReadyForDecision;
    let result = render_archive("x", &dossier, &None, &vec![]);
    assert_eq!(result, Err("Cannot archive a non-terminal dossier"));
}

#[test]
fn the_integrity_digest_is_the_sha256_of_the_rendered_body() {
    let id = Uuid::new_v4().as_u128();
    let rendered = render(id, &approved_dossier(id, vec![]), vec![]);
    let marker = "\n---\n**Integrity Digest (SHA-256)**: ";
    let at = rendered.find(marker).unwrap();
    let body = &rendered[..at];
    let hex: String = sha2::Sha256::digest(body.as_bytes())
        .iter()
        .map(|b| format!("{:02x}", b))
        .collect();
    assert_eq!(&rendered[at + marker.len()..], format!("{hex}\n"));
    assert!(rendered.starts_with(&format!("# Dossier Archive: {}\n\n**State**: Approved\n**Strategy**: Economy\n", Uuid::from_u128(id))));
}
