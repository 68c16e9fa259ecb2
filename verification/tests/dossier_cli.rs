use ringi::dossier::LifecycleState;
use ringi::dossier_cli::is_decision_pending;

#[test]
fn readiness_is_a_live_question_only_before_a_decision_is_rendered() {
    let pending = [
        LifecycleState::Draft,
        LifecycleState::Submitted,
        LifecycleState::Deliberating,
        LifecycleState::ReadyForDecision,
    ];
    let terminal = [
        LifecycleState::Approved,
        LifecycleState::ApprovedWithConditions,
        LifecycleState::Rejected,
        LifecycleState::Cancelled,
        LifecycleState::Invalidated,
    ];

    for state in &pending {
        assert!(
            is_decision_pending(state),
            "{:?} should still treat readiness as a live question",
            state
        );
    }
    for state in &terminal {
        assert!(
            !is_decision_pending(state),
            "{:?} has already rendered a decision; readiness is no longer live",
            state
        );
    }
}

use ringi::dossier::{
    ArbitrationSettings, Condition, Limits, LockedSettings, RoleBindings, StrategyPreset,
    SubmittedDossier,
};
use ringi::dossier_cli::{
    add_condition, archive_file, condition_line, decision_target, dossier_file, dossiers_dir,
    draft_document, id_matches, initial_revision, renders_archive, rewrite_document,
    split_document,
};
use uuid::Uuid;

fn dossier(state: LifecycleState, conditions: Vec<Condition>) -> SubmittedDossier {
    SubmittedDossier {
        id: Uuid::new_v4().as_u128(),
        state,
        locked_settings: LockedSettings {
            arbitration: ArbitrationSettings::resolve(StrategyPreset::Economy),
            limits: Limits { max_turns: 3 },
            roles: RoleBindings { respondent: "r".into(), arbitrator: "a".into() },
        },
        conditions,
    }
}

fn condition(description: &str, is_met: bool) -> Condition {
    Condition { id: Uuid::new_v4().as_u128(), description: description.into(), is_met }
}

#[test]
fn the_initial_revision_carries_a_real_content_digest() {
    let revision = initial_revision("\n\n# Propose Action Here\n\nWrite your intent...\n");
    assert_ne!(revision.content_digest.0, "initial-digest");
    assert_eq!(revision.content_digest, revision.compute_digest());
    assert_eq!(revision.original_proposal, "# Propose Action Here\n\nWrite your intent...");
    assert_eq!(revision.current_understanding, revision.original_proposal);
    assert!(revision.parent_digest.is_none());
    assert_eq!(revision.content_digest.0.len(), 64);
}

#[test]
fn approving_with_an_unmet_condition_approves_with_conditions() {
    let open = vec![condition("Security review", true), condition("Load test", false)];
    assert_eq!(
        decision_target(LifecycleState::Approved, &open),
        LifecycleState::ApprovedWithConditions
    );
    let met = vec![condition("Security review", true)];
    assert_eq!(decision_target(LifecycleState::Approved, &met), LifecycleState::Approved);
    assert_eq!(decision_target(LifecycleState::Approved, &vec![]), LifecycleState::Approved);
    assert_eq!(decision_target(LifecycleState::Rejected, &open), LifecycleState::Rejected);
}

#[test]
fn only_terminal_states_render_an_archive() {
    assert!(renders_archive(LifecycleState::Approved));
    assert!(renders_archive(LifecycleState::Invalidated));
    assert!(!renders_archive(LifecycleState::ApprovedWithConditions));
    assert!(!renders_archive(LifecycleState::ReadyForDecision));
}

#[test]
fn a_document_splits_at_its_first_two_fences() {
    let doc = draft_document("{\"a\":1}\n");
    assert_eq!(doc, "---\n{\"a\":1}\n---\n\n# Propose Action Here\n\nWrite your intent...\n");
    let (front, rest) = split_document(&doc).unwrap();
    assert_eq!(front, "\n{\"a\":1}\n");
    assert_eq!(rest, "\n\n# Propose Action Here\n\nWrite your intent...\n");
    assert_eq!(rewrite_document("{\"a\":2}\n", &rest), "---\n{\"a\":2}\n---\n\n# Propose Action Here\n\nWrite your intent...\n");
    let (_, rest) = split_document("---a---b --- c").unwrap();
    assert_eq!(rest, "b --- c");
    assert!(split_document("no fences").is_none());
    assert!(split_document("only --- one").is_none());
}

#[test]
fn conditions_are_added_only_when_ready_for_decision() {
    let mut ready = dossier(LifecycleState::ReadyForDecision, vec![]);
    assert_eq!(add_condition(&mut ready, "Load test passed"), Ok(()));
    assert_eq!(ready.conditions.len(), 1);
    assert_eq!(ready.conditions[0].description, "Load test passed");
    assert!(!ready.conditions[0].is_met);

    let mut deliberating = dossier(LifecycleState::Deliberating, vec![]);
    let before = deliberating.clone();
    assert_eq!(
        add_condition(&mut deliberating, "x"),
        Err("Can only add conditions to a dossier in ReadyForDecision state")
    );
    assert_eq!(deliberating, before);
}

#[test]
fn dossier_files_live_under_the_dossiers_directory() {
    assert_eq!(dossiers_dir(), ".ringi/dossiers");
    assert_eq!(dossier_file("abc"), ".ringi/dossiers/abc.md");
    assert_eq!(archive_file("abc"), ".ringi/dossiers/abc.archive.md");
    assert_eq!(condition_line(&condition("Done", true)), "- [x] Done");
    assert_eq!(condition_line(&condition("Todo", false)), "- [ ] Todo");
    let id = Uuid::new_v4();
    assert!(id_matches(id.as_u128(), &id.to_string()));
    assert!(!id_matches(id.as_u128(), "other"));
}

#[test]
fn a_split_reads_back_what_a_rewrite_wrote() {
    let fm = "{\n  \"title\": \"x\"\n}\n";
    let rest = "\n\nbody with --- inside\n";
    let doc = rewrite_document(fm, rest);
    let (front, back) = split_document(&doc).unwrap();
    assert_eq!(front, format!("\n{fm}"));
    assert_eq!(back, rest);
    // A frontmatter holding a fence of its own is split early.
    let (front, _) = split_document(&rewrite_document("a---b\n", "")).unwrap();
    assert_eq!(front, "\na");
}

#[test]
fn an_added_condition_gets_a_fresh_random_id() {
    let mut ready = dossier(LifecycleState::ReadyForDecision, vec![]);
    add_condition(&mut ready, "a").unwrap();
    add_condition(&mut ready, "b").unwrap();
    assert_eq!(Uuid::from_u128(ready.conditions[0].id).get_version_num(), 4);
    assert_ne!(ready.conditions[0].id, ready.conditions[1].id);
}
