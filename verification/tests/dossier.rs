use ringi::dossier::{Frontmatter, LifecycleState, Limits, RoleBindings, StrategyPreset};
use uuid::Uuid;

#[test]
fn test_draft_to_submit() {
    let draft = Frontmatter::new_draft();
    assert_eq!(draft.state, LifecycleState::Draft);

    let mut submitted = draft.submit().expect("Failed to submit");
    assert_eq!(submitted.state, LifecycleState::Submitted);

    // Cannot submit again
    let not_draft = Frontmatter {
        id: Uuid::new_v4().as_u128(),
        state: LifecycleState::Submitted,
        strategy: StrategyPreset::Economy,
        limits: Limits::default(),
        roles: RoleBindings::default(),
    };
    assert!(not_draft.submit().is_err());

    submitted
        .transition_to(LifecycleState::Deliberating)
        .unwrap();
    assert_eq!(submitted.state, LifecycleState::Deliberating);
}

use ringi::dossier::{ArbitrationSettings, LockedSettings, SubmittedDossier};

fn dossier_in(state: LifecycleState) -> SubmittedDossier {
    SubmittedDossier {
        id: Uuid::new_v4().as_u128(),
        state,
        locked_settings: LockedSettings {
            arbitration: ArbitrationSettings::resolve(StrategyPreset::Balanced),
            limits: Limits::default(),
            roles: RoleBindings::default(),
        },
        conditions: vec![],
    }
}

#[test]
fn a_terminal_dossier_never_transitions_again() {
    for state in [LifecycleState::Approved, LifecycleState::Rejected, LifecycleState::Cancelled, LifecycleState::Invalidated] {
        let mut d = dossier_in(state);
        assert_eq!(d.transition_to(LifecycleState::Cancelled), Err("Cannot transition from a terminal state"));
        assert_eq!(d.state, state);
    }
}

#[test]
fn any_live_dossier_can_be_cancelled_or_invalidated() {
    for state in [LifecycleState::Submitted, LifecycleState::Deliberating, LifecycleState::ReadyForDecision, LifecycleState::ApprovedWithConditions] {
        let mut d = dossier_in(state);
        assert_eq!(d.transition_to(LifecycleState::Cancelled), Ok(()));
        let mut d = dossier_in(state);
        assert_eq!(d.transition_to(LifecycleState::Invalidated), Ok(()));
    }
}

#[test]
fn a_decision_needs_a_dossier_ready_for_it() {
    let mut d = dossier_in(LifecycleState::Deliberating);
    assert_eq!(d.transition_to(LifecycleState::Approved), Err("Invalid state transition"));
    assert_eq!(d.state, LifecycleState::Deliberating);
    let mut d = dossier_in(LifecycleState::ReadyForDecision);
    assert_eq!(d.transition_to(LifecycleState::Approved), Ok(()));
    assert_eq!(d.state, LifecycleState::Approved);
}

#[test]
fn a_draft_resolves_its_strategy_at_submission() {
    let mut f = Frontmatter::new_draft();
    f.strategy = StrategyPreset::Balanced;
    let d = f.clone().submit().unwrap();
    assert_eq!(d.id, f.id);
    assert_eq!(d.locked_settings.arbitration, ArbitrationSettings::resolve(StrategyPreset::Balanced));
    assert_eq!(d.locked_settings.arbitration.escalation_triggers, vec!["low_confidence", "high_severity"]);
    assert!(d.conditions.is_empty());
}

#[test]
fn a_new_draft_gets_a_fresh_random_uuid() {
    let a = Frontmatter::new_draft();
    let b = Frontmatter::new_draft();
    assert_eq!(Uuid::from_u128(a.id).get_version_num(), 4);
    assert_eq!(Uuid::from_u128(a.id).get_variant(), uuid::Variant::RFC4122);
    assert_ne!(a.id, b.id);
}
