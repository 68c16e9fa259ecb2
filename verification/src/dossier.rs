//! The dossier: its lifecycle state machine, the arbitration strategy presets, and the
//! settings a dossier locks at submission.

use vstd::prelude::*;

use crate::ids::{fresh_id, is_random_uuid};

verus! {

/// The overall state of a deliberation dossier.
#[derive(Debug, Clone, Copy, PartialEq, Eq, Structural)]
pub enum LifecycleState {
    Draft,
    Submitted,
    Deliberating,
    ReadyForDecision,
    Approved,
    ApprovedWithConditions,
    Rejected,
    Cancelled,
    Invalidated,
}

impl Default for LifecycleState {
    fn default() -> (s: Self)
        ensures
            s == LifecycleState::Draft,
    {
        LifecycleState::Draft
    }
}

/// A decision has been rendered (or the dossier abandoned): nothing leaves these states.
pub open spec fn is_terminal(s: LifecycleState) -> bool {
    s == LifecycleState::Approved || s == LifecycleState::Rejected || s == LifecycleState::Cancelled
        || s == LifecycleState::Invalidated
}

/// The transition table of a non-terminal dossier: the pairs `transition_to` accepts.
pub open spec fn transition_allowed(from: LifecycleState, to: LifecycleState) -> bool {
    ||| from == LifecycleState::Submitted && to == LifecycleState::Deliberating
    ||| from == LifecycleState::Deliberating && to == LifecycleState::ReadyForDecision
    ||| from == LifecycleState::ReadyForDecision && to == LifecycleState::Deliberating
    ||| from == LifecycleState::ReadyForDecision && to == LifecycleState::Approved
    ||| from == LifecycleState::ReadyForDecision && to == LifecycleState::ApprovedWithConditions
    ||| from == LifecycleState::ReadyForDecision && to == LifecycleState::Rejected
    ||| from == LifecycleState::ApprovedWithConditions && to == LifecycleState::ReadyForDecision
    ||| to == LifecycleState::Cancelled
    ||| to == LifecycleState::Invalidated
}

/// The arbitration strategy preset.
#[derive(Debug, Clone, Copy, PartialEq, Eq, Structural)]
pub enum StrategyPreset {
    Economy,
    Balanced,
    Assurance,
}

impl Default for StrategyPreset {
    fn default() -> (s: Self)
        ensures
            s == StrategyPreset::Economy,
    {
        StrategyPreset::Economy
    }
}

#[derive(Debug, Clone, Copy, PartialEq, Eq, Structural)]
pub struct Limits {
    pub max_turns: u32,
}

impl Default for Limits {
    fn default() -> (l: Self)
        ensures
            l.max_turns == 10,
    {
        Limits { max_turns: 10 }
    }
}

#[derive(Debug, Clone, PartialEq, Eq)]
pub struct RoleBindings {
    pub respondent: String,
    pub arbitrator: String,
}

impl Default for RoleBindings {
    fn default() -> (r: Self)
        ensures
            r.respondent@ == "default-agent"@,
            r.arbitrator@ == "default-arbitrator"@,
    {
        RoleBindings {
            respondent: String::from_str("default-agent"),
            arbitrator: String::from_str("default-arbitrator"),
        }
    }
}

impl RoleBindings {
    /// A field-by-field copy.
    pub fn duplicate(&self) -> (r: Self)
        ensures
            r == *self,
    {
        RoleBindings { respondent: self.respondent.clone(), arbitrator: self.arbitrator.clone() }
    }
}

#[derive(Debug, Clone, Copy, PartialEq, Eq, Structural)]
pub enum SessionScope {
    Persistent,
    FreshPerRound,
    FreshPerResolution,
}

#[derive(Debug, Clone, PartialEq, Eq)]
pub struct ArbitrationSettings {
    pub preset: StrategyPreset,
    pub session_scope: SessionScope,
    pub pre_decision_review: bool,
    pub escalation_triggers: Vec<String>,
}

/// The session scope each preset resolves to.
pub open spec fn preset_scope(preset: StrategyPreset) -> SessionScope {
    match preset {
        StrategyPreset::Economy => SessionScope::Persistent,
        StrategyPreset::Balanced => SessionScope::Persistent,
        StrategyPreset::Assurance => SessionScope::FreshPerResolution,
    }
}

/// Whether each preset asks for a pre-decision review.
pub open spec fn preset_review(preset: StrategyPreset) -> bool {
    preset != StrategyPreset::Economy
}

/// The escalation triggers each preset resolves to, in order.
pub open spec fn preset_triggers(preset: StrategyPreset) -> Seq<Seq<char>> {
    match preset {
        StrategyPreset::Economy => Seq::empty(),
        StrategyPreset::Balanced => seq!["low_confidence"@, "high_severity"@],
        StrategyPreset::Assurance => seq!["always"@],
    }
}

/// The views of a list of strings.
pub open spec fn strings_view(v: Seq<String>) -> Seq<Seq<char>> {
    v.map_values(|s: String| s@)
}

/// `settings` is exactly what `preset` resolves to.
pub open spec fn resolves_to(settings: ArbitrationSettings, preset: StrategyPreset) -> bool {
    &&& settings.preset == preset
    &&& settings.session_scope == preset_scope(preset)
    &&& settings.pre_decision_review == preset_review(preset)
    &&& strings_view(settings.escalation_triggers@) =~= preset_triggers(preset)
}

impl ArbitrationSettings {
    /// The arbitration settings a strategy preset stands for.
    pub fn resolve(preset: StrategyPreset) -> (s: Self)
        ensures
            resolves_to(s, preset),
    {
        match preset {
            StrategyPreset::Economy => ArbitrationSettings {
                preset,
                session_scope: SessionScope::Persistent,
                pre_decision_review: false,
                escalation_triggers: Vec::new(),
            },
            StrategyPreset::Balanced => {
                let mut triggers: Vec<String> = Vec::new();
                triggers.push(String::from_str("low_confidence"));
                triggers.push(String::from_str("high_severity"));
                ArbitrationSettings {
                    preset,
                    session_scope: SessionScope::Persistent,
                    pre_decision_review: true,
                    escalation_triggers: triggers,
                }
            },
            StrategyPreset::Assurance => {
                let mut triggers: Vec<String> = Vec::new();
                triggers.push(String::from_str("always"));
                ArbitrationSettings {
                    preset,
                    session_scope: SessionScope::FreshPerResolution,
                    pre_decision_review: true,
                    escalation_triggers: triggers,
                }
            },
        }
    }
}

/// Settings that are resolved and locked at submission time.
#[derive(Debug, Clone, PartialEq, Eq)]
pub struct LockedSettings {
    pub arbitration: ArbitrationSettings,
    pub limits: Limits,
    pub roles: RoleBindings,
}

/// The frontmatter parsed from a Markdown dossier.
#[derive(Debug, Clone, PartialEq, Eq)]
pub struct Frontmatter {
    pub id: u128,
    pub state: LifecycleState,
    pub strategy: StrategyPreset,
    pub limits: Limits,
    pub roles: RoleBindings,
}

/// A condition attached to a dossier awaiting its decision.
#[derive(Debug, Clone, PartialEq, Eq)]
pub struct Condition {
    pub id: u128,
    pub description: String,
    pub is_met: bool,
}

/// A dossier that has been submitted and whose settings are locked.
#[derive(Debug, Clone, PartialEq, Eq)]
pub struct SubmittedDossier {
    pub id: u128,
    pub state: LifecycleState,
    pub locked_settings: LockedSettings,
    pub conditions: Vec<Condition>,
}

/// The only error `submit` reports.
pub open spec fn submit_error() -> Seq<char> {
    "Only a dossier in Draft state can be submitted"@
}

/// The error `transition_to` reports from a terminal state.
pub open spec fn terminal_error() -> Seq<char> {
    "Cannot transition from a terminal state"@
}

/// The error `transition_to` reports for a pair outside the table.
pub open spec fn invalid_transition_error() -> Seq<char> {
    "Invalid state transition"@
}

impl Frontmatter {
    /// A new draft with a fresh random (version 4) identifier and the default strategy, limits
    /// and roles.
    pub fn new_draft() -> (f: Self)
        ensures
            is_random_uuid(f.id),
            f.state == LifecycleState::Draft,
            f.strategy == StrategyPreset::Economy,
            f.limits.max_turns == 10,
            f.roles.respondent@ == "default-agent"@,
            f.roles.arbitrator@ == "default-arbitrator"@,
    {
        Frontmatter {
            id: fresh_id(),
            state: LifecycleState::Draft,
            strategy: StrategyPreset::default(),
            limits: Limits::default(),
            roles: RoleBindings::default(),
        }
    }

    /// Submits the draft, locking its settings: the strategy resolves to its arbitration
    /// settings, the limits and roles are carried over, and no condition is attached yet.
    /// Only a draft can be submitted.
    pub fn submit(self) -> (r: Result<SubmittedDossier, &'static str>)
        ensures
            self.state != LifecycleState::Draft <==> r is Err,
            r matches Err(e) ==> e@ == submit_error(),
            r matches Ok(d) ==> {
                &&& d.id == self.id
                &&& d.state == LifecycleState::Submitted
                &&& resolves_to(d.locked_settings.arbitration, self.strategy)
                &&& d.locked_settings.limits == self.limits
                &&& d.locked_settings.roles == self.roles
                &&& d.conditions@.len() == 0
            },
    {
        if self.state != LifecycleState::Draft {
            return Err("Only a dossier in Draft state can be submitted");
        }
        Ok(SubmittedDossier {
            id: self.id,
            state: LifecycleState::Submitted,
            locked_settings: LockedSettings {
                arbitration: ArbitrationSettings::resolve(self.strategy),
                limits: self.limits,
                roles: self.roles,
            },
            conditions: Vec::new(),
        })
    }
}

fn is_terminal_state(s: LifecycleState) -> (b: bool)
    ensures
        b == is_terminal(s),
{
    match s {
        LifecycleState::Approved | LifecycleState::Rejected | LifecycleState::Cancelled
        | LifecycleState::Invalidated => true,
        _ => false,
    }
}

fn is_allowed(from: LifecycleState, to: LifecycleState) -> (b: bool)
    ensures
        b == transition_allowed(from, to),
{
    match (from, to) {
        (LifecycleState::Submitted, LifecycleState::Deliberating) => true,
        (LifecycleState::Deliberating, LifecycleState::ReadyForDecision) => true,
        (LifecycleState::ReadyForDecision, LifecycleState::Deliberating) => true,
        (LifecycleState::ReadyForDecision, LifecycleState::Approved) => true,
        (LifecycleState::ReadyForDecision, LifecycleState::ApprovedWithConditions) => true,
        (LifecycleState::ReadyForDecision, LifecycleState::Rejected) => true,
        (LifecycleState::ApprovedWithConditions, LifecycleState::ReadyForDecision) => true,
        (_, LifecycleState::Cancelled) => true,
        (_, LifecycleState::Invalidated) => true,
        _ => false,
    }
}

impl SubmittedDossier {
    /// Moves the dossier to `next_state` when the lifecycle permits it. A terminal dossier
    /// never moves; otherwise the move must be in the transition table. A refused move
    /// leaves the dossier unchanged.
    pub fn transition_to(&mut self, next_state: LifecycleState) -> (r: Result<(), &'static str>)
        ensures
            r is Ok <==> (!is_terminal(old(self).state) && transition_allowed(
                old(self).state,
                next_state,
            )),
            r matches Err(e) ==> {
                &&& *final(self) == *old(self)
                &&& is_terminal(old(self).state) ==> e@ == terminal_error()
                &&& !is_terminal(old(self).state) ==> e@ == invalid_transition_error()
            },
            r is Ok ==> *final(self) == (SubmittedDossier { state: next_state, ..*old(self) }),
    {
        if is_terminal_state(self.state) {
            return Err("Cannot transition from a terminal state");
        }
        if !is_allowed(self.state, next_state) {
            return Err("Invalid state transition");
        }
        self.state = next_state;
        Ok(())
    }
}

/// Once a decision is rendered, the dossier's lifecycle is over: no transition leaves a
/// terminal state.
pub proof fn lemma_terminal_states_are_final(from: LifecycleState, to: LifecycleState)
    requires
        is_terminal(from),
    ensures
        !(!is_terminal(from) && transition_allowed(from, to)),
{
}

/// Any dossier whose lifecycle is not over can always be cancelled or invalidated.
pub proof fn lemma_cancel_and_invalidate_always_allowed(from: LifecycleState)
    requires
        !is_terminal(from),
    ensures
        transition_allowed(from, LifecycleState::Cancelled),
        transition_allowed(from, LifecycleState::Invalidated),
{
}

/// From `ReadyForDecision` every decision can be taken: approving, approving with conditions
/// and rejecting are each allowed, and the state is not terminal, so `transition_to` succeeds.
pub proof fn lemma_ready_allows_every_decision(to: LifecycleState)
    requires
        to == LifecycleState::Approved || to == LifecycleState::ApprovedWithConditions || to
            == LifecycleState::Rejected,
    ensures
        !is_terminal(LifecycleState::ReadyForDecision),
        transition_allowed(LifecycleState::ReadyForDecision, to),
{
}

/// A decision (approve, approve with conditions, reject) is only ever taken from
/// `ReadyForDecision`.
pub proof fn lemma_decisions_need_readiness(from: LifecycleState, to: LifecycleState)
    requires
        transition_allowed(from, to),
        to == LifecycleState::Approved || to == LifecycleState::ApprovedWithConditions || to
            == LifecycleState::Rejected,
    ensures
        from == LifecycleState::ReadyForDecision,
{
}

} // verus!
