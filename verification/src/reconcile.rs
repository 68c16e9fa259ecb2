//! The reconcile loop: one consumer loop drives a desired set of steps to done by composing
//! three bricks.
//!
//! - **suunta** plans the residual (which steps remain) and decides convergence;
//! - a lease registry (the reference `pacta-memory` backend, or any [`LeaseRegistry`]) owns each
//!   step's claim -> execute -> settle, with a deferred release for backed-off retry;
//! - **shaahid** witnesses each step attempt so its side effect happens exactly once, even when
//!   a claim is reclaimed after the work already succeeded.
//!
//! A step's actual work is delegated to a [`StepRunner`]: the loop acts only on the outcome it
//! returns, never deciding success itself.

use vstd::prelude::*;
use vstd::utf8::encode_utf8;

use core::time::Duration;

use pacta_memory::MemoryRegistry;

use crate::agent::{AgentAdapter, AgentError, AgentRequest, AgentResponse, AgentRole};

use crate::ids::{id_v5_oid, uuid_v5_oid};
use crate::lease::{claimable, held_by, seeded_slots, Issued, Issuing, Lease, LeaseRegistry, PactSpec, Slot};
use crate::residual_plan::{
    certified, finding_views, lemma_retained_all, lemma_retained_bounded, lemma_retained_increasing,
    lemma_retained_member, plan, retained, target_views,
};

verus! {

broadcast use vstd::utf8::encode_utf8_decode_utf8;

const LEASE_MILLIS: u64 = 1000;

const BACKOFF_MILLIS: u64 = 500;

/// Advance per cycle past both the lease and the backoff, so a released or lapsed step is
/// reclaimable on the next cycle.
const TICK_MILLIS: u64 = 1500;

/// The loop's own safety bound on cycles.
pub const MAX_CYCLES: usize = 32;

/// How a scripted step behaves, to exercise each brick's edge.
#[derive(Clone, Copy, Debug, PartialEq, Eq, Structural)]
pub enum StepMode {
    /// Succeeds on the first attempt.
    Normal,
    /// Fails its first attempt (a release and a retry), then succeeds.
    FailsFirst,
    /// Succeeds but its settlement is lost once, so the lease lapses and it is reclaimed; the
    /// witness must turn the re-execution into a no-op.
    LapsesAfterSuccess,
}

/// A unit of work: its stable identity (its sigil, seal and docket) and its scripted behaviour.
#[derive(Clone, Debug)]
pub struct StepSpec {
    pub id: String,
    pub mode: StepMode,
}

impl StepSpec {
    /// A step of a given mode.
    pub fn new(id: &str, mode: StepMode) -> (s: StepSpec)
        ensures
            s.id@ == id@,
            s.mode == mode,
    {
        StepSpec { id: String::from_str(id), mode }
    }
}

/// The result of running a step's work.
#[derive(Clone, Copy, Debug, PartialEq, Eq, Structural)]
pub enum StepOutcome {
    /// The step's work completed.
    Succeeded,
    /// The step's work did not complete; the loop retries it after a backoff.
    Failed,
}

/// The seam by which the loop performs a step's work: do it, and say whether it succeeded.
///
/// A runner that follows a fixed script says so through [`StepRunner::scripted`]; its outcomes
/// are then stated by [`StepRunner::failures`]. A runner doing real work promises nothing.
pub trait StepRunner {
    /// Whether this runner follows a fixed script of failures.
    spec fn scripted(&self) -> bool;

    /// For a scripted runner: how many of its next attempts at the step `id` fail.
    spec fn failures(&self, id: Seq<char>) -> nat;

    /// Performs `step`'s work and reports whether it succeeded. A scripted runner fails the
    /// attempt exactly when failures of the step remain in its script, and then strikes one.
    fn run(&mut self, step: &StepSpec) -> (outcome: StepOutcome)
        ensures
            old(self).scripted() ==> {
                &&& final(self).scripted()
                &&& outcome == if old(self).failures(step.id@) > 0 {
                    StepOutcome::Failed
                } else {
                    StepOutcome::Succeeded
                }
                &&& forall|x: Seq<char>|
                    #[trigger] final(self).failures(x) == if x == step.id@ && old(self).failures(x) > 0 {
                        (old(self).failures(x) - 1) as nat
                    } else {
                        old(self).failures(x)
                    }
            },
    ;
}

/// Whether `v` holds a string with the characters `s`.
pub open spec fn lists(v: Seq<String>, s: Seq<char>) -> bool {
    exists|i: int| 0 <= i < v.len() && #[trigger] v[i]@ == s
}

/// Whether `executions` counts the step `s`.
pub open spec fn executed(executions: Seq<(String, u32)>, s: Seq<char>) -> bool {
    exists|i: int| 0 <= i < executions.len() && #[trigger] executions[i].0@ == s
}

/// Whether `s` is the id of one of `steps`.
pub open spec fn is_step(steps: Seq<StepSpec>, s: Seq<char>) -> bool {
    exists|i: int| 0 <= i < steps.len() && #[trigger] steps[i].id@ == s
}

/// No two steps share an id.
pub open spec fn distinct_ids(steps: Seq<StepSpec>) -> bool {
    forall|i: int, j: int| 0 <= i < j < steps.len() ==> #[trigger] steps[i].id@ != #[trigger] steps[j].id@
}

/// The ids of the steps of mode `mode`, in order.
pub open spec fn ids_of_mode(steps: Seq<StepSpec>, mode: StepMode) -> Seq<Seq<char>>
    decreases steps.len(),
{
    if steps.len() == 0 {
        Seq::empty()
    } else if steps.last().mode == mode {
        ids_of_mode(steps.drop_last(), mode).push(steps.last().id@)
    } else {
        ids_of_mode(steps.drop_last(), mode)
    }
}

/// A runner scripted from step modes: a `FailsFirst` step fails its first attempt, then
/// succeeds; every other step succeeds.
pub struct ScriptedRunner {
    failing_once: Vec<String>,
}

impl ScriptedRunner {
    /// The ids whose next attempt fails.
    pub closed spec fn pending(&self) -> Seq<Seq<char>> {
        self.failing_once@.map_values(|s: String| s@)
    }

    /// A runner failing once each step of mode `FailsFirst`.
    pub fn from_modes(steps: &Vec<StepSpec>) -> (r: ScriptedRunner)
        ensures
            r.pending() == ids_of_mode(steps@, StepMode::FailsFirst),
    {
        let mut failing_once: Vec<String> = Vec::new();
        let mut i: usize = 0;
        while i < steps.len()
            invariant
                i <= steps@.len(),
                failing_once@.map_values(|s: String| s@) == ids_of_mode(
                    steps@.subrange(0, i as int),
                    StepMode::FailsFirst,
                ),
            decreases steps@.len() - i,
        {
            proof {
                let next = steps@.subrange(0, i + 1);
                assert(next.drop_last() =~= steps@.subrange(0, i as int));
                assert(next.last() == steps@[i as int]);
            }
            if steps[i].mode == StepMode::FailsFirst {
                failing_once.push(steps[i].id.clone());
                proof {
                    assert(failing_once@.map_values(|s: String| s@) =~= ids_of_mode(
                        steps@.subrange(0, i as int),
                        StepMode::FailsFirst,
                    ).push(steps@[i as int].id@));
                }
            }
            i = i + 1;
        }
        proof {
            assert(steps@.subrange(0, steps@.len() as int) =~= steps@);
        }
        ScriptedRunner { failing_once }
    }
}

proof fn lemma_pending_has(r: &ScriptedRunner, x: Seq<char>)
    ensures
        r.pending().contains(x) == lists(r.failing_once@, x),
{
    if lists(r.failing_once@, x) {
        let i = choose|i: int| 0 <= i < r.failing_once@.len() && #[trigger] r.failing_once@[i]@ == x;
        assert(r.pending()[i] == x);
    }
    if r.pending().contains(x) {
        let i = choose|i: int| 0 <= i < r.pending().len() && r.pending()[i] == x;
        assert(r.failing_once@[i]@ == x);
    }
}

impl StepRunner for ScriptedRunner {
    open spec fn scripted(&self) -> bool {
        true
    }

    open spec fn failures(&self, id: Seq<char>) -> nat {
        if self.pending().contains(id) {
            1
        } else {
            0
        }
    }

    fn run(&mut self, step: &StepSpec) -> (outcome: StepOutcome) {
        proof {
            lemma_pending_has(&*self, step.id@);
        }
        let ghost before = *self;
        let failing = remove_str(&mut self.failing_once, &step.id);
        proof {
            assert forall|x: Seq<char>| #[trigger] self.failures(x) == if x == step.id@ && before.failures(x) > 0 {
                (before.failures(x) - 1) as nat
            } else {
                before.failures(x)
            } by {
                lemma_pending_has(&before, x);
                lemma_pending_has(&*self, x);
            }
        }
        if failing {
            StepOutcome::Failed
        } else {
            StepOutcome::Succeeded
        }
    }
}

/// Whether `v` holds a string equal to `s`.
fn contains_str(v: &Vec<String>, s: &String) -> (b: bool)
    ensures
        b == lists(v@, s@),
{
    let mut i: usize = 0;
    while i < v.len()
        invariant
            i <= v@.len(),
            forall|j: int| 0 <= j < i ==> #[trigger] v@[j]@ != s@,
        decreases v@.len() - i,
    {
        if v[i] == *s {
            return true;
        }
        i = i + 1;
    }
    false
}

/// Adds `s` to the set `v` unless it is already there.
fn insert_str(v: &mut Vec<String>, s: &String)
    ensures
        forall|x: Seq<char>| #[trigger] lists(final(v)@, x) == (lists(old(v)@, x) || x == s@),
{
    if !contains_str(v, s) {
        let ghost before = v@;
        v.push(s.clone());
        proof {
            assert forall|x: Seq<char>| #[trigger] lists(v@, x) == (lists(before, x) || x == s@) by {
                if lists(v@, x) && x != s@ {
                    let i = choose|i: int| 0 <= i < v@.len() && #[trigger] v@[i]@ == x;
                    assert(before[i]@ == x);
                }
                if lists(before, x) {
                    let i = choose|i: int| 0 <= i < before.len() && #[trigger] before[i]@ == x;
                    assert(v@[i]@ == x);
                }
                if x == s@ {
                    assert(v@[before.len() as int]@ == x);
                }
            }
        }
    }
}

/// Removes every copy of `s` from `v`, reporting whether there was one.
fn remove_str(v: &mut Vec<String>, s: &String) -> (found: bool)
    ensures
        found == lists(old(v)@, s@),
        forall|x: Seq<char>| #[trigger] lists(final(v)@, x) == (lists(old(v)@, x) && x != s@),
        final(v)@.map_values(|t: String| t@) == old(v)@.map_values(|t: String| t@).filter(
            |t: Seq<char>| t != s@,
        ),
{
    let ghost before = v@;
    let mut kept: Vec<String> = Vec::new();
    let mut found = false;
    let mut i: usize = 0;
    while i < v.len()
        invariant
            v@ == before,
            i <= before.len(),
            found == exists|j: int| 0 <= j < i && #[trigger] before[j]@ == s@,
            kept@.map_values(|t: String| t@) == before.subrange(0, i as int).map_values(
                |t: String| t@,
            ).filter(|t: Seq<char>| t != s@),
        decreases before.len() - i,
    {
        proof {
            let pre = before.subrange(0, i + 1).map_values(|t: String| t@);
            assert(pre.drop_last() =~= before.subrange(0, i as int).map_values(|t: String| t@));
            assert(pre.last() == before[i as int]@);
            reveal(Seq::filter);
        }
        if v[i] == *s {
            found = true;
        } else {
            kept.push(v[i].clone());
            proof {
                assert(kept@.map_values(|t: String| t@) =~= before.subrange(0, i as int).map_values(
                    |t: String| t@,
                ).filter(|t: Seq<char>| t != s@).push(before[i as int]@));
            }
        }
        i = i + 1;
    }
    proof {
        assert(before.subrange(0, before.len() as int) =~= before);
    }
    *v = kept;
    proof {
        let f = |t: Seq<char>| t != s@;
        let bm = before.map_values(|t: String| t@);
        bm.filter_lemma(f);
        assert forall|x: Seq<char>| #[trigger] lists(v@, x) == (lists(before, x) && x != s@) by {
            let vm = v@.map_values(|t: String| t@);
            if lists(v@, x) {
                let i = choose|i: int| 0 <= i < v@.len() && #[trigger] v@[i]@ == x;
                assert(vm[i] == x);
                assert(f(vm[i]));
                assert(vm.contains(x));
                bm.lemma_filter_contains_rev(f, x);
                let j = choose|j: int| 0 <= j < bm.len() && bm[j] == x;
                assert(before[j]@ == x);
            }
            if lists(before, x) && x != s@ {
                let j = choose|j: int| 0 <= j < before.len() && #[trigger] before[j]@ == x;
                assert(bm[j] == x);
                assert(vm.contains(x));
                let i = choose|i: int| 0 <= i < vm.len() && vm[i] == x;
                assert(v@[i]@ == x);
            }
        }
    }
    found
}


/// A step attempt as the witness sees it: its seal (the step id) and its fingerprint (the
/// id's bytes).
#[derive(Clone, Debug)]
pub struct StepDeed {
    pub seal: String,
    pub fingerprint: Vec<u8>,
}

/// Whether a deed with seal `seal` has been witnessed.
pub open spec fn seal_seen(ledger: Seq<StepDeed>, seal: Seq<char>) -> bool {
    exists|j: int| 0 <= j < ledger.len() && #[trigger] ledger[j].seal@ == seal
}

/// A witnessed deed contradicts an incoming one when exactly one of seal and fingerprint
/// agrees (a drifted fingerprint or a split seal).
pub open spec fn mismatched(past: StepDeed, incoming: StepDeed) -> bool {
    (past.seal@ == incoming.seal@) != (past.fingerprint@ == incoming.fingerprint@)
}

/// How many witnessed deeds the incoming one contradicts.
pub open spec fn contradiction_count(ledger: Seq<StepDeed>, incoming: StepDeed) -> nat
    decreases ledger.len(),
{
    if ledger.len() == 0 {
        0
    } else {
        contradiction_count(ledger.drop_last(), incoming) + if mismatched(ledger.last(), incoming) {
            1nat
        } else {
            0nat
        }
    }
}

/// `shaahid::witness` over the witnessed deeds and an incoming one. As its source shows: the
/// attestation is `Attach` exactly when some witnessed deed has the same seal, and one
/// contradiction is raised per witnessed deed with the same seal but another fingerprint, or
/// another seal but the same fingerprint. Returns whether it attached and how many
/// contradictions it raised.
#[verifier::external_body]
fn witness_deed(ledger: &Vec<StepDeed>, incoming: &StepDeed) -> (r: (bool, usize))
    ensures
        r.0 == seal_seen(ledger@, incoming.seal@),
        r.1 == contradiction_count(ledger@, *incoming),
{
    let past: Vec<shaahid::Deed<String>> = ledger.iter().map(|d| {
        shaahid::Deed::new(d.seal.clone(), shaahid::Fingerprint::new(d.fingerprint.clone()))
    }).collect();
    let outcome = shaahid::witness(
        &past,
        shaahid::Deed::new(incoming.seal.clone(), shaahid::Fingerprint::new(incoming.fingerprint.clone())),
    );
    let attached = match outcome.attestation {
        shaahid::Attestation::Attach(_) => true,
        shaahid::Attestation::Create => false,
    };
    (attached, outcome.contradictions.len())
}

/// A deed whose fingerprint is the bytes of its seal.
pub open spec fn step_deed(d: StepDeed) -> bool {
    d.fingerprint@ == encode_utf8(d.seal@)
}

/// Deeds that fingerprint their own seal never contradict one another: the encoding of a
/// string determines it.
proof fn lemma_step_deeds_agree(ledger: Seq<StepDeed>, incoming: StepDeed)
    requires
        step_deed(incoming),
        forall|j: int| 0 <= j < ledger.len() ==> step_deed(#[trigger] ledger[j]),
    ensures
        contradiction_count(ledger, incoming) == 0,
    decreases ledger.len(),
{
    if ledger.len() > 0 {
        let rest = ledger.drop_last();
        assert forall|j: int| 0 <= j < rest.len() implies step_deed(#[trigger] rest[j]) by {
            assert(rest[j] == ledger[j]);
        }
        lemma_step_deeds_agree(rest, incoming);
        let last = ledger.last();
        assert(step_deed(ledger[ledger.len() - 1]));
        if last.fingerprint@ == incoming.fingerprint@ {
            assert(last.seal@ == incoming.seal@) by {
                assert(vstd::utf8::decode_utf8(encode_utf8(last.seal@)) == last.seal@);
                assert(vstd::utf8::decode_utf8(encode_utf8(incoming.seal@)) == incoming.seal@);
            }
        }
    }
}

/// The deed witnessing an attempt at `step`: sealed by the step id, fingerprinted by its bytes.
pub fn deed_for_step(step: &StepSpec) -> (d: StepDeed)
    ensures
        d.seal@ == step.id@,
        d.fingerprint@ == encode_utf8(step.id@),
{
    StepDeed { seal: step.id.clone(), fingerprint: vstd::slice::slice_to_vec(step.id.as_str().as_bytes()) }
}

/// The pact for `step`, on its own docket (so it is individually claimable): identified by the
/// version-5 UUID of its id in the OID namespace, of kind `step`, with the id's bytes as its
/// clause.
pub fn step_to_pact(step: &StepSpec) -> (p: PactSpec)
    ensures
        p.id == uuid_v5_oid(encode_utf8(step.id@)),
        p.docket@ == step.id@,
        p.kind@ == "step"@,
        p.clause@ == encode_utf8(step.id@),
{
    let bytes = step.id.as_str().as_bytes();
    PactSpec {
        id: id_v5_oid(bytes),
        docket: step.id.clone(),
        kind: String::from_str("step"),
        clause: vstd::slice::slice_to_vec(bytes),
    }
}

/// The observable outcome of a reconcile run.
#[derive(Debug)]
pub struct Report {
    /// Cycles the loop ran.
    pub cycles: usize,
    /// Whether suunta reported the run converged (rather than the loop reaching its bound).
    pub converged: bool,
    /// Per step, how many times its side effect executed.
    pub executions: Vec<(String, u32)>,
    /// Steps that failed an attempt and were retried after a deferred release.
    pub retried: Vec<String>,
    /// Steps whose re-execution after a lapse the witness suppressed.
    pub deduplicated: Vec<String>,
    /// The holders the registry handed out for granted claims, as the registry recorded them.
    pub issued: Issued,
}

/// No side effect ran twice: every counted step ran once, and no step is counted twice.
pub open spec fn exactly_once(executions: Seq<(String, u32)>) -> bool {
    &&& forall|k: int| 0 <= k < executions.len() ==> #[trigger] executions[k].1 == 1
    &&& forall|k1: int, k2: int|
        0 <= k1 < k2 < executions.len() ==> #[trigger] executions[k1].0@ != #[trigger] executions[k2].0@
}

/// What every reconcile run guarantees, whatever the runner and the registry.
pub open spec fn reconcile_laws(steps: Seq<StepSpec>, r: Report) -> bool {
    &&& exactly_once(r.executions@)
    &&& forall|k: int| 0 <= k < r.executions@.len() ==> is_step(steps, #[trigger] r.executions@[k].0@)
    &&& forall|k: int| 0 <= k < r.retried@.len() ==> is_step(steps, #[trigger] r.retried@[k]@)
    &&& forall|k: int|
        0 <= k < r.deduplicated@.len() ==> executed(r.executions@, #[trigger] r.deduplicated@[k]@)
    &&& r.converged ==> forall|i: int|
        0 <= i < steps.len() ==> executed(r.executions@, #[trigger] steps[i].id@)
    &&& 1 <= r.cycles <= MAX_CYCLES
    &&& !r.converged ==> r.cycles == MAX_CYCLES
    &&& steps.len() > 0 ==> r.cycles >= 2
    &&& distinct_ids(steps) ==> forall|i: int|
        0 <= i < steps.len() ==> executed(r.executions@, #[trigger] steps[i].id@) || lists(
            r.retried@,
            steps[i].id@,
        )
}

/// What a scripted runner's first cycle settles: over distinct ids, a step its script fails
/// is retried, every other step has executed.
pub open spec fn scripted_first_cycle<S: StepRunner>(steps: Seq<StepSpec>, runner: S, r: Report) -> bool {
    distinct_ids(steps) ==> forall|i: int|
        0 <= i < steps.len() ==> if runner.failures(#[trigger] steps[i].id@) > 0 {
            lists(r.retried@, steps[i].id@)
        } else {
            executed(r.executions@, steps[i].id@)
        }
}

/// The satisfaction finding of each target: satisfied exactly when it is done.
fn findings_for(ids: &Vec<String>, done: &Vec<String>) -> (f: Vec<(String, bool)>)
    ensures
        f@.len() == ids@.len(),
        forall|j: int|
            0 <= j < ids@.len() ==> (#[trigger] f@[j]).0@ == ids@[j]@ && f@[j].1 == lists(done@, ids@[j]@),
{
    let mut f: Vec<(String, bool)> = Vec::new();
    let mut i: usize = 0;
    while i < ids.len()
        invariant
            i <= ids@.len(),
            f@.len() == i,
            forall|j: int|
                0 <= j < i ==> (#[trigger] f@[j]).0@ == ids@[j]@ && f@[j].1 == lists(done@, ids@[j]@),
        decreases ids@.len() - i,
    {
        let satisfied = contains_str(done, &ids[i]);
        f.push((ids[i].clone(), satisfied));
        i = i + 1;
    }
    f
}

/// With findings that mark a target satisfied exactly when it is done, suunta certifies a
/// target exactly when it is done.
proof fn lemma_certified_iff_done(
    ids: Seq<String>,
    findings: Seq<(String, bool)>,
    done: Seq<String>,
)
    requires
        findings.len() == ids.len(),
        forall|j: int|
            0 <= j < ids.len() ==> (#[trigger] findings[j]).0@ == ids[j]@ && findings[j].1 == lists(done, ids[j]@),
    ensures
        forall|i: int|
            0 <= i < ids.len() ==> certified(finding_views(findings), #[trigger] ids[i]@) == lists(
                done,
                ids[i]@,
            ),
{
    let fv = finding_views(findings);
    assert forall|i: int| 0 <= i < ids.len() implies certified(fv, #[trigger] ids[i]@) == lists(
        done,
        ids[i]@,
    ) by {
        assert(fv[i] == (findings[i].0@, findings[i].1));
        if lists(done, ids[i]@) {
            assert forall|j: int| 0 <= j < fv.len() && #[trigger] fv[j].0 == ids[i]@ implies fv[j].1 by {
                assert(fv[j] == (findings[j].0@, findings[j].1));
            }
            assert(fv[i].0 == ids[i]@ && fv[i].1);
            assert(certified(fv, ids[i]@));
        }
        if certified(fv, ids[i]@) {
            let j = choose|j: int| 0 <= j < fv.len() && #[trigger] fv[j].0 == ids[i]@ && fv[j].1;
            assert(fv[j] == (findings[j].0@, findings[j].1));
        }
    }
}


/// The loop's consumer state: the registry, the witnessed deeds, and what it has observed.
struct LoopState<R> {
    registry: R,
    ledger: Vec<StepDeed>,
    done: Vec<String>,
    executions: Vec<(String, u32)>,
    retried: Vec<String>,
    deduplicated: Vec<String>,
    lapse_once: Vec<String>,
}

impl<R: LeaseRegistry> LoopState<R> {
    /// The state is coherent with `steps`: one slot per step on the step's docket; each
    /// counted step ran once and is exactly a witnessed seal; every witnessed deed fingerprints
    /// its seal; whatever is done has executed; and every recorded id is a step's.
    spec fn wf(self, steps: Seq<StepSpec>) -> bool {
        &&& self.registry.slots().len() == steps.len()
        &&& forall|j: int| 0 <= j < steps.len() ==> #[trigger] self.registry.slots()[j].0 == steps[j].id@
        &&& exactly_once(self.executions@)
        &&& forall|s: Seq<char>|
            #![trigger executed(self.executions@, s)]
            #![trigger seal_seen(self.ledger@, s)]
            executed(self.executions@, s) == seal_seen(self.ledger@, s)
        &&& forall|k: int|
            0 <= k < self.executions@.len() ==> is_step(steps, #[trigger] self.executions@[k].0@)
        &&& forall|k: int| 0 <= k < self.ledger@.len() ==> step_deed(#[trigger] self.ledger@[k])
        &&& forall|s: Seq<char>| #[trigger] lists(self.done@, s) ==> executed(self.executions@, s)
        &&& forall|s: Seq<char>| #[trigger] lists(self.retried@, s) ==> is_step(steps, s)
        &&& forall|s: Seq<char>| #[trigger] lists(self.deduplicated@, s) ==> executed(self.executions@, s)
    }
}

/// No slot but `idx` is held by `h`.
spec fn fresh_for(slots: Seq<Slot>, idx: int, h: u128) -> bool {
    forall|j: int| 0 <= j < slots.len() && j != idx ==> !held_by(#[trigger] slots[j].1, h)
}

/// What a freshly held claim of step `x` at slot `idx` does in a scripted run: an already
/// witnessed step is deduplicated and settled; otherwise the runner decides, and a failure is
/// retried and deferred, a success executed and witnessed, then settled and done unless its
/// settlement is lost once (the slot then stays held by `h`).
spec fn fresh_attempt<R: LeaseRegistry, S: StepRunner>(
    o: LoopState<R>,
    f: LoopState<R>,
    ro: S,
    rf: S,
    x: Seq<char>,
    idx: int,
    h: u128,
    now: u64,
) -> bool {
    let so = o.registry.slots();
    let sf = f.registry.slots();
    let seen = seal_seen(o.ledger@, x);
    let fails = ro.failures(x) > 0;
    let lapsed = lists(o.lapse_once@, x);
    &&& sf.len() == so.len()
    &&& forall|j: int| 0 <= j < so.len() && j != idx ==> #[trigger] sf[j] == so[j]
    &&& sf[idx].0 == so[idx].0
    &&& sf[idx].1 == if seen {
        Lease::Settled
    } else if fails {
        Lease::Deferred { at: (now + BACKOFF_MILLIS) as u64 }
    } else if lapsed {
        Lease::Held { holder: h, expiry: crate::lease::later(now, o.registry.lease()) }
    } else {
        Lease::Settled
    }
    &&& forall|y: Seq<char>|
        #[trigger] lists(f.done@, y) == (lists(o.done@, y) || (y == x && (seen || (!fails && !lapsed))))
    &&& forall|y: Seq<char>| #[trigger] lists(f.retried@, y) == (lists(o.retried@, y) || (y == x && !seen && fails))
    &&& forall|y: Seq<char>| #[trigger] lists(f.deduplicated@, y) == (lists(o.deduplicated@, y) || (y == x && seen))
    &&& forall|y: Seq<char>| #[trigger] seal_seen(f.ledger@, y) == (seal_seen(o.ledger@, y) || (y == x && !seen && !fails))
    &&& forall|y: Seq<char>| #[trigger] lists(f.lapse_once@, y) == (lists(o.lapse_once@, y) && !(y == x && !seen && !fails))
    &&& forall|y: Seq<char>| #[trigger] rf.failures(y) == if y == x && !seen && ro.failures(y) > 0 {
        (ro.failures(y) - 1) as nat
    } else {
        ro.failures(y)
    }
    &&& rf.scripted()
}

/// A holder that no other slot holds, once it holds `idx`, is held first at `idx`.
proof fn lemma_fresh_holder(slots0: Seq<Slot>, slots1: Seq<Slot>, idx: int, h: u128, i: int)
    requires
        0 <= idx < slots0.len(),
        fresh_for(slots0, idx, h),
        slots1.len() == slots0.len(),
        forall|j: int| 0 <= j < slots0.len() && j != idx ==> slots1[j] == slots0[j],
        crate::lease::first_held(slots1, h, i),
    ensures
        i == idx,
{
    if i != idx {
        assert(slots1[i] == slots0[i]);
    }
}

proof fn lemma_seal_seen_push(le: Seq<StepDeed>, d: StepDeed, y: Seq<char>)
    ensures
        seal_seen(le.push(d), y) == (seal_seen(le, y) || y == d.seal@),
{
    let n = le.push(d);
    if seal_seen(n, y) && y != d.seal@ {
        let k = choose|k: int| 0 <= k < n.len() && #[trigger] n[k].seal@ == y;
        assert(le[k].seal@ == y);
    }
    if seal_seen(le, y) {
        let k = choose|k: int| 0 <= k < le.len() && #[trigger] le[k].seal@ == y;
        assert(n[k].seal@ == y);
    }
    if y == d.seal@ {
        assert(n[le.len() as int].seal@ == y);
    }
}

/// A settlement by the holder of a just-claimed slot touches one held slot, so every slot held
/// afterwards was held before or is held by that holder.
proof fn lemma_settle_frame(slots0: Seq<Slot>, slots1: Seq<Slot>, slots2: Seq<Slot>, claimed: int, h: u128, next: Lease)
    requires
        0 <= claimed < slots0.len(),
        slots1 == slots0.update(claimed, (slots0[claimed].0, slots1[claimed].1)),
        held_by(slots1[claimed].1, h),
        !(next is Held),
        exists|i: int| crate::lease::first_held(slots1, h, i) && slots2 == slots1.update(i, (slots1[i].0, next)),
    ensures
        slots2.len() == slots0.len(),
        forall|j: int, g: u128| 0 <= j < slots0.len() && #[trigger] held_by(slots2[j].1, g) ==> held_by(slots0[j].1, g) || h == g,
        forall|j: int| 0 <= j < slots0.len() ==> (#[trigger] slots2[j]).0 == slots0[j].0,
{
    let i = choose|i: int| crate::lease::first_held(slots1, h, i) && slots2 == slots1.update(i, (slots1[i].0, next));
    assert forall|j: int, g: u128| 0 <= j < slots0.len() && #[trigger] held_by(slots2[j].1, g) implies held_by(slots0[j].1, g) || h == g by {
        if j != claimed && j != i {
            assert(slots2[j] == slots0[j]);
        }
    }
}

/// One attempt at the step `steps[idx]` within a cycle at `now`: claim it, witness it, and act
/// on the witness and on the runner's outcome.
///
/// Beyond keeping the state coherent, an attempt only adds to what has executed and what was
/// retried, touches no available slot of another docket, witnesses no other seal, and moves no
/// other step of a scripted runner's script. A fresh attempt (the step's slot available and
/// its seal unwitnessed, over distinct ids) reaches the runner: the step either executes or is
/// retried, as a scripted runner's script says.
fn attempt<R: LeaseRegistry, S: StepRunner>(
    st: &mut LoopState<Issuing<R>>,
    steps: &Vec<StepSpec>,
    idx: usize,
    now: u64,
    runner: &mut S,
) -> (held: Option<u128>)
    requires
        old(st).wf(steps@),
        idx < steps@.len(),
        now <= u64::MAX - BACKOFF_MILLIS,
    ensures
        final(st).wf(steps@),
        final(st).registry.issued() == match held {
            Some(h) => old(st).registry.issued().push(h),
            None => old(st).registry.issued(),
        },
        forall|s: Seq<char>|
            executed(old(st).executions@, s) ==> #[trigger] executed(final(st).executions@, s),
        forall|s: Seq<char>| lists(old(st).retried@, s) ==> #[trigger] lists(final(st).retried@, s),
        forall|j: int|
            0 <= j < steps@.len() && old(st).registry.slots()[j].1 == Lease::Available
                && old(st).registry.slots()[j].0 != steps@[idx as int].id@
                ==> #[trigger] final(st).registry.slots()[j].1 == Lease::Available,
        forall|s: Seq<char>|
            s != steps@[idx as int].id@ ==> #[trigger] seal_seen(final(st).ledger@, s) == seal_seen(
                old(st).ledger@,
                s,
            ),
        old(runner).scripted() ==> final(runner).scripted(),
        old(runner).scripted() ==> forall|x: Seq<char>|
            x != steps@[idx as int].id@ ==> #[trigger] final(runner).failures(x) == old(
                runner,
            ).failures(x),
        final(st).registry.lease() == old(st).registry.lease(),
        forall|j: int, g: u128|
            0 <= j < steps@.len() && #[trigger] held_by(final(st).registry.slots()[j].1, g) ==> held_by(
                old(st).registry.slots()[j].1,
                g,
            ) || held == Some(g),
        distinct_ids(steps@) && claimable(old(st).registry.slots()[idx as int].1, now) ==> held is Some,
        distinct_ids(steps@) && old(runner).scripted() ==> (held matches Some(h) ==> fresh_for(
            old(st).registry.slots(),
            idx as int,
            h,
        ) ==> fresh_attempt(
            *old(st),
            *final(st),
            *old(runner),
            *final(runner),
            steps@[idx as int].id@,
            idx as int,
            h,
            now,
        )),
        distinct_ids(steps@) && old(st).registry.slots()[idx as int].1 == Lease::Available
            && !seal_seen(old(st).ledger@, steps@[idx as int].id@) ==> {
            &&& executed(final(st).executions@, steps@[idx as int].id@) || lists(
                final(st).retried@,
                steps@[idx as int].id@,
            )
            &&& old(runner).scripted() ==> if old(runner).failures(steps@[idx as int].id@) > 0 {
                lists(final(st).retried@, steps@[idx as int].id@)
            } else {
                executed(final(st).executions@, steps@[idx as int].id@)
            }
        },
{
    let step = &steps[idx];
    let sigil = step.id.clone();
    let ghost id = steps@[idx as int].id@;
    let ghost slots0 = st.registry.slots();
    let held = st.registry.claim(sigil.as_str(), now);
    let holder = match held {
        Some(h) => h,
        None => {
            proof {
                if distinct_ids(steps@) && (slots0[idx as int].1 == Lease::Available || claimable(
                    slots0[idx as int].1,
                    now,
                )) {
                    assert(slots0[idx as int].0 == id && claimable(slots0[idx as int].1, now));
                }
            }
            return None;
        },
    };
    let ghost slots1 = st.registry.slots();
    let ghost st0 = *old(st);
    let ghost r0 = *old(runner);
    let ghost claimed = choose|i: int|
        crate::lease::first_claimable(slots0, id, now, i) && slots1 == slots0.update(
            i,
            (id, Lease::Held { holder, expiry: crate::lease::later(now, st.registry.lease()) }),
        );
    proof {
        assert(held_by(slots1[claimed].1, holder));
        if distinct_ids(steps@) {
            assert(slots0[claimed].0 == steps@[claimed].id@);
            assert(claimed == idx);
        }
    }
    let deed = deed_for_step(step);
    let (attached, contradictions) = witness_deed(&st.ledger, &deed);
    proof {
        lemma_step_deeds_agree(st.ledger@, deed);
    }
    if contradictions > 0 {
        proof {
            assert forall|j: int, g: u128|
                0 <= j < steps@.len() && #[trigger] held_by(st.registry.slots()[j].1, g) implies held_by(
                    slots0[j].1,
                    g,
                ) || Some(holder) == Some(g) by {
                if j != claimed {
                    assert(slots1[j] == slots0[j]);
                }
            }
        }
        return Some(holder);
    }
    proof {
        assert(steps@[idx as int].id@ == id);
        assert(is_step(steps@, id));
    }
    if attached {
        proof {
            assert(seal_seen(st.ledger@, id));
            assert(executed(st.executions@, id));
        }
        insert_str(&mut st.deduplicated, &sigil);
        insert_str(&mut st.done, &sigil);
        let settled = st.registry.fulfill(holder);
        proof {
            assert(0 <= claimed < slots1.len() && held_by(slots1[claimed].1, holder));
            assert(settled);
            lemma_settle_frame(slots0, slots1, st.registry.slots(), claimed, holder, Lease::Settled);
            if distinct_ids(steps@) && r0.scripted() && fresh_for(slots0, idx as int, holder) {
                let i = choose|i: int|
                    crate::lease::first_held(slots1, holder, i) && st.registry.slots() == slots1.update(
                        i,
                        (slots1[i].0, Lease::Settled),
                    );
                lemma_fresh_holder(slots0, slots1, idx as int, holder, i);
            }
        }
    } else {
        match runner.run(step) {
            StepOutcome::Failed => {
                insert_str(&mut st.retried, &sigil);
                let released = st.registry.release(holder, now + BACKOFF_MILLIS);
                proof {
                    assert(0 <= claimed < slots1.len() && held_by(slots1[claimed].1, holder));
                    assert(released);
                    lemma_settle_frame(
                        slots0,
                        slots1,
                        st.registry.slots(),
                        claimed,
                        holder,
                        Lease::Deferred { at: (now + BACKOFF_MILLIS) as u64 },
                    );
                    if distinct_ids(steps@) && r0.scripted() && fresh_for(slots0, idx as int, holder) {
                        let i = choose|i: int|
                            crate::lease::first_held(slots1, holder, i) && st.registry.slots() == slots1.update(
                                i,
                                (slots1[i].0, Lease::Deferred { at: (now + BACKOFF_MILLIS) as u64 }),
                            );
                        lemma_fresh_holder(slots0, slots1, idx as int, holder, i);
                    }
                }
            },
            StepOutcome::Succeeded => {
                let ghost ex0 = st.executions@;
                let ghost le0 = st.ledger@;
                st.executions.push((sigil.clone(), 1));
                st.ledger.push(deed);
                proof {
                    assert(st.executions@[ex0.len() as int].0@ == id);
                    assert(st.ledger@[le0.len() as int].seal@ == id);
                    assert forall|s: Seq<char>|
                        #![trigger executed(st.executions@, s)]
                        #![trigger seal_seen(st.ledger@, s)]
                        executed(st.executions@, s) == seal_seen(st.ledger@, s) by {
                        if executed(st.executions@, s) && s != id {
                            let k = choose|k: int| 0 <= k < st.executions@.len() && #[trigger] st.executions@[k].0@ == s;
                            assert(ex0[k].0@ == s);
                            assert(executed(ex0, s));
                        }
                        if seal_seen(st.ledger@, s) && s != id {
                            let k = choose|k: int| 0 <= k < st.ledger@.len() && #[trigger] st.ledger@[k].seal@ == s;
                            assert(le0[k].seal@ == s);
                            assert(seal_seen(le0, s));
                        }
                        if executed(ex0, s) {
                            let k = choose|k: int| 0 <= k < ex0.len() && #[trigger] ex0[k].0@ == s;
                            assert(st.executions@[k].0@ == s);
                        }
                        if seal_seen(le0, s) {
                            let k = choose|k: int| 0 <= k < le0.len() && #[trigger] le0[k].seal@ == s;
                            assert(st.ledger@[k].seal@ == s);
                        }
                        assert(st.executions@[ex0.len() as int].0@ == id);
                        assert(st.ledger@[le0.len() as int].seal@ == id);
                    }
                    assert(!executed(ex0, id));
                    assert forall|k1: int, k2: int|
                        0 <= k1 < k2 < st.executions@.len() implies #[trigger] st.executions@[k1].0@
                            != #[trigger] st.executions@[k2].0@ by {
                        assert(st.executions@[k1] == ex0[k1]);
                        if k2 == ex0.len() {
                            assert(st.executions@[k2].0@ == id);
                            if ex0[k1].0@ == id {
                                assert(executed(ex0, id));
                            }
                        } else {
                            assert(st.executions@[k2] == ex0[k2]);
                            assert(ex0[k1].0@ != ex0[k2].0@);
                        }
                    }
                    assert forall|s: Seq<char>| executed(ex0, s) implies #[trigger] executed(st.executions@, s) by {
                        let k = choose|k: int| 0 <= k < ex0.len() && #[trigger] ex0[k].0@ == s;
                        assert(st.executions@[k].0@ == s);
                    }
                    assert(st.executions@[ex0.len() as int].0@ == id);
                    assert(executed(st.executions@, id));
                    assert forall|k: int| 0 <= k < st.executions@.len() implies is_step(
                        steps@,
                        #[trigger] st.executions@[k].0@,
                    ) by {
                        if k < ex0.len() {
                            assert(st.executions@[k] == ex0[k]);
                        }
                    }
                    assert forall|k: int| 0 <= k < st.ledger@.len() implies step_deed(#[trigger] st.ledger@[k]) by {
                        if k < le0.len() {
                            assert(st.ledger@[k] == le0[k]);
                        }
                    }
                }
                proof {
                    assert forall|y: Seq<char>| #[trigger] seal_seen(st.ledger@, y) == (seal_seen(le0, y) || y == id) by {
                        lemma_seal_seen_push(le0, deed, y);
                        assert(st.ledger@ == le0.push(deed));
                    }
                }
                let lapsed = remove_str(&mut st.lapse_once, &sigil);
                if !lapsed {
                    insert_str(&mut st.done, &sigil);
                    let settled = st.registry.fulfill(holder);
                    proof {
                        assert(0 <= claimed < slots1.len() && held_by(slots1[claimed].1, holder));
                        assert(settled);
                        lemma_settle_frame(slots0, slots1, st.registry.slots(), claimed, holder, Lease::Settled);
                        if distinct_ids(steps@) && r0.scripted() && fresh_for(slots0, idx as int, holder) {
                            let i = choose|i: int|
                                crate::lease::first_held(slots1, holder, i) && st.registry.slots() == slots1.update(
                                    i,
                                    (slots1[i].0, Lease::Settled),
                                );
                            lemma_fresh_holder(slots0, slots1, idx as int, holder, i);
                        }
                    }
                } else {
                    proof {
                        assert forall|j: int, g: u128|
                            0 <= j < steps@.len() && #[trigger] held_by(st.registry.slots()[j].1, g) implies held_by(
                                slots0[j].1,
                                g,
                            ) || Some(holder) == Some(g) by {
                            if j != claimed {
                                assert(slots1[j] == slots0[j]);
                            }
                        }
                    }
                }
            },
        }
    }
    Some(holder)
}

/// No holder was handed out twice.
pub open spec fn no_repeats(s: Seq<u128>) -> bool {
    forall|i: int, j: int| 0 <= i < j < s.len() ==> #[trigger] s[i] != #[trigger] s[j]
}

/// The cycles a step needs in a scripted run with fresh holders: one per scripted failure, one
/// for the success, and one more to deduplicate a settlement that was lost.
pub open spec fn settle_cycle(failures: nat, lapses: bool) -> nat {
    failures + 1 + if lapses {
        1nat
    } else {
        0nat
    }
}

/// The cycles step `x` needs under `runner`'s script, when `lapse` lists the steps whose first
/// settlement is lost.
pub open spec fn step_settle<S: StepRunner>(runner: S, lapse: Seq<String>, x: Seq<char>) -> nat {
    settle_cycle(runner.failures(x), lists(lapse, x))
}

/// The most cycles any of the steps needs (none for no steps).
pub open spec fn last_settle<S: StepRunner>(steps: Seq<StepSpec>, runner: S, lapse: Seq<String>) -> nat
    decreases steps.len(),
{
    if steps.len() == 0 {
        0
    } else {
        let rest = last_settle(steps.drop_last(), runner, lapse);
        let own = step_settle(runner, lapse, steps.last().id@);
        if rest < own {
            own
        } else {
            rest
        }
    }
}

/// `last_settle` bounds the cycles of every step, and some step needs exactly that many.
proof fn lemma_last_settle<S: StepRunner>(steps: Seq<StepSpec>, runner: S, lapse: Seq<String>)
    ensures
        forall|i: int|
            0 <= i < steps.len() ==> step_settle(runner, lapse, #[trigger] steps[i].id@) <= last_settle(
                steps,
                runner,
                lapse,
            ),
        steps.len() > 0 ==> exists|i: int|
            0 <= i < steps.len() && step_settle(runner, lapse, #[trigger] steps[i].id@) == last_settle(
                steps,
                runner,
                lapse,
            ),
    decreases steps.len(),
{
    if steps.len() > 0 {
        let rest = steps.drop_last();
        let n1 = steps.len() - 1;
        lemma_last_settle(rest, runner, lapse);
        assert forall|i: int| 0 <= i < steps.len() implies step_settle(runner, lapse, #[trigger] steps[i].id@)
            <= last_settle(steps, runner, lapse) by {
            if i < rest.len() {
                assert(rest[i] == steps[i]);
            }
        }
        if last_settle(rest, runner, lapse) < step_settle(runner, lapse, steps[n1].id@) {
            assert(step_settle(runner, lapse, steps[n1].id@) == last_settle(steps, runner, lapse));
        } else {
            let i = choose|i: int|
                0 <= i < rest.len() && step_settle(runner, lapse, #[trigger] rest[i].id@) == last_settle(
                    rest,
                    runner,
                    lapse,
                );
            assert(rest[i] == steps[i]);
            assert(step_settle(runner, lapse, steps[i].id@) == last_settle(steps, runner, lapse));
        }
    }
}

/// The scripted scenario: distinct step ids and a scripted runner, with every step needing
/// fewer cycles than the bound.
pub open spec fn scripted_scenario<S: StepRunner>(steps: Seq<StepSpec>, runner: S, lapse: Seq<String>) -> bool {
    &&& distinct_ids(steps)
    &&& runner.scripted()
    &&& last_settle(steps, runner, lapse) < MAX_CYCLES
}

/// Where step `x` (its slot in lease `l`) stands after `c` completed cycles of a scripted run
/// whose claims all got fresh holders: `r0` is the runner at the start and `lapse0` the steps
/// whose first settlement is lost. Its first `f` attempts fail and defer it, the next one
/// executes it, and a lost settlement is deduplicated a cycle later.
spec fn step_stage<R: LeaseRegistry, S: StepRunner>(
    st: LoopState<R>,
    runner: S,
    x: Seq<char>,
    r0: S,
    lapse0: Seq<String>,
    l: Lease,
    c: int,
) -> bool {
    let f = r0.failures(x);
    let lapses = lists(lapse0, x);
    let done = lists(st.done@, x);
    let seen = seal_seen(st.ledger@, x);
    let retried = lists(st.retried@, x);
    let dedup = lists(st.deduplicated@, x);
    let left = runner.failures(x);
    let lapse = lists(st.lapse_once@, x);
    if c == 0 {
        &&& l == Lease::Available
        &&& !done && !seen && !retried && !dedup
        &&& left == f && lapse == lapses
    } else if c <= f {
        &&& l == Lease::Deferred { at: ((c - 1) * 1500 + 500) as u64 }
        &&& !done && !seen && retried && !dedup
        &&& left == f - c && lapse == lapses
    } else if c == f + 1 && lapses {
        &&& l is Held && l->expiry == f * 1500 + 1000
        &&& !done && seen && !dedup && retried == (f > 0)
        &&& left == 0 && !lapse
    } else {
        &&& l == Lease::Settled && done && seen
        &&& retried == (f > 0) && dedup == lapses
        &&& left == 0 && !lapse
    }
}

/// Every step stands at stage `c`.
spec fn stage<R: LeaseRegistry, S: StepRunner>(
    st: LoopState<R>,
    runner: S,
    steps: Seq<StepSpec>,
    r0: S,
    lapse0: Seq<String>,
    c: int,
) -> bool {
    forall|i: int|
        0 <= i < steps.len() ==> step_stage(st, runner, #[trigger] steps[i].id@, r0, lapse0, st.registry.slots()[i].1, c)
}

/// `i` is among the first `k` entries of `course`.
spec fn in_prefix(course: Seq<usize>, k: int, i: int) -> bool {
    exists|p: int| 0 <= p < k && course[p] == i
}

/// A step is done after `c` cycles exactly when it needs no more than `c`.
proof fn lemma_stage_done<R: LeaseRegistry, S: StepRunner>(
    st: LoopState<R>,
    runner: S,
    x: Seq<char>,
    r0: S,
    lapse0: Seq<String>,
    l: Lease,
    c: int,
)
    requires
        0 <= c,
        step_stage(st, runner, x, r0, lapse0, l, c),
    ensures
        lists(st.done@, x) == (c >= step_settle(r0, lapse0, x)),
{
}

/// A fresh attempt at a step not yet done moves it one stage on.
proof fn lemma_stage_advance<R: LeaseRegistry, S: StepRunner>(
    o: LoopState<R>,
    f: LoopState<R>,
    ro: S,
    rf: S,
    x: Seq<char>,
    r0: S,
    lapse0: Seq<String>,
    idx: int,
    h: u128,
    now: u64,
    c: int,
)
    requires
        0 <= c < step_settle(r0, lapse0, x),
        c < MAX_CYCLES,
        now == c * 1500,
        0 <= idx < o.registry.slots().len(),
        o.registry.lease() == 1000,
        step_stage(o, ro, x, r0, lapse0, o.registry.slots()[idx].1, c),
        fresh_attempt(o, f, ro, rf, x, idx, h, now),
    ensures
        step_stage(f, rf, x, r0, lapse0, f.registry.slots()[idx].1, c + 1),
{
    let seen = seal_seen(o.ledger@, x);
    let fails = ro.failures(x) > 0;
    let lapsed = lists(o.lapse_once@, x);
    assert(lists(f.done@, x) == (lists(o.done@, x) || (seen || (!fails && !lapsed))));
    assert(lists(f.retried@, x) == (lists(o.retried@, x) || (!seen && fails)));
    assert(lists(f.deduplicated@, x) == (lists(o.deduplicated@, x) || seen));
    assert(seal_seen(f.ledger@, x) == (seal_seen(o.ledger@, x) || (!seen && !fails)));
    assert(lists(f.lapse_once@, x) == (lists(o.lapse_once@, x) && !(!seen && !fails)));
    assert(rf.failures(x) == if !seen && ro.failures(x) > 0 {
        (ro.failures(x) - 1) as nat
    } else {
        ro.failures(x)
    });
    assert(crate::lease::later(now, 1000) == now + 1000);
}

/// A fresh attempt at another step leaves this step where it stands.
proof fn lemma_stage_frame<R: LeaseRegistry, S: StepRunner>(
    o: LoopState<R>,
    f: LoopState<R>,
    ro: S,
    rf: S,
    x: Seq<char>,
    idx: int,
    h: u128,
    now: u64,
    y: Seq<char>,
    r0: S,
    lapse0: Seq<String>,
    l: Lease,
    c: int,
)
    requires
        y != x,
        step_stage(o, ro, y, r0, lapse0, l, c),
        fresh_attempt(o, f, ro, rf, x, idx, h, now),
    ensures
        step_stage(f, rf, y, r0, lapse0, l, c),
{
    assert(lists(f.done@, y) == lists(o.done@, y));
    assert(lists(f.retried@, y) == lists(o.retried@, y));
    assert(lists(f.deduplicated@, y) == lists(o.deduplicated@, y));
    assert(seal_seen(f.ledger@, y) == seal_seen(o.ledger@, y));
    assert(lists(f.lapse_once@, y) == lists(o.lapse_once@, y));
    assert(rf.failures(y) == ro.failures(y));
}

/// A done step stands the same after one cycle more.
proof fn lemma_stage_final<R: LeaseRegistry, S: StepRunner>(
    st: LoopState<R>,
    runner: S,
    x: Seq<char>,
    r0: S,
    lapse0: Seq<String>,
    l: Lease,
    c: int,
)
    requires
        c >= step_settle(r0, lapse0, x),
        step_stage(st, runner, x, r0, lapse0, l, c),
    ensures
        step_stage(st, runner, x, r0, lapse0, l, c + 1),
{
}

/// A run's outcome in the scripted scenario with fresh holders: it converged in the cycle after
/// the one that finished the last step, retried exactly the steps the script fails at least
/// once, and deduplicated exactly the steps whose first settlement was lost.
pub open spec fn converges_as_run<S: StepRunner>(
    steps: Seq<StepSpec>,
    runner: S,
    lapse: Seq<String>,
    r: Report,
) -> bool {
    &&& r.converged
    &&& r.cycles == last_settle(steps, runner, lapse) + 1
    &&& forall|i: int|
        0 <= i < steps.len() ==> lists(r.retried@, #[trigger] steps[i].id@) == (runner.failures(steps[i].id@) > 0)
    &&& forall|i: int|
        0 <= i < steps.len() ==> lists(r.deduplicated@, #[trigger] steps[i].id@) == lists(lapse, steps[i].id@)
}

/// The cycles a run of steps scripted by their modes takes: one to find nothing to do, two when
/// every step succeeds at once, three when a step fails first or loses its settlement.
pub open spec fn scripted_cycles(steps: Seq<StepSpec>) -> nat {
    if steps.len() == 0 {
        1
    } else if exists|i: int| 0 <= i < steps.len() && (#[trigger] steps[i]).mode != StepMode::Normal {
        3
    } else {
        2
    }
}

/// A run's outcome when the steps' modes script it and holders are fresh: it converged in
/// [`scripted_cycles`], retried exactly the `FailsFirst` steps and deduplicated exactly the
/// `LapsesAfterSuccess` steps.
pub open spec fn converges_as_scripted(steps: Seq<StepSpec>, r: Report) -> bool {
    &&& r.converged
    &&& r.cycles == scripted_cycles(steps)
    &&& forall|i: int|
        0 <= i < steps.len() ==> lists(r.retried@, #[trigger] steps[i].id@) == (steps[i].mode == StepMode::FailsFirst)
    &&& forall|i: int|
        0 <= i < steps.len() ==> lists(r.deduplicated@, #[trigger] steps[i].id@) == (steps[i].mode
            == StepMode::LapsesAfterSuccess)
}

/// A prefix of a list without repeats has none either.
proof fn lemma_no_repeats_prefix(s: Seq<u128>, t: Seq<u128>)
    requires
        no_repeats(s),
        t.len() <= s.len(),
        forall|i: int| 0 <= i < t.len() ==> t[i] == s[i],
    ensures
        no_repeats(t),
{
    assert forall|i: int, j: int| 0 <= i < j < t.len() implies #[trigger] t[i] != #[trigger] t[j] by {
        assert(t[i] == s[i] && t[j] == s[j]);
    }
}

/// What the stage of the steps at the start of a cycle tells about the plan: the targets done
/// are exactly those certified, so the plan converges once every step is done, and otherwise
/// retains exactly the steps not yet done.
proof fn lemma_cycle_plan<R: LeaseRegistry, S: StepRunner>(
    st: LoopState<R>,
    runner: S,
    steps: Seq<StepSpec>,
    r0: S,
    lapse0: Seq<String>,
    ids: Seq<String>,
    findings: Seq<(String, bool)>,
    course: Seq<usize>,
    conv: bool,
    c: int,
)
    requires
        0 <= c,
        stage(st, runner, steps, r0, lapse0, c),
        ids.len() == steps.len(),
        steps.len() <= usize::MAX,
        forall|j: int| 0 <= j < steps.len() ==> #[trigger] ids[j]@ == steps[j].id@,
        findings.len() == ids.len(),
        forall|j: int|
            0 <= j < ids.len() ==> (#[trigger] findings[j]).0@ == ids[j]@ && findings[j].1 == lists(st.done@, ids[j]@),
        course == retained(target_views(ids), finding_views(findings)),
        conv == forall|i: int|
            0 <= i < ids.len() ==> certified(finding_views(findings), #[trigger] ids[i]@),
    ensures
        conv == (c >= last_settle(steps, r0, lapse0)),
        forall|i: int|
            0 <= i < steps.len() ==> ((exists|p: int| 0 <= p < course.len() && course[p] == i) <==> c < step_settle(
                r0,
                lapse0,
                (#[trigger] steps[i]).id@,
            )),
{
    lemma_certified_iff_done(ids, findings, st.done@);
    lemma_last_settle(steps, r0, lapse0);
    let tv = target_views(ids);
    let fv = finding_views(findings);
    assert forall|i: int| 0 <= i < steps.len() implies lists(st.done@, (#[trigger] steps[i]).id@) == (c
        >= step_settle(r0, lapse0, steps[i].id@)) by {
        lemma_stage_done(st, runner, steps[i].id@, r0, lapse0, st.registry.slots()[i].1, c);
    }
    assert forall|i: int| 0 <= i < steps.len() implies ((exists|p: int| 0 <= p < course.len() && course[p] == i)
        <==> c < step_settle(r0, lapse0, (#[trigger] steps[i]).id@)) by {
        lemma_retained_member(tv, fv, i);
        assert(tv[i] == ids[i]@);
        assert(ids[i]@ == steps[i].id@);
        assert(certified(fv, ids[i]@) == lists(st.done@, ids[i]@));
    }
    if conv && steps.len() > 0 {
        let i = choose|i: int|
            0 <= i < steps.len() && step_settle(r0, lapse0, #[trigger] steps[i].id@) == last_settle(
                steps,
                r0,
                lapse0,
            );
        assert(certified(fv, ids[i]@));
        assert(ids[i]@ == steps[i].id@);
    }
    if c >= last_settle(steps, r0, lapse0) {
        assert forall|i: int| 0 <= i < ids.len() implies certified(fv, #[trigger] ids[i]@) by {
            assert(ids[i]@ == steps[i].id@);
            assert(step_settle(r0, lapse0, steps[i].id@) <= last_settle(steps, r0, lapse0));
        }
    }
}

/// One fresh attempt within a cycle keeps every step at its stage, advancing the attempted one.
proof fn lemma_stage_step<R: LeaseRegistry, S: StepRunner>(
    o: LoopState<R>,
    f: LoopState<R>,
    ro: S,
    rf: S,
    steps: Seq<StepSpec>,
    r0: S,
    lapse0: Seq<String>,
    course: Seq<usize>,
    k: int,
    h: u128,
    now: u64,
    c: int,
)
    requires
        0 <= c < MAX_CYCLES,
        now == c * 1500,
        distinct_ids(steps),
        0 <= k < course.len(),
        course[k] < steps.len(),
        forall|p: int, q: int| 0 <= p < q < course.len() ==> #[trigger] course[p] < #[trigger] course[q],
        c < step_settle(r0, lapse0, steps[course[k] as int].id@),
        o.registry.slots().len() == steps.len(),
        o.registry.lease() == 1000,
        forall|i: int|
            0 <= i < steps.len() ==> step_stage(
                o,
                ro,
                #[trigger] steps[i].id@,
                r0,
                lapse0,
                o.registry.slots()[i].1,
                if in_prefix(course, k, i) { c + 1 } else { c },
            ),
        fresh_attempt(o, f, ro, rf, steps[course[k] as int].id@, course[k] as int, h, now),
    ensures
        forall|i: int|
            0 <= i < steps.len() ==> step_stage(
                f,
                rf,
                #[trigger] steps[i].id@,
                r0,
                lapse0,
                f.registry.slots()[i].1,
                if in_prefix(course, k + 1, i) { c + 1 } else { c },
            ),
{
    let idx = course[k] as int;
    let x = steps[idx].id@;
    assert(!in_prefix(course, k, idx)) by {
        if in_prefix(course, k, idx) {
            let p = choose|p: int| 0 <= p < k && course[p] == idx;
            assert(course[p] < course[k]);
        }
    }
    assert(step_stage(o, ro, x, r0, lapse0, o.registry.slots()[idx].1, c));
    lemma_stage_advance(o, f, ro, rf, x, r0, lapse0, idx, h, now, c);
    assert(in_prefix(course, k + 1, idx));
    assert forall|i: int|
        0 <= i < steps.len() implies step_stage(
            f,
            rf,
            #[trigger] steps[i].id@,
            r0,
            lapse0,
            f.registry.slots()[i].1,
            if in_prefix(course, k + 1, i) { c + 1 } else { c },
        ) by {
        if i != idx {
            assert(steps[i].id@ != x) by {
                if i < idx {
                    assert(steps[i].id@ != steps[idx].id@);
                } else {
                    assert(steps[idx].id@ != steps[i].id@);
                }
            }
            assert(f.registry.slots()[i] == o.registry.slots()[i]);
            assert(in_prefix(course, k + 1, i) == in_prefix(course, k, i)) by {
                if in_prefix(course, k + 1, i) {
                    let p = choose|p: int| 0 <= p < k + 1 && course[p] == i;
                    assert(p != k);
                }
                if in_prefix(course, k, i) {
                    let p = choose|p: int| 0 <= p < k && course[p] == i;
                    assert(0 <= p < k + 1 && course[p] == i);
                }
            }
            lemma_stage_frame(
                o,
                f,
                ro,
                rf,
                x,
                idx,
                h,
                now,
                steps[i].id@,
                r0,
                lapse0,
                o.registry.slots()[i].1,
                if in_prefix(course, k, i) { c + 1 } else { c },
            );
        }
    }
}

/// Every step either executed or was retried.
spec fn all_attempted(steps: Seq<StepSpec>, executions: Seq<(String, u32)>, retried: Seq<String>) -> bool {
    forall|j: int|
        0 <= j < steps.len() ==> executed(executions, #[trigger] steps[j].id@) || lists(retried, steps[j].id@)
}

/// Every step went as `runner`'s script says: retried if it fails, executed otherwise.
spec fn as_scripted<S: StepRunner>(
    steps: Seq<StepSpec>,
    runner: S,
    executions: Seq<(String, u32)>,
    retried: Seq<String>,
    upto: int,
) -> bool {
    forall|j: int|
        0 <= j < upto ==> if runner.failures(#[trigger] steps[j].id@) > 0 {
            lists(retried, steps[j].id@)
        } else {
            executed(executions, steps[j].id@)
        }
}

/// The single loop body, over the registry backend `R`, the step runner, and the steps whose
/// first settlement is lost (`lapse_once`).
fn run_core<R: LeaseRegistry, S: StepRunner>(
    steps: &Vec<StepSpec>,
    runner: &mut S,
    lapse_once: Vec<String>,
) -> (report: Report)
    ensures
        reconcile_laws(steps@, report),
        old(runner).scripted() ==> scripted_first_cycle(steps@, *old(runner), report),
        scripted_scenario(steps@, *old(runner), lapse_once@) && no_repeats(report.issued.log())
            ==> converges_as_run(steps@, *old(runner), lapse_once@, report),
{
    let ghost r0 = *runner;
    let ghost lapse0 = lapse_once@;
    let n = steps.len();
    let mut ids: Vec<String> = Vec::new();
    let mut pacts: Vec<PactSpec> = Vec::new();
    let mut i: usize = 0;
    while i < n
        invariant
            n == steps@.len(),
            i <= n,
            ids@.len() == i,
            pacts@.len() == i,
            forall|j: int|
                0 <= j < i ==> #[trigger] ids@[j]@ == steps@[j].id@ && pacts@[j].docket@ == steps@[j].id@,
        decreases n - i,
    {
        let ghost (ids0, pacts0) = (ids@, pacts@);
        ids.push(steps[i].id.clone());
        pacts.push(step_to_pact(&steps[i]));
        proof {
            assert forall|j: int| 0 <= j < i + 1 implies #[trigger] ids@[j]@ == steps@[j].id@
                && pacts@[j].docket@ == steps@[j].id@ by {
                if j < i {
                    assert(ids@[j] == ids0[j] && pacts@[j] == pacts0[j]);
                }
            }
        }
        i = i + 1;
    }
    let ghost seeded_pacts = pacts@;
    let registry = Issuing::<R>::seeded(pacts, LEASE_MILLIS);
    proof {
        assert forall|j: int| 0 <= j < n implies #[trigger] registry.slots()[j] == (steps@[j].id@, Lease::Available) by {
            assert(registry.slots()[j] == (seeded_pacts[j].docket@, Lease::Available));
            assert(ids@[j]@ == steps@[j].id@);
        }
    }
    let mut st = LoopState {
        registry,
        ledger: Vec::new(),
        done: Vec::new(),
        executions: Vec::new(),
        retried: Vec::new(),
        deduplicated: Vec::new(),
        lapse_once,
    };
    let mut now: u64 = 0;
    let mut cycles: usize = 0;
    let mut converged = false;
    let ghost mut holders: Seq<u128> = Seq::empty();
    proof {
        if scripted_scenario(steps@, r0, lapse0) {
            assert forall|i: int| 0 <= i < n implies step_stage(
                st,
                *runner,
                #[trigger] steps@[i].id@,
                r0,
                lapse0,
                st.registry.slots()[i].1,
                0,
            ) by {
                assert(st.registry.slots()[i] == (steps@[i].id@, Lease::Available));
            }
        }
    }
    while cycles < MAX_CYCLES && !converged
        invariant
            st.registry.lease() == LEASE_MILLIS,
            st.registry.issued() == holders,
            r0.scripted() ==> runner.scripted(),
            forall|j: int, g: u128|
                0 <= j < n && #[trigger] held_by(st.registry.slots()[j].1, g) ==> holders.contains(g),
            scripted_scenario(steps@, r0, lapse0) && no_repeats(holders) && !converged ==> {
                &&& cycles <= last_settle(steps@, r0, lapse0)
                &&& now == cycles * TICK_MILLIS
                &&& stage(st, *runner, steps@, r0, lapse0, cycles as int)
            },
            scripted_scenario(steps@, r0, lapse0) && no_repeats(holders) && converged ==> {
                &&& cycles == last_settle(steps@, r0, lapse0) + 1
                &&& forall|i: int|
                    0 <= i < n ==> lists(st.retried@, #[trigger] steps@[i].id@) == (r0.failures(steps@[i].id@)
                        > 0)
                &&& forall|i: int|
                    0 <= i < n ==> lists(st.deduplicated@, #[trigger] steps@[i].id@) == lists(
                        lapse0,
                        steps@[i].id@,
                    )
            },
            n == steps@.len(),
            ids@.len() == n,
            forall|j: int| 0 <= j < n ==> #[trigger] ids@[j]@ == steps@[j].id@,
            st.wf(steps@),
            cycles <= MAX_CYCLES,
            now <= cycles * TICK_MILLIS,
            converged ==> cycles >= 1,
            converged ==> forall|j: int| 0 <= j < n ==> lists(st.done@, #[trigger] steps@[j].id@),
            converged && n > 0 ==> cycles >= 2,
            cycles == 0 ==> {
                &&& st.executions@.len() == 0
                &&& st.ledger@.len() == 0
                &&& st.done@.len() == 0
                &&& *runner == r0
                &&& forall|j: int| 0 <= j < n ==> #[trigger] st.registry.slots()[j].1 == Lease::Available
            },
            cycles >= 1 && distinct_ids(steps@) ==> all_attempted(steps@, st.executions@, st.retried@),
            cycles >= 1 && distinct_ids(steps@) && r0.scripted() ==> as_scripted(
                steps@,
                r0,
                st.executions@,
                st.retried@,
                n as int,
            ),
        decreases MAX_CYCLES - cycles,
    {
        cycles = cycles + 1;
        let findings = findings_for(&ids, &st.done);
        let (course, conv) = plan(&ids, &findings);
        proof {
            lemma_certified_iff_done(ids@, findings@, st.done@);
            assert forall|j: int| 0 <= j < n implies #[trigger] target_views(ids@)[j] == ids@[j]@ by {}
            if scripted_scenario(steps@, r0, lapse0) && no_repeats(holders) {
                lemma_cycle_plan(st, *runner, steps@, r0, lapse0, ids@, findings@, course@, conv, cycles - 1);
            }
        }
        if conv {
            converged = true;
            proof {
                assert forall|j: int| 0 <= j < n implies lists(st.done@, #[trigger] steps@[j].id@) by {
                    assert(certified(finding_views(findings@), target_views(ids@)[j]));
                    assert(ids@[j]@ == steps@[j].id@);
                }
                if cycles == 1 && n > 0 {
                    assert(lists(st.done@, steps@[0].id@));
                }
                if scripted_scenario(steps@, r0, lapse0) && no_repeats(holders) {
                    assert forall|i: int| 0 <= i < n implies lists(st.retried@, #[trigger] steps@[i].id@)
                        == (r0.failures(steps@[i].id@) > 0) && lists(st.deduplicated@, steps@[i].id@)
                        == lists(lapse0, steps@[i].id@) by {
                        lemma_last_settle(steps@, r0, lapse0);
                        assert(step_settle(r0, lapse0, steps@[i].id@) <= last_settle(steps@, r0, lapse0));
                        assert(step_stage(
                            st,
                            *runner,
                            steps@[i].id@,
                            r0,
                            lapse0,
                            st.registry.slots()[i].1,
                            cycles - 1,
                        ));
                    }
                }
            }
        } else {
            let ghost first = cycles == 1;
            let ghost ex_start = st.executions@;
            let ghost re_start = st.retried@;
            let ghost hs = holders;
            proof {
                lemma_retained_bounded(target_views(ids@), finding_views(findings@));
                lemma_retained_increasing(target_views(ids@), finding_views(findings@));
                if first {
                    assert forall|j: int| 0 <= j < n implies !certified(
                        finding_views(findings@),
                        #[trigger] target_views(ids@)[j],
                    ) by {
                        assert(!lists(st.done@, ids@[j]@));
                    }
                    lemma_retained_all(target_views(ids@), finding_views(findings@));
                }
            }
            let mut k: usize = 0;
            while k < course.len()
                invariant
                    n == steps@.len(),
                    ids@.len() == n,
                    forall|j: int| 0 <= j < n ==> #[trigger] ids@[j]@ == steps@[j].id@,
                    st.wf(steps@),
                    k <= course@.len(),
                    forall|m: int| 0 <= m < course@.len() ==> #[trigger] course@[m] < n,
                    1 <= cycles <= MAX_CYCLES,
                    now <= (cycles - 1) * TICK_MILLIS,
                    first == (cycles == 1),
                    forall|s: Seq<char>| executed(ex_start, s) ==> #[trigger] executed(st.executions@, s),
                    forall|s: Seq<char>| lists(re_start, s) ==> #[trigger] lists(st.retried@, s),
                    !first && distinct_ids(steps@) ==> all_attempted(steps@, ex_start, re_start),
                    !first && distinct_ids(steps@) && r0.scripted() ==> as_scripted(
                        steps@,
                        r0,
                        ex_start,
                        re_start,
                        n as int,
                    ),
                    first ==> course@.len() == n && forall|m: int| 0 <= m < n ==> #[trigger] course@[m] == m,
                    first && distinct_ids(steps@) ==> forall|j: int|
                        k <= j < n ==> #[trigger] st.registry.slots()[j].1 == Lease::Available
                            && !seal_seen(st.ledger@, steps@[j].id@),
                    first && distinct_ids(steps@) ==> forall|j: int|
                        0 <= j < k ==> executed(st.executions@, #[trigger] steps@[j].id@) || lists(
                            st.retried@,
                            steps@[j].id@,
                        ),
                    first && distinct_ids(steps@) && r0.scripted() ==> runner.scripted(),
                    first && distinct_ids(steps@) && r0.scripted() ==> forall|j: int|
                        k <= j < n ==> #[trigger] runner.failures(steps@[j].id@) == r0.failures(
                            steps@[j].id@,
                        ),
                    first && distinct_ids(steps@) && r0.scripted() ==> as_scripted(
                        steps@,
                        r0,
                        st.executions@,
                        st.retried@,
                        k as int,
                    ),
                    st.registry.lease() == LEASE_MILLIS,
                    st.registry.issued() == holders,
                    r0.scripted() ==> runner.scripted(),
                    forall|j: int, g: u128|
                        0 <= j < n && #[trigger] held_by(st.registry.slots()[j].1, g) ==> holders.contains(g),
                    forall|p: int, q: int| 0 <= p < q < course@.len() ==> #[trigger] course@[p] < #[trigger] course@[q],
                    hs.len() <= holders.len(),
                    forall|i: int| 0 <= i < hs.len() ==> hs[i] == holders[i],
                    scripted_scenario(steps@, r0, lapse0) && no_repeats(hs) ==> forall|i: int|
                        0 <= i < n ==> ((exists|p: int| 0 <= p < course@.len() && course@[p] == i) <==> cycles - 1
                            < step_settle(r0, lapse0, (#[trigger] steps@[i]).id@)),
                    scripted_scenario(steps@, r0, lapse0) && no_repeats(holders) ==> {
                        &&& cycles - 1 < last_settle(steps@, r0, lapse0)
                        &&& now == (cycles - 1) * TICK_MILLIS
                        &&& forall|i: int|
                            0 <= i < n ==> step_stage(
                                st,
                                *runner,
                                #[trigger] steps@[i].id@,
                                r0,
                                lapse0,
                                st.registry.slots()[i].1,
                                if in_prefix(course@, k as int, i) { cycles as int } else { cycles - 1 },
                            )
                    },
                decreases course@.len() - k,
            {
                let idx = course[k];
                let ghost st0 = st;
                let ghost rn0 = *runner;
                let ghost holders0 = holders;
                let held = attempt(&mut st, steps, idx, now, runner);
                proof {
                    holders = match held {
                        Some(h) => holders.push(h),
                        None => holders,
                    };
                }
                proof {
                    assert forall|j: int, g: u128|
                        0 <= j < n && #[trigger] held_by(st.registry.slots()[j].1, g) implies holders.contains(g) by {
                        if held_by(st0.registry.slots()[j].1, g) {
                            assert(holders0.contains(g));
                            let q = choose|q: int| 0 <= q < holders0.len() && holders0[q] == g;
                            assert(holders[q] == g);
                        } else {
                            assert(held == Some(g));
                            assert(holders[holders0.len() as int] == g);
                        }
                    }
                    assert forall|i: int| 0 <= i < hs.len() implies hs[i] == holders[i] by {
                        assert(holders0[i] == holders[i]);
                    }
                    if scripted_scenario(steps@, r0, lapse0) && no_repeats(holders) {
                        lemma_no_repeats_prefix(holders, holders0);
                        lemma_no_repeats_prefix(holders, hs);
                        let c = cycles - 1;
                        assert(exists|p: int| 0 <= p < course@.len() && course@[p] == idx);
                        assert(step_stage(
                            st0,
                            rn0,
                            steps@[idx as int].id@,
                            r0,
                            lapse0,
                            st0.registry.slots()[idx as int].1,
                            c,
                        )) by {
                            if in_prefix(course@, k as int, idx as int) {
                                let p = choose|p: int| 0 <= p < k && course@[p] == idx;
                                assert(course@[p] < course@[k as int]);
                            }
                        }
                        assert(claimable(st0.registry.slots()[idx as int].1, now));
                        let h = held.unwrap();
                        assert(!holders0.contains(h)) by {
                            if holders0.contains(h) {
                                let q = choose|q: int| 0 <= q < holders0.len() && holders0[q] == h;
                                assert(holders[q] == holders[holders0.len() as int]);
                            }
                        }
                        assert(fresh_for(st0.registry.slots(), idx as int, h));
                        assert(held == Some(h));
                        assert(rn0.scripted());
                        assert(fresh_attempt(st0, st, rn0, *runner, steps@[idx as int].id@, idx as int, h, now));
                        lemma_stage_step(st0, st, rn0, *runner, steps@, r0, lapse0, course@, k as int, h, now, c);
                    }
                    if first && distinct_ids(steps@) {
                        assert(idx == k);
                        assert forall|j: int| k + 1 <= j < n implies #[trigger] st.registry.slots()[j].1
                            == Lease::Available && !seal_seen(st.ledger@, steps@[j].id@) by {
                            assert(st0.registry.slots()[j].0 == steps@[j].id@);
                            assert(steps@[j].id@ != steps@[k as int].id@);
                            assert(st0.registry.slots()[j].1 == Lease::Available);
                        }
                        if r0.scripted() {
                            assert forall|j: int| k + 1 <= j < n implies #[trigger] runner.failures(
                                steps@[j].id@,
                            ) == r0.failures(steps@[j].id@) by {
                                assert(steps@[j].id@ != steps@[k as int].id@);
                                assert(rn0.failures(steps@[j].id@) == r0.failures(steps@[j].id@));
                            }
                            assert forall|j: int| 0 <= j < k + 1 implies (if r0.failures(
                                #[trigger] steps@[j].id@,
                            ) > 0 {
                                lists(st.retried@, steps@[j].id@)
                            } else {
                                executed(st.executions@, steps@[j].id@)
                            }) by {
                                if j < k {
                                    assert(as_scripted(steps@, r0, st0.executions@, st0.retried@, k as int));
                                    if r0.failures(steps@[j].id@) > 0 {
                                        assert(lists(st0.retried@, steps@[j].id@));
                                    } else {
                                        assert(executed(st0.executions@, steps@[j].id@));
                                    }
                                } else {
                                    assert(rn0.failures(steps@[j].id@) == r0.failures(steps@[j].id@));
                                }
                            }
                        }
                        assert forall|j: int| 0 <= j < k + 1 implies executed(
                            st.executions@,
                            #[trigger] steps@[j].id@,
                        ) || lists(st.retried@, steps@[j].id@) by {
                            if j < k {
                                if executed(st0.executions@, steps@[j].id@) {
                                } else {
                                    assert(lists(st0.retried@, steps@[j].id@));
                                }
                            }
                        }
                    }
                }
                k = k + 1;
            }
            now = now + TICK_MILLIS;
            proof {
                if scripted_scenario(steps@, r0, lapse0) && no_repeats(holders) {
                    lemma_no_repeats_prefix(holders, hs);
                    assert forall|i: int| 0 <= i < n implies step_stage(
                        st,
                        *runner,
                        #[trigger] steps@[i].id@,
                        r0,
                        lapse0,
                        st.registry.slots()[i].1,
                        cycles as int,
                    ) by {
                        if in_prefix(course@, course@.len() as int, i) {
                        } else {
                            assert(!(exists|p: int| 0 <= p < course@.len() && course@[p] == i));
                            lemma_stage_final(st, *runner, steps@[i].id@, r0, lapse0, st.registry.slots()[i].1, cycles - 1);
                        }
                    }
                }
                if !first && distinct_ids(steps@) {
                    assert forall|j: int| 0 <= j < n implies executed(
                        st.executions@,
                        #[trigger] steps@[j].id@,
                    ) || lists(st.retried@, steps@[j].id@) by {
                        if executed(ex_start, steps@[j].id@) {
                        } else {
                            assert(lists(re_start, steps@[j].id@));
                        }
                    }
                    if r0.scripted() {
                        assert forall|j: int| 0 <= j < n implies (if r0.failures(#[trigger] steps@[j].id@) > 0 {
                            lists(st.retried@, steps@[j].id@)
                        } else {
                            executed(st.executions@, steps@[j].id@)
                        }) by {
                            if r0.failures(steps@[j].id@) > 0 {
                                assert(lists(re_start, steps@[j].id@));
                            } else {
                                assert(executed(ex_start, steps@[j].id@));
                            }
                        }
                    }
                }
            }
        }
    }
    proof {
        assert forall|j: int| 0 <= j < n && converged implies executed(st.executions@, #[trigger] steps@[j].id@) by {
            assert(lists(st.done@, steps@[j].id@));
        }
        assert forall|k: int| 0 <= k < st.retried@.len() implies is_step(steps@, #[trigger] st.retried@[k]@) by {
            assert(lists(st.retried@, st.retried@[k]@));
        }
        assert forall|k: int| 0 <= k < st.deduplicated@.len() implies executed(
            st.executions@,
            #[trigger] st.deduplicated@[k]@,
        ) by {
            assert(lists(st.deduplicated@, st.deduplicated@[k]@));
        }
    }
    Report {
        cycles,
        converged,
        executions: st.executions,
        retried: st.retried,
        deduplicated: st.deduplicated,
        issued: st.registry.into_issued(),
    }
}


/// Over distinct ids, a step's id is among those of a mode exactly when the step has that mode.
proof fn lemma_ids_of_mode(steps: Seq<StepSpec>, mode: StepMode, i: int)
    requires
        distinct_ids(steps),
        0 <= i < steps.len(),
    ensures
        ids_of_mode(steps, mode).contains(steps[i].id@) == (steps[i].mode == mode),
    decreases steps.len(),
{
    let rest = steps.drop_last();
    let last = steps.len() - 1;
    assert forall|a: int, b: int| 0 <= a < b < rest.len() implies #[trigger] rest[a].id@ != #[trigger] rest[b].id@ by {
        assert(rest[a] == steps[a] && rest[b] == steps[b]);
    }
    lemma_ids_of_mode_from(rest, mode, steps[last].id@, steps);
    let sub = ids_of_mode(rest, mode);
    let full = ids_of_mode(steps, mode);
    let x = steps[i].id@;
    if i < last {
        assert(rest[i] == steps[i]);
        lemma_ids_of_mode(rest, mode, i);
        assert(steps[i].id@ != steps[last].id@);
    }
    if steps[last].mode == mode {
        assert(full == sub.push(steps[last].id@));
        if sub.contains(x) {
            let k = choose|k: int| 0 <= k < sub.len() && sub[k] == x;
            assert(full[k] == x);
        }
        if full.contains(x) && i < last {
            let k = choose|k: int| 0 <= k < full.len() && full[k] == x;
            if k < sub.len() {
                assert(sub[k] == x);
            } else {
                assert(full[k] == steps[last].id@);
            }
        }
        if i == last {
            assert(full[sub.len() as int] == x);
        }
    } else {
        assert(full == sub);
    }
}

/// An id that no step carries is not among the ids of any mode.
proof fn lemma_ids_of_mode_from(rest: Seq<StepSpec>, mode: StepMode, x: Seq<char>, steps: Seq<StepSpec>)
    requires
        steps.len() > 0,
        rest == steps.drop_last(),
        distinct_ids(steps),
        x == steps.last().id@,
    ensures
        !ids_of_mode(rest, mode).contains(x),
{
    lemma_ids_of_mode_member(rest, mode, x);
    if ids_of_mode(rest, mode).contains(x) {
        let j = choose|j: int| 0 <= j < rest.len() && rest[j].id@ == x;
        assert(steps[j].id@ != steps[steps.len() - 1].id@);
    }
}

/// Every id among those of a mode is the id of a step.
proof fn lemma_ids_of_mode_member(steps: Seq<StepSpec>, mode: StepMode, x: Seq<char>)
    ensures
        ids_of_mode(steps, mode).contains(x) ==> exists|j: int| 0 <= j < steps.len() && steps[j].id@ == x,
    decreases steps.len(),
{
    if steps.len() > 0 {
        let rest = steps.drop_last();
        lemma_ids_of_mode_member(rest, mode, x);
        if ids_of_mode(rest, mode).contains(x) {
            let j = choose|j: int| 0 <= j < rest.len() && rest[j].id@ == x;
            assert(steps[j] == rest[j]);
        }
        if ids_of_mode(steps, mode).contains(x) && !ids_of_mode(rest, mode).contains(x) {
            let k = choose|k: int| 0 <= k < ids_of_mode(steps, mode).len() && ids_of_mode(steps, mode)[k] == x;
            assert(k == ids_of_mode(rest, mode).len());
            assert(steps[steps.len() - 1].id@ == x);
        }
    }
}

/// The ids of the steps whose first settlement is lost.
fn lapsing_ids(steps: &Vec<StepSpec>) -> (ids: Vec<String>)
    ensures
        ids@.map_values(|s: String| s@) == ids_of_mode(steps@, StepMode::LapsesAfterSuccess),
{
    let mut ids: Vec<String> = Vec::new();
    let mut i: usize = 0;
    while i < steps.len()
        invariant
            i <= steps@.len(),
            ids@.map_values(|s: String| s@) == ids_of_mode(
                steps@.subrange(0, i as int),
                StepMode::LapsesAfterSuccess,
            ),
        decreases steps@.len() - i,
    {
        proof {
            let next = steps@.subrange(0, i + 1);
            assert(next.drop_last() =~= steps@.subrange(0, i as int));
            assert(next.last() == steps@[i as int]);
        }
        if steps[i].mode == StepMode::LapsesAfterSuccess {
            ids.push(steps[i].id.clone());
            proof {
                assert(ids@.map_values(|s: String| s@) =~= ids_of_mode(
                    steps@.subrange(0, i as int),
                    StepMode::LapsesAfterSuccess,
                ).push(steps@[i as int].id@));
            }
        }
        i = i + 1;
    }
    proof {
        assert(steps@.subrange(0, steps@.len() as int) =~= steps@);
    }
    ids
}

/// A list of strings lists exactly the texts among its views.
proof fn lemma_lists_views(v: Seq<String>, x: Seq<char>)
    ensures
        lists(v, x) == v.map_values(|s: String| s@).contains(x),
{
    let w = v.map_values(|s: String| s@);
    if lists(v, x) {
        let i = choose|i: int| 0 <= i < v.len() && #[trigger] v[i]@ == x;
        assert(w[i] == x);
    }
    if w.contains(x) {
        let i = choose|i: int| 0 <= i < w.len() && w[i] == x;
        assert(v[i]@ == x);
    }
}

/// The scripted outcome of a run: over distinct ids, every `FailsFirst` step was retried and
/// every other step executed.
pub open spec fn scripted_outcome(steps: Seq<StepSpec>, r: Report) -> bool {
    distinct_ids(steps) ==> forall|i: int|
        0 <= i < steps.len() ==> if (#[trigger] steps[i]).mode == StepMode::FailsFirst {
            lists(r.retried@, steps[i].id@)
        } else {
            executed(r.executions@, steps[i].id@)
        }
}

/// Under a script that fails each `FailsFirst` step once and loses the first settlement of
/// each `LapsesAfterSuccess` step, a step needs one cycle, or two when it is not `Normal`; so the
/// run takes [`scripted_cycles`].
proof fn lemma_scripted_settle<S: StepRunner>(steps: Seq<StepSpec>, r0: S, lapse0: Seq<String>)
    requires
        forall|i: int|
            0 <= i < steps.len() ==> r0.failures(#[trigger] steps[i].id@) == (if steps[i].mode
                == StepMode::FailsFirst { 1nat } else { 0nat }) && lists(lapse0, steps[i].id@) == (steps[i].mode
                == StepMode::LapsesAfterSuccess),
    ensures
        last_settle(steps, r0, lapse0) + 1 == scripted_cycles(steps),
        last_settle(steps, r0, lapse0) < MAX_CYCLES,
{
    lemma_last_settle(steps, r0, lapse0);
    let last = last_settle(steps, r0, lapse0);
    assert forall|i: int| 0 <= i < steps.len() implies step_settle(r0, lapse0, #[trigger] steps[i].id@) == if steps[i].mode
        == StepMode::Normal { 1nat } else { 2nat } by {
        assert(r0.failures(steps[i].id@) == (if steps[i].mode == StepMode::FailsFirst { 1nat } else { 0nat }));
    }
    if steps.len() > 0 {
        let j = choose|j: int| 0 <= j < steps.len() && step_settle(r0, lapse0, #[trigger] steps[j].id@) == last;
        assert(step_settle(r0, lapse0, steps[j].id@) == last);
        if exists|i: int| 0 <= i < steps.len() && (#[trigger] steps[i]).mode != StepMode::Normal {
            let i = choose|i: int| 0 <= i < steps.len() && (#[trigger] steps[i]).mode != StepMode::Normal;
            assert(step_settle(r0, lapse0, steps[i].id@) == 2);
            assert(step_settle(r0, lapse0, steps[i].id@) <= last);
        } else {
            assert(steps[j].mode == StepMode::Normal);
        }
    }
}

/// Reconciles `steps` to done over the reference in-memory backend, with the steps' modes
/// scripted. See [`run_with`].
pub fn run(steps: Vec<StepSpec>) -> (report: Report)
    ensures
        reconcile_laws(steps@, report),
        scripted_outcome(steps@, report),
        distinct_ids(steps@) && no_repeats(report.issued.log()) ==> converges_as_scripted(steps@, report),
{
    run_with::<MemoryRegistry>(steps)
}

/// Reconciles `steps` to done over the backend `R`, with the steps' modes scripted: a
/// `FailsFirst` step fails its first attempt, and a `LapsesAfterSuccess` step loses its first
/// settlement, so its lease lapses and it is reclaimed.
///
/// Whatever happens, no step's side effect runs twice, and a converged run executed every
/// step. Over distinct ids, the first cycle retries every `FailsFirst` step and executes every
/// other step; and when the registry handed out no holder twice, the run converges in
/// [`scripted_cycles`] (three when any step fails first or loses its settlement), retrying
/// exactly the `FailsFirst` steps and deduplicating exactly the `LapsesAfterSuccess` steps.
pub fn run_with<R: LeaseRegistry>(steps: Vec<StepSpec>) -> (report: Report)
    ensures
        reconcile_laws(steps@, report),
        scripted_outcome(steps@, report),
        distinct_ids(steps@) && no_repeats(report.issued.log()) ==> converges_as_scripted(steps@, report),
{
    let mut runner = ScriptedRunner::from_modes(&steps);
    let ghost r0 = runner;
    let lapse_once = lapsing_ids(&steps);
    let ghost lapse0 = lapse_once@;
    proof {
        if distinct_ids(steps@) {
            assert forall|i: int| 0 <= i < steps@.len() implies r0.failures(#[trigger] steps@[i].id@)
                == (if steps@[i].mode == StepMode::FailsFirst { 1nat } else { 0nat }) && lists(lapse0, steps@[i].id@) == (steps@[i].mode
                == StepMode::LapsesAfterSuccess) by {
                lemma_ids_of_mode(steps@, StepMode::FailsFirst, i);
                lemma_ids_of_mode(steps@, StepMode::LapsesAfterSuccess, i);
                lemma_lists_views(lapse0, steps@[i].id@);
            }
            lemma_scripted_settle(steps@, r0, lapse0);
            assert(scripted_scenario(steps@, r0, lapse0));
        }
    }
    let report = run_core::<R, ScriptedRunner>(&steps, &mut runner, lapse_once);
    proof {
        if distinct_ids(steps@) && no_repeats(report.issued.log()) {
            assert(converges_as_run(steps@, r0, lapse0, report));
            assert forall|i: int| 0 <= i < steps@.len() implies lists(report.retried@, #[trigger] steps@[i].id@)
                == (steps@[i].mode == StepMode::FailsFirst) && lists(report.deduplicated@, steps@[i].id@) == (
            steps@[i].mode == StepMode::LapsesAfterSuccess) by {
                assert(r0.failures(steps@[i].id@) == (if steps@[i].mode == StepMode::FailsFirst { 1nat } else { 0nat }));
            }
        }
    }
    proof {
        if distinct_ids(steps@) {
            assert forall|i: int| 0 <= i < steps@.len() implies (if (#[trigger] steps@[i]).mode
                == StepMode::FailsFirst {
                lists(report.retried@, steps@[i].id@)
            } else {
                executed(report.executions@, steps@[i].id@)
            }) by {
                lemma_ids_of_mode(steps@, StepMode::FailsFirst, i);
                assert((r0.failures(steps@[i].id@) > 0) == (steps@[i].mode == StepMode::FailsFirst));
            }
        }
    }
    report
}

/// Reconciles `steps` to done over the backend `R`, delegating each step's work to `runner`
/// (no fault injection).
pub fn run_with_runner<R: LeaseRegistry, S: StepRunner>(steps: Vec<StepSpec>, runner: &mut S) -> (report: Report)
    ensures
        reconcile_laws(steps@, report),
        old(runner).scripted() ==> scripted_first_cycle(steps@, *old(runner), report),
        scripted_scenario(steps@, *old(runner), Seq::empty()) && no_repeats(report.issued.log())
            ==> converges_as_run(steps@, *old(runner), Seq::empty(), report),
{
    let lapse_once: Vec<String> = Vec::new();
    proof {
        assert(lapse_once@ == Seq::<String>::empty());
    }
    run_core::<R, S>(&steps, runner, lapse_once)
}

impl Report {
    /// How many times the side effect of step `id` executed, if it did.
    pub fn executions_of(&self, id: &str) -> (r: Option<u32>)
        ensures
            r is None <==> !executed(self.executions@, id@),
            r matches Some(c) ==> exists|k: int|
                0 <= k < self.executions@.len() && #[trigger] self.executions@[k].0@ == id@
                    && self.executions@[k].1 == c,
    {
        let key = String::from_str(id);
        let mut k: usize = 0;
        while k < self.executions.len()
            invariant
                k <= self.executions@.len(),
                key@ == id@,
                forall|j: int| 0 <= j < k ==> #[trigger] self.executions@[j].0@ != id@,
            decreases self.executions@.len() - k,
        {
            if self.executions[k].0 == key {
                return Some(self.executions[k].1);
            }
            k = k + 1;
        }
        None
    }

    /// Whether step `id` failed an attempt and was retried.
    pub fn was_retried(&self, id: &str) -> (b: bool)
        ensures
            b == lists(self.retried@, id@),
    {
        contains_str(&self.retried, &String::from_str(id))
    }

    /// Whether the witness suppressed a re-execution of step `id`.
    pub fn was_deduplicated(&self, id: &str) -> (b: bool)
        ensures
            b == lists(self.deduplicated@, id@),
    {
        contains_str(&self.deduplicated, &String::from_str(id))
    }
}


/// Runs a step's work by invoking a Builder agent through the agent seam; any adapter can back
/// it. A clean exit is success; a non-zero exit, a spawn failure or a timeout is a failure the
/// loop retries.
#[derive(Clone, Debug)]
pub struct AgentStepRunner<A> {
    adapter: A,
    workspace: String,
    timeout: Duration,
}

impl<A: AgentAdapter> AgentStepRunner<A> {
    pub closed spec fn adapter_spec(&self) -> A {
        self.adapter
    }

    pub closed spec fn workspace_spec(&self) -> Seq<char> {
        self.workspace@
    }

    pub closed spec fn timeout_spec(&self) -> Duration {
        self.timeout
    }

    /// A Builder runner over `adapter`, running each step in `workspace` bounded by `timeout`.
    pub fn new(adapter: A, workspace: &str, timeout: Duration) -> (r: Self)
        ensures
            r.adapter_spec() == adapter,
            r.workspace_spec() == workspace@,
            r.timeout_spec() == timeout,
    {
        AgentStepRunner { adapter, workspace: String::from_str(workspace), timeout }
    }

    /// `req` asks a Builder to perform `step`, in the runner's workspace and within its
    /// timeout, with no extra environment.
    pub open spec fn asks_for(&self, step: StepSpec, req: AgentRequest) -> bool {
        &&& req.role == AgentRole::Builder
        &&& req.prompt@ == "Perform step: "@ + step.id@
        &&& req.workspace@ == self.workspace_spec()
        &&& req.timeout == self.timeout_spec()
        &&& req.env@.len() == 0
    }

    /// The request for an attempt at `step`: a Builder asked to perform it, in the runner's
    /// workspace and within its timeout, with no extra environment.
    pub fn request_for(&self, step: &StepSpec) -> (req: AgentRequest)
        ensures
            req.role == AgentRole::Builder,
            req.prompt@ == "Perform step: "@ + step.id@,
            req.workspace@ == self.workspace_spec(),
            req.timeout == self.timeout_spec(),
            req.env@.len() == 0,
    {
        let mut prompt = String::from_str("Perform step: ");
        prompt.append(step.id.as_str());
        AgentRequest {
            role: AgentRole::Builder,
            prompt,
            workspace: self.workspace.clone(),
            timeout: self.timeout.clone(),
            env: Vec::new(),
        }
    }
}

/// Whether an agent's answer counts as the step's work completing: it ran and exited zero.
pub open spec fn agent_succeeded(answer: Result<AgentResponse, AgentError>) -> bool {
    answer matches Ok(response) && response.exit_code == Some(0i32)
}

/// The outcome an agent's answer gives a step.
pub fn outcome_of(answer: &Result<AgentResponse, AgentError>) -> (o: StepOutcome)
    ensures
        o == if agent_succeeded(*answer) { StepOutcome::Succeeded } else { StepOutcome::Failed },
{
    match answer {
        Ok(response) => match response.exit_code {
            Some(code) => if code == 0 {
                StepOutcome::Succeeded
            } else {
                StepOutcome::Failed
            },
            None => StepOutcome::Failed,
        },
        Err(_) => StepOutcome::Failed,
    }
}

impl<A: AgentAdapter> StepRunner for AgentStepRunner<A> {
    open spec fn scripted(&self) -> bool {
        false
    }

    open spec fn failures(&self, id: Seq<char>) -> nat {
        0
    }

    /// Asks the adapter to perform `step` and reports success exactly when the adapter's answer
    /// is a clean exit; the runner itself is left as it was.
    fn run(&mut self, step: &StepSpec) -> (outcome: StepOutcome)
        ensures
            *final(self) == *old(self),
            exists|req: AgentRequest, answer: Result<AgentResponse, AgentError>|
                #![trigger old(self).adapter_spec().answers(req, answer)]
                old(self).asks_for(*step, req) && old(self).adapter_spec().answers(req, answer) && outcome == if agent_succeeded(answer) {
                    StepOutcome::Succeeded
                } else {
                    StepOutcome::Failed
                },
    {
        let request = self.request_for(step);
        let ghost req = request;
        let answer = self.adapter.run(request);
        let outcome = outcome_of(&answer);
        proof {
            assert(self.asks_for(*step, req));
            assert(self.adapter_spec().answers(req, answer));
        }
        outcome
    }
}

} // verus!
