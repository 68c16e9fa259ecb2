//! The convergence seam: a revision's residual — every dissent, risk and question — is projected
//! onto a suunta bearing of targets with one satisfaction verdict per target, and suunta
//! decides whether the dossier has converged. Readiness for a human decision is therefore a
//! mechanical fact ([`is_ready`]), not a claim an agent may assert.

use vstd::prelude::*;

use crate::ids::{id_text, uuid_text};
use crate::residual_plan::{certified, finding_views, plan};
use crate::revision::{Resolution, Revision};

verus! {

/// A resolution certifies its target only when it is bound to event provenance: a resolution
/// without provenance is an unbacked claim and leaves the target open.
pub open spec fn certifies(o: Option<Resolution>) -> bool {
    o is Some && o.unwrap().provenance@.len() > 0
}

/// The revision has converged: every dissent and every risk is resolved, and every question
/// answered, with provenance.
pub open spec fn revision_converged(rev: Revision) -> bool {
    &&& forall|i: int| 0 <= i < rev.dissents@.len() ==> certifies(#[trigger] rev.dissents@[i].resolved_by)
    &&& forall|i: int| 0 <= i < rev.risks@.len() ==> certifies(#[trigger] rev.risks@[i].resolved_by)
    &&& forall|i: int| 0 <= i < rev.questions@.len() ==> certifies(#[trigger] rev.questions@[i].answered_by)
}

/// The sigil of a dissent target, stable across soundings.
pub open spec fn dissent_sigil(id: u128) -> Seq<char> {
    "dissent:"@ + uuid_text(id)
}

/// The sigil of a risk target, stable across soundings.
pub open spec fn risk_sigil(id: u128) -> Seq<char> {
    "risk:"@ + uuid_text(id)
}

fn sigil(prefix: &str, id: u128) -> (s: String)
    ensures
        s@ == prefix@ + uuid_text(id),
{
    let idt = id_text(id);
    let mut s = String::new();
    s.append(prefix);
    s.append(idt.as_str());
    s
}

fn verdict(resolved_by: &Option<Resolution>) -> (b: bool)
    ensures
        b == certifies(*resolved_by),
{
    match resolved_by {
        Some(res) => res.provenance.len() > 0,
        None => false,
    }
}

/// Appends to `targets` and `findings` one target per residual item of `items` (given by their
/// ids and resolutions): its sigil `prefix` and id, and whether its resolution certifies it.
fn push_targets(
    targets: &mut Vec<String>,
    findings: &mut Vec<(String, bool)>,
    prefix: &str,
    items: &Vec<(u128, bool)>,
)
    requires
        old(targets)@.len() == old(findings)@.len(),
    ensures
        final(targets)@.len() == final(findings)@.len(),
        final(targets)@.len() == old(targets)@.len() + items@.len(),
        forall|j: int| 0 <= j < old(targets)@.len() ==> #[trigger] final(targets)@[j] == old(targets)@[j]
            && final(findings)@[j] == old(findings)@[j],
        forall|j: int|
            0 <= j < items@.len() ==> #[trigger] final(targets)@[old(targets)@.len() + j]@ == prefix@
                + uuid_text(items@[j].0)
                && final(findings)@[old(targets)@.len() + j].0@ == final(targets)@[old(targets)@.len() + j]@
                && final(findings)@[old(targets)@.len() + j].1 == items@[j].1,
{
    let base = targets.len();
    let mut i: usize = 0;
    while i < items.len()
        invariant
            base == old(targets)@.len(),
            base == old(findings)@.len(),
            i <= items@.len(),
            targets@.len() == base + i,
            findings@.len() == base + i,
            forall|j: int| 0 <= j < base ==> #[trigger] targets@[j] == old(targets)@[j] && findings@[j]
                == old(findings)@[j],
            forall|j: int|
                0 <= j < i ==> #[trigger] targets@[base + j]@ == prefix@ + uuid_text(items@[j].0)
                    && findings@[base + j].0@ == targets@[base + j]@ && findings@[base + j].1
                    == items@[j].1,
        decreases items@.len() - i,
    {
        let t = sigil(prefix, items[i].0);
        let f = sigil(prefix, items[i].0);
        let v = items[i].1;
        let ghost (pt, pf) = (targets@, findings@);
        targets.push(t);
        findings.push((f, v));
        proof {
            assert forall|j: int| 0 <= j < base implies #[trigger] targets@[j] == old(targets)@[j]
                && findings@[j] == old(findings)@[j] by {
                assert(targets@[j] == pt[j] && findings@[j] == pf[j]);
            }
            assert forall|j: int| 0 <= j < i + 1 implies #[trigger] targets@[base + j]@ == prefix@
                + uuid_text(items@[j].0) && findings@[base + j].0@ == targets@[base + j]@
                && findings@[base + j].1 == items@[j].1 by {
                if j < i {
                    assert(targets@[base + j] == pt[base + j] && findings@[base + j] == pf[base + j]);
                }
            }
        }
        i = i + 1;
    }
}

/// The verdict at position `k` of the goal laid out as the dissents, then the risks, then the
/// questions.
spec fn goal_verdict(ds: Seq<(u128, bool)>, rs: Seq<(u128, bool)>, qs: Seq<(u128, bool)>, k: int) -> bool {
    if k < ds.len() {
        ds[k].1
    } else if k < ds.len() + rs.len() {
        rs[k - ds.len()].1
    } else {
        qs[k - ds.len() - rs.len()].1
    }
}

/// The revision has converged exactly when every verdict of its goal is satisfied.
proof fn lemma_goal_verdicts(rev: Revision, ds: Seq<(u128, bool)>, rs: Seq<(u128, bool)>, qs: Seq<(u128, bool)>)
    requires
        ds.len() == rev.dissents@.len(),
        rs.len() == rev.risks@.len(),
        qs.len() == rev.questions@.len(),
        forall|j: int| 0 <= j < ds.len() ==> #[trigger] ds[j].1 == certifies(rev.dissents@[j].resolved_by),
        forall|j: int| 0 <= j < rs.len() ==> #[trigger] rs[j].1 == certifies(rev.risks@[j].resolved_by),
        forall|j: int| 0 <= j < qs.len() ==> #[trigger] qs[j].1 == certifies(rev.questions@[j].answered_by),
    ensures
        revision_converged(rev) == forall|k: int|
            0 <= k < ds.len() + rs.len() + qs.len() ==> #[trigger] goal_verdict(ds, rs, qs, k),
{
    let n = ds.len() + rs.len() + qs.len();
    if revision_converged(rev) {
        assert forall|k: int| 0 <= k < n implies #[trigger] goal_verdict(ds, rs, qs, k) by {
            if k < ds.len() {
                assert(certifies(rev.dissents@[k].resolved_by));
            } else if k < ds.len() + rs.len() {
                assert(certifies(rev.risks@[k - ds.len()].resolved_by));
            } else {
                assert(certifies(rev.questions@[k - ds.len() - rs.len()].answered_by));
            }
        }
    }
    if forall|k: int| 0 <= k < n ==> #[trigger] goal_verdict(ds, rs, qs, k) {
        assert forall|i: int| 0 <= i < rev.dissents@.len() implies certifies(#[trigger] rev.dissents@[i].resolved_by) by {
            assert(goal_verdict(ds, rs, qs, i));
        }
        assert forall|i: int| 0 <= i < rev.risks@.len() implies certifies(#[trigger] rev.risks@[i].resolved_by) by {
            assert(goal_verdict(ds, rs, qs, ds.len() + i));
        }
        assert forall|i: int| 0 <= i < rev.questions@.len() implies certifies(#[trigger] rev.questions@[i].answered_by) by {
            assert(goal_verdict(ds, rs, qs, ds.len() + rs.len() + i));
        }
    }
}

/// Whether the revision has converged and is ready for a human decision. The whole goal
/// (every dissent, risk and question, never pre-filtered to the open ones) is the bearing, and
/// every target carries an explicit finding, so a satisfied one is positively certified; suunta
/// plans the residual. This is the sole readiness signal; no agent output participates.
pub fn is_ready(revision: &Revision) -> (r: bool)
    ensures
        r == revision_converged(*revision),
{
    let mut ds: Vec<(u128, bool)> = Vec::new();
    let mut i: usize = 0;
    while i < revision.dissents.len()
        invariant
            i <= revision.dissents@.len(),
            ds@.len() == i,
            forall|j: int| 0 <= j < i ==> #[trigger] ds@[j] == (revision.dissents@[j].id, certifies(revision.dissents@[j].resolved_by)),
        decreases revision.dissents@.len() - i,
    {
        ds.push((revision.dissents[i].id, verdict(&revision.dissents[i].resolved_by)));
        i = i + 1;
    }
    let mut rs: Vec<(u128, bool)> = Vec::new();
    let mut i: usize = 0;
    while i < revision.risks.len()
        invariant
            i <= revision.risks@.len(),
            rs@.len() == i,
            forall|j: int| 0 <= j < i ==> #[trigger] rs@[j] == (revision.risks@[j].id, certifies(revision.risks@[j].resolved_by)),
        decreases revision.risks@.len() - i,
    {
        rs.push((revision.risks[i].id, verdict(&revision.risks[i].resolved_by)));
        i = i + 1;
    }
    let mut qs: Vec<(u128, bool)> = Vec::new();
    let mut i: usize = 0;
    while i < revision.questions.len()
        invariant
            i <= revision.questions@.len(),
            qs@.len() == i,
            forall|j: int| 0 <= j < i ==> #[trigger] qs@[j] == (revision.questions@[j].id, certifies(revision.questions@[j].answered_by)),
        decreases revision.questions@.len() - i,
    {
        qs.push((revision.questions[i].id, verdict(&revision.questions[i].answered_by)));
        i = i + 1;
    }
    let mut targets: Vec<String> = Vec::new();
    let mut findings: Vec<(String, bool)> = Vec::new();
    push_targets(&mut targets, &mut findings, "dissent:", &ds);
    let ghost (t1, f1) = (targets@, findings@);
    push_targets(&mut targets, &mut findings, "risk:", &rs);
    let ghost (t2, f2) = (targets@, findings@);
    push_targets(&mut targets, &mut findings, "question:", &qs);
    let (_, converged) = plan(&targets, &findings);
    proof {
        let fv = finding_views(findings@);
        let n = targets@.len() as int;
        assert forall|k: int| #![trigger fv[k]] 0 <= k < n implies fv[k].0 == targets@[k]@ && fv[k].1 == goal_verdict(
            ds@,
            rs@,
            qs@,
            k,
        ) by {
            assert(fv[k] == (findings@[k].0@, findings@[k].1));
            let nd = ds@.len() as int;
            let nr = rs@.len() as int;
            assert(t1.len() == nd && t2.len() == nd + nr);
            if k < nd {
                assert(targets@[k] == t2[k]);
                assert(t2[k] == t1[k]);
                assert(t1[nd - nd + k]@ == "dissent:"@ + uuid_text(ds@[k].0));
            } else if k < nd + nr {
                assert(targets@[k] == t2[k]);
                assert(t2[nd + (k - nd)]@ == "risk:"@ + uuid_text(rs@[k - nd].0));
            } else {
                assert(targets@[nd + nr + (k - nd - nr)]@ == "question:"@ + uuid_text(qs@[k - nd - nr].0));
            }
        }
        lemma_goal_verdicts(*revision, ds@, rs@, qs@);
        if converged {
            assert forall|k: int| 0 <= k < n implies #[trigger] goal_verdict(ds@, rs@, qs@, k) by {
                assert(certified(fv, targets@[k]@));
                assert(fv[k].0 == targets@[k]@);
            }
        }
        if forall|k: int| 0 <= k < n ==> #[trigger] goal_verdict(ds@, rs@, qs@, k) {
            assert forall|k: int| 0 <= k < n implies certified(fv, #[trigger] targets@[k]@) by {
                assert(fv[k].0 == targets@[k]@ && goal_verdict(ds@, rs@, qs@, k));
                assert forall|j: int| 0 <= j < fv.len() && #[trigger] fv[j].0 == targets@[k]@ implies fv[j].1 by {
                    assert(goal_verdict(ds@, rs@, qs@, j));
                }
            }
        }
    }
    converged
}

/// A revision with no dissent, no risk and no question is ready.
pub proof fn lemma_empty_residual_is_ready(rev: Revision)
    requires
        rev.dissents@.len() == 0,
        rev.risks@.len() == 0,
        rev.questions@.len() == 0,
    ensures
        revision_converged(rev),
{
}

/// An open dissent, risk or question — or one closed without provenance — withholds readiness.
pub proof fn lemma_uncertified_target_blocks_readiness(rev: Revision, i: int)
    requires
        (0 <= i < rev.dissents@.len() && !certifies(rev.dissents@[i].resolved_by)) || (0 <= i
            < rev.risks@.len() && !certifies(rev.risks@[i].resolved_by)) || (0 <= i
            < rev.questions@.len() && !certifies(rev.questions@[i].answered_by)),
    ensures
        !revision_converged(rev),
{
}

/// Whether a deliberation that resumes at `latest` is already over: `latest` was produced by a
/// turn (it has a parent) and has converged. The un-deliberated root is never ready on its own:
/// a dossier is deliberated at least once before its decision.
pub fn is_ready_for_decision(latest: &Revision) -> (b: bool)
    ensures
        b == (latest.parent_digest is Some && revision_converged(*latest)),
{
    latest.parent_digest.is_some() && is_ready(latest)
}

} // verus!
