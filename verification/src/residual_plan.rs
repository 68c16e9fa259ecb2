//! The library's one call into `suunta`: planning the residual of a set of targets from
//! per-target satisfaction findings.

use vstd::prelude::*;

use suunta::{
    plan_residual, Bearing, Correction, Fix, Reversibility, Satisfaction, SatisfactionFinding,
    Sigil, Sounding,
};

verus! {

/// Whether the findings positively certify target `sigil`: at least one finding about it, and
/// every finding about it says satisfied. Absence or a mix of verdicts leaves it uncertified.
pub open spec fn certified(findings: Seq<(Seq<char>, bool)>, sigil: Seq<char>) -> bool {
    &&& exists|j: int| 0 <= j < findings.len() && #[trigger] findings[j].0 == sigil && findings[j].1
    &&& forall|j: int| 0 <= j < findings.len() && #[trigger] findings[j].0 == sigil ==> findings[j].1
}

/// The indices of the targets that remain, in target order: those not certified.
pub open spec fn retained(targets: Seq<Seq<char>>, findings: Seq<(Seq<char>, bool)>) -> Seq<usize>
    decreases targets.len(),
{
    if targets.len() == 0 {
        Seq::empty()
    } else if certified(findings, targets.last()) {
        retained(targets.drop_last(), findings)
    } else {
        retained(targets.drop_last(), findings).push((targets.len() - 1) as usize)
    }
}

/// Every retained index is the index of a target.
pub proof fn lemma_retained_bounded(targets: Seq<Seq<char>>, findings: Seq<(Seq<char>, bool)>)
    requires
        targets.len() <= usize::MAX,
    ensures
        forall|k: int|
            0 <= k < retained(targets, findings).len() ==> #[trigger] retained(targets, findings)[k]
                < targets.len(),
    decreases targets.len(),
{
    if targets.len() > 0 {
        let rest = targets.drop_last();
        lemma_retained_bounded(rest, findings);
        let r = retained(targets, findings);
        let rr = retained(rest, findings);
        assert forall|k: int| 0 <= k < r.len() implies #[trigger] r[k] < targets.len() by {
            if k < rr.len() {
                assert(r[k] == rr[k]);
            } else {
                assert(r[k] == (targets.len() - 1) as usize);
            }
        }
    }
}

/// When no target is certified, every target remains, in order.
pub proof fn lemma_retained_all(targets: Seq<Seq<char>>, findings: Seq<(Seq<char>, bool)>)
    requires
        targets.len() <= usize::MAX,
        forall|i: int| 0 <= i < targets.len() ==> !certified(findings, #[trigger] targets[i]),
    ensures
        retained(targets, findings) == Seq::new(targets.len(), |i: int| i as usize),
    decreases targets.len(),
{
    if targets.len() > 0 {
        let rest = targets.drop_last();
        assert forall|i: int| 0 <= i < rest.len() implies !certified(findings, #[trigger] rest[i]) by {
            assert(rest[i] == targets[i]);
        }
        lemma_retained_all(rest, findings);
        assert(!certified(findings, targets[targets.len() - 1]));
        assert(retained(targets, findings) =~= Seq::new(targets.len(), |i: int| i as usize));
    }
}

/// The retained indices are strictly increasing.
pub proof fn lemma_retained_increasing(targets: Seq<Seq<char>>, findings: Seq<(Seq<char>, bool)>)
    requires
        targets.len() <= usize::MAX,
    ensures
        forall|p: int, q: int|
            0 <= p < q < retained(targets, findings).len() ==> #[trigger] retained(targets, findings)[p]
                < #[trigger] retained(targets, findings)[q],
    decreases targets.len(),
{
    if targets.len() > 0 {
        let rest = targets.drop_last();
        lemma_retained_increasing(rest, findings);
        lemma_retained_bounded(rest, findings);
        let r = retained(targets, findings);
        let rr = retained(rest, findings);
        assert forall|p: int, q: int| 0 <= p < q < r.len() implies #[trigger] r[p] < #[trigger] r[q] by {
            if q < rr.len() {
                assert(r[p] == rr[p] && r[q] == rr[q]);
            } else {
                assert(r[p] == rr[p]);
                assert(rr[p] < rest.len());
                assert(r[q] == (targets.len() - 1) as usize);
            }
        }
    }
}

/// A target's index is retained exactly when the target is not certified.
pub proof fn lemma_retained_member(targets: Seq<Seq<char>>, findings: Seq<(Seq<char>, bool)>, i: int)
    requires
        targets.len() <= usize::MAX,
        0 <= i < targets.len(),
    ensures
        (exists|p: int| 0 <= p < retained(targets, findings).len() && retained(targets, findings)[p] == i)
            <==> !certified(findings, targets[i]),
    decreases targets.len(),
{
    let rest = targets.drop_last();
    let r = retained(targets, findings);
    let rr = retained(rest, findings);
    lemma_retained_bounded(rest, findings);
    if i < targets.len() - 1 {
        lemma_retained_member(rest, findings, i);
        assert(rest[i] == targets[i]);
        if exists|p: int| 0 <= p < rr.len() && rr[p] == i {
            let p = choose|p: int| 0 <= p < rr.len() && rr[p] == i;
            assert(r[p] == i);
        }
        if exists|p: int| 0 <= p < r.len() && r[p] == i {
            let p = choose|p: int| 0 <= p < r.len() && r[p] == i;
            if p < rr.len() {
                assert(rr[p] == i);
            } else {
                assert(r[p] == (targets.len() - 1) as usize);
            }
        }
    } else {
        if !certified(findings, targets[i]) {
            assert(r[rr.len() as int] == i);
        } else {
            assert(r == rr);
            if exists|p: int| 0 <= p < r.len() && r[p] == i {
                let p = choose|p: int| 0 <= p < r.len() && r[p] == i;
                assert(rr[p] < rest.len());
            }
        }
    }
}

pub open spec fn target_views(targets: Seq<String>) -> Seq<Seq<char>> {
    targets.map_values(|t: String| t@)
}

pub open spec fn finding_views(findings: Seq<(String, bool)>) -> Seq<(Seq<char>, bool)> {
    findings.map_values(|f: (String, bool)| (f.0@, f.1))
}

/// `suunta::plan_residual` over a bearing of one reversible correction per target (its body
/// the target's index) and a sounding of the given satisfied/unsatisfied findings with no
/// coverage findings. As suunta documents it, a target is omitted exactly when its findings
/// fold to a positive certification (all satisfied, at least one), the retained corrections
/// keep bearing order, and with no coverage the residual is converged exactly when every
/// target is certified. Returns the retained indices and `is_converged`.
#[verifier::external_body]
pub(crate) fn plan(targets: &Vec<String>, findings: &Vec<(String, bool)>) -> (r: (Vec<usize>, bool))
    ensures
        r.0@ == retained(target_views(targets@), finding_views(findings@)),
        r.1 == forall|i: int|
            0 <= i < targets@.len() ==> certified(finding_views(findings@), #[trigger] targets@[i]@),
{
    let bearing = Bearing::new(targets.iter().enumerate().map(|(i, t)|
        Correction::new(Sigil::new(t.as_str()), Reversibility::Reversible, i)).collect());
    let fix = Fix::new(findings.iter().map(|(t, ok)| SatisfactionFinding {
        target: Sigil::new(t.as_str()),
        satisfaction: if *ok { Satisfaction::Satisfied } else { Satisfaction::Unsatisfied },
    }).collect());
    let residual = plan_residual(bearing, &Sounding::new(fix, Vec::new()));
    (residual.course.corrections().iter().map(|c| *c.body()).collect(), residual.is_converged())
}

} // verus!
