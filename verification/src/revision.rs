//! `Revision`: the current dossier revision as the single source of truth, with
//! `Dissent`/`Risk`/`Question` as its addressable, provenance-bound residual items and `Digest`
//! as its content identity.
//!
//! `apply_moves` is the one place a successor revision is produced: an arbitration turn declares
//! zero or more `Move`s, each targeting exactly one residual item, and they are applied onto a
//! copy of the current revision. A residual item no move targets is carried forward unchanged;
//! removal is not an operation a batch can express. A resolution or answer must carry a
//! non-empty reason and event provenance. The successor's `parent_digest` and its
//! content-derived `content_digest` are set here and nowhere else.

use vstd::prelude::*;

use crate::digest::{
    canonical_content, content_digest, dissent_json, question_json, revision_content_digest, risk_json, sha256_of,
};
use crate::ids::bytes_hex;
use vstd::utf8::encode_utf8;
use crate::ids::{fresh_id, is_lower_hex_char, is_random_uuid};
use std::collections::HashSet;

verus! {

broadcast use vstd::std_specs::hash::group_hash_axioms;

#[derive(Debug, Clone, PartialEq, Eq)]
pub struct Digest(pub String);

#[derive(Debug, Clone, Copy, PartialEq, Eq, Structural)]
pub struct EventRef {
    pub event_id: u128,
}

#[derive(Debug, Clone, PartialEq, Eq)]
pub struct Resolution {
    pub reason: String,
    pub provenance: Vec<EventRef>,
}

#[derive(Debug, Clone, PartialEq, Eq)]
pub struct Dissent {
    pub id: u128,
    pub claim: String,
    pub resolved_by: Option<Resolution>,
}

/// A risk carried by a revision: a stable id, a description, and an optional
/// provenance-bound resolution. An unresolved risk is a live deliberation target.
#[derive(Debug, Clone, PartialEq, Eq)]
pub struct Risk {
    pub id: u128,
    pub description: String,
    pub resolved_by: Option<Resolution>,
}

/// A question carried by a revision: a stable id, its text, and an optional provenance-bound
/// answer. An unanswered question is a live deliberation target.
#[derive(Debug, Clone, PartialEq, Eq)]
pub struct Question {
    pub id: u128,
    pub text: String,
    pub answered_by: Option<Resolution>,
}

/// A discrete, provenance-bound operation an arbitration turn declares on exactly one residual
/// target. `id` fields reference an existing dissent, risk or question; `AddRisk` and
/// `AskQuestion` create a new item instead.
#[derive(Debug, Clone, PartialEq, Eq)]
pub enum Move {
    ResolveDissent { id: u128, resolution: Resolution },
    AddRisk { description: String },
    CloseRisk { id: u128, resolution: Resolution },
    AskQuestion { text: String },
    AnswerQuestion { id: u128, resolution: Resolution },
}

#[derive(Debug, Clone, PartialEq, Eq)]
pub struct Revision {
    pub revision_id: u128,
    pub parent_digest: Option<Digest>,
    pub content_digest: Digest,
    pub original_proposal: String,
    pub current_understanding: String,
    pub positions: Vec<String>,
    pub dissents: Vec<Dissent>,
    pub risks: Vec<Risk>,
    pub questions: Vec<Question>,
}

// ---------------------------------------------------------------------------------------------
// The model: every residual item seen as (id, text, resolution).

/// A resolution as the model sees it: its reason and its event provenance.
pub type ResView = (Seq<char>, Seq<EventRef>);

/// A residual item as the model sees it: its id, its text, and its resolution (if closed).
pub type ItemView = (u128, Seq<char>, Option<ResView>);

pub open spec fn res_view(r: Resolution) -> ResView {
    (r.reason@, r.provenance@)
}

pub open spec fn opt_res_view(o: Option<Resolution>) -> Option<ResView> {
    match o {
        Some(r) => Some(res_view(r)),
        None => None,
    }
}

pub open spec fn dissent_items(ds: Seq<Dissent>) -> Seq<ItemView> {
    ds.map_values(|d: Dissent| (d.id, d.claim@, opt_res_view(d.resolved_by)))
}

pub open spec fn risk_items(rs: Seq<Risk>) -> Seq<ItemView> {
    rs.map_values(|r: Risk| (r.id, r.description@, opt_res_view(r.resolved_by)))
}

pub open spec fn question_items(qs: Seq<Question>) -> Seq<ItemView> {
    qs.map_values(|q: Question| (q.id, q.text@, opt_res_view(q.answered_by)))
}

pub open spec fn item_ids(items: Seq<ItemView>) -> Seq<u128> {
    items.map_values(|it: ItemView| it.0)
}

/// The index of the first occurrence of `id` in `ids`, or -1 when it does not occur.
pub open spec fn first_index(ids: Seq<u128>, id: u128) -> int
    decreases ids.len(),
{
    if ids.len() == 0 {
        -1
    } else {
        let k = first_index(ids.drop_last(), id);
        if k >= 0 {
            k
        } else if ids.last() == id {
            ids.len() - 1
        } else {
            -1
        }
    }
}

impl Move {
    /// The existing residual item this move targets, if any.
    pub open spec fn target(self) -> Option<u128> {
        match self {
            Move::ResolveDissent { id, .. } => Some(id),
            Move::CloseRisk { id, .. } => Some(id),
            Move::AnswerQuestion { id, .. } => Some(id),
            Move::AddRisk { .. } => None,
            Move::AskQuestion { .. } => None,
        }
    }

    /// The existing residual item this move targets, if any. `AddRisk`/`AskQuestion` create a
    /// new item instead of targeting one, so they have none.
    fn target_id(&self) -> (r: Option<u128>)
        ensures
            r == self.target(),
    {
        match self {
            Move::ResolveDissent { id, .. } => Some(*id),
            Move::CloseRisk { id, .. } => Some(*id),
            Move::AnswerQuestion { id, .. } => Some(*id),
            Move::AddRisk { .. } => None,
            Move::AskQuestion { .. } => None,
        }
    }
}

/// The three kinds of residual item a move can address.
#[derive(Debug, Clone, Copy, PartialEq, Eq, Structural)]
pub enum ResidualKind {
    Dissent,
    Risk,
    Question,
}

/// The (target, resolution) a move closes among the items of `kind`.
pub open spec fn closes(kind: ResidualKind, mv: Move) -> Option<(u128, ResView)> {
    match (kind, mv) {
        (ResidualKind::Dissent, Move::ResolveDissent { id, resolution }) => Some(
            (id, res_view(resolution)),
        ),
        (ResidualKind::Risk, Move::CloseRisk { id, resolution }) => Some((id, res_view(resolution))),
        (ResidualKind::Question, Move::AnswerQuestion { id, resolution }) => Some(
            (id, res_view(resolution)),
        ),
        _ => None,
    }
}

/// The text of the item of `kind` a move creates (no move creates a dissent).
pub open spec fn creates(kind: ResidualKind, mv: Move) -> Option<Seq<char>> {
    match (kind, mv) {
        (ResidualKind::Risk, Move::AddRisk { description }) => Some(description@),
        (ResidualKind::Question, Move::AskQuestion { text }) => Some(text@),
        _ => None,
    }
}

/// The resolution the batch assigns to item `id` (the last close of it, in batch order).
pub open spec fn resolution_in(moves: Seq<Move>, kind: ResidualKind, id: u128) -> Option<ResView>
    decreases moves.len(),
{
    if moves.len() == 0 {
        None
    } else if closes(kind, moves.last()) is Some && closes(kind, moves.last()).unwrap().0 == id {
        Some(closes(kind, moves.last()).unwrap().1)
    } else {
        resolution_in(moves.drop_last(), kind, id)
    }
}

/// The texts of the items the batch creates, in batch order.
pub open spec fn created_in(moves: Seq<Move>, kind: ResidualKind) -> Seq<Seq<char>>
    decreases moves.len(),
{
    if moves.len() == 0 {
        Seq::empty()
    } else {
        let rest = created_in(moves.drop_last(), kind);
        if creates(kind, moves.last()) is Some {
            rest.push(creates(kind, moves.last()).unwrap())
        } else {
            rest
        }
    }
}

/// The item at index `i` of `old` after the batch: closed with the batch's resolution when
/// it is the first item carrying its id and the batch closes that id, unchanged otherwise.
pub open spec fn carried_item(old: Seq<ItemView>, i: int, moves: Seq<Move>, kind: ResidualKind) -> ItemView {
    let id = old[i].0;
    if first_index(item_ids(old), id) == i && resolution_in(moves, kind, id) is Some {
        (id, old[i].1, resolution_in(moves, kind, id))
    } else {
        old[i]
    }
}

/// `new` is `old` after the batch: every existing item kept in place with its id and text and
/// only the batch's closes applied, followed by one open item per created text, in order.
pub open spec fn residual_successor(
    old: Seq<ItemView>,
    new: Seq<ItemView>,
    moves: Seq<Move>,
    kind: ResidualKind,
) -> bool {
    let added = created_in(moves, kind);
    &&& new.len() == old.len() + added.len()
    &&& forall|i: int| 0 <= i < old.len() ==> new[i] == #[trigger] carried_item(old, i, moves, kind)
    &&& forall|k: int|
        0 <= k < added.len() ==> new[old.len() + k].1 == added[k] && new[old.len() + k].2 is None
}

/// Why a single move is invalid against `rev`, if it is.
pub open spec fn move_error(rev: Revision, mv: Move) -> Option<Seq<char>> {
    match mv {
        Move::ResolveDissent { id, resolution } => {
            let k = first_index(item_ids(dissent_items(rev.dissents@)), id);
            if k < 0 {
                Some("Move targets a dissent that does not exist"@)
            } else if rev.dissents@[k].resolved_by is Some {
                Some("Cannot resolve a dissent that is already resolved"@)
            } else if resolution.reason@.len() == 0 {
                Some("Dissent resolution requires a reason"@)
            } else if resolution.provenance@.len() == 0 {
                Some("Dissent resolution requires event provenance"@)
            } else {
                None
            }
        },
        Move::AddRisk { description } => {
            if description@.len() == 0 {
                Some("A new risk requires a non-empty description"@)
            } else {
                None
            }
        },
        Move::CloseRisk { id, resolution } => {
            let k = first_index(item_ids(risk_items(rev.risks@)), id);
            if k < 0 {
                Some("Move targets a risk that does not exist"@)
            } else if rev.risks@[k].resolved_by is Some {
                Some("Cannot close a risk that is already closed"@)
            } else if resolution.reason@.len() == 0 {
                Some("Risk resolution requires a reason"@)
            } else if resolution.provenance@.len() == 0 {
                Some("Risk resolution requires event provenance"@)
            } else {
                None
            }
        },
        Move::AskQuestion { text } => {
            if text@.len() == 0 {
                Some("A new question requires non-empty text"@)
            } else {
                None
            }
        },
        Move::AnswerQuestion { id, resolution } => {
            let k = first_index(item_ids(question_items(rev.questions@)), id);
            if k < 0 {
                Some("Move targets a question that does not exist"@)
            } else if rev.questions@[k].answered_by is Some {
                Some("Cannot answer a question that is already answered"@)
            } else if resolution.reason@.len() == 0 {
                Some("Question answer requires a reason"@)
            } else if resolution.provenance@.len() == 0 {
                Some("Question answer requires event provenance"@)
            } else {
                None
            }
        },
    }
}

/// The error for a batch that addresses one item twice.
pub open spec fn duplicate_error() -> Seq<char> {
    "A move batch cannot target the same item twice"@
}

/// Whether the last move of `moves` targets an item an earlier move already targets.
pub open spec fn retargets(moves: Seq<Move>) -> bool {
    moves.len() > 0 && moves.last().target() is Some && exists|j: int|
        0 <= j < moves.len() - 1 && #[trigger] moves[j].target() == moves.last().target()
}

/// The first reason the batch is rejected, scanning moves in order: a move that targets an
/// item an earlier move already targets, or a move that is invalid against `rev`.
pub open spec fn batch_error(rev: Revision, moves: Seq<Move>) -> Option<Seq<char>>
    decreases moves.len(),
{
    if moves.len() == 0 {
        None
    } else if batch_error(rev, moves.drop_last()) is Some {
        batch_error(rev, moves.drop_last())
    } else if retargets(moves) {
        Some(duplicate_error())
    } else {
        move_error(rev, moves.last())
    }
}

/// The content a digest is taken over.
pub open spec fn digest_of(rev: Revision) -> Seq<char> {
    revision_content_digest(
        rev.original_proposal@,
        rev.current_understanding@,
        rev.positions@,
        rev.dissents@,
        rev.risks@,
        rev.questions@,
    )
}

/// `next` is the successor of `base` under `moves` with the freely authored `understanding`,
/// under a freshly drawn random identifier.
pub open spec fn is_successor(
    base: Revision,
    understanding: Seq<char>,
    moves: Seq<Move>,
    next: Revision,
) -> bool {
    &&& next.original_proposal@ == base.original_proposal@
    &&& next.current_understanding@ == understanding
    &&& next.positions@ == base.positions@
    &&& residual_successor(
        dissent_items(base.dissents@),
        dissent_items(next.dissents@),
        moves,
        ResidualKind::Dissent,
    )
    &&& residual_successor(
        risk_items(base.risks@),
        risk_items(next.risks@),
        moves,
        ResidualKind::Risk,
    )
    &&& residual_successor(
        question_items(base.questions@),
        question_items(next.questions@),
        moves,
        ResidualKind::Question,
    )
    &&& next.parent_digest == Some(base.content_digest)
    &&& next.content_digest.0@ == digest_of(next)
    &&& is_random_uuid(next.revision_id)
    &&& forall|i: int| base.risks@.len() <= i < next.risks@.len() ==> is_random_uuid(#[trigger] next.risks@[i].id)
    &&& forall|i: int|
        base.questions@.len() <= i < next.questions@.len() ==> is_random_uuid(#[trigger] next.questions@[i].id)
}


// ---------------------------------------------------------------------------------------------
// Copies.

impl Resolution {
    /// A copy with the same reason and provenance.
    fn duplicate(&self) -> (r: Self)
        ensures
            res_view(r) == res_view(*self),
    {
        let mut prov: Vec<EventRef> = Vec::new();
        let mut i: usize = 0;
        while i < self.provenance.len()
            invariant
                i <= self.provenance@.len(),
                prov@ =~= self.provenance@.subrange(0, i as int),
            decreases self.provenance@.len() - i,
        {
            prov.push(self.provenance[i]);
            i = i + 1;
        }
        proof {
            assert(prov@ =~= self.provenance@);
        }
        Resolution { reason: self.reason.clone(), provenance: prov }
    }
}

fn dup_resolution(o: &Option<Resolution>) -> (r: Option<Resolution>)
    ensures
        opt_res_view(r) == opt_res_view(*o),
{
    match o {
        Some(res) => Some(res.duplicate()),
        None => None,
    }
}

fn dup_strings(v: &Vec<String>) -> (r: Vec<String>)
    ensures
        r@ == v@,
{
    let mut out: Vec<String> = Vec::new();
    let mut i: usize = 0;
    while i < v.len()
        invariant
            i <= v@.len(),
            out@ =~= v@.subrange(0, i as int),
        decreases v@.len() - i,
    {
        out.push(v[i].clone());
        i = i + 1;
    }
    proof {
        assert(out@ =~= v@);
    }
    out
}

fn dup_dissents(v: &Vec<Dissent>) -> (r: Vec<Dissent>)
    ensures
        dissent_items(r@) == dissent_items(v@),
{
    let mut out: Vec<Dissent> = Vec::new();
    let mut i: usize = 0;
    while i < v.len()
        invariant
            i <= v@.len(),
            out@.len() == i,
            forall|j: int| 0 <= j < i ==> #[trigger] out@[j].id == v@[j].id && out@[j].claim == v@[j].claim && opt_res_view(out@[j].resolved_by) == opt_res_view(v@[j].resolved_by),
        decreases v@.len() - i,
    {
        let d = &v[i];
        out.push(
            Dissent { id: d.id, claim: d.claim.clone(), resolved_by: dup_resolution(&d.resolved_by) },
        );
        i = i + 1;
    }
    proof {
        assert forall|j: int| 0 <= j < v@.len() implies #[trigger] dissent_items(out@)[j] == dissent_items(v@)[j] by {
            assert(out@[j].id == v@[j].id);
        }
        assert(dissent_items(out@) =~= dissent_items(v@));
    }
    out
}

fn dup_risks(v: &Vec<Risk>) -> (r: Vec<Risk>)
    ensures
        risk_items(r@) == risk_items(v@),
{
    let mut out: Vec<Risk> = Vec::new();
    let mut i: usize = 0;
    while i < v.len()
        invariant
            i <= v@.len(),
            out@.len() == i,
            forall|j: int| 0 <= j < i ==> #[trigger] out@[j].id == v@[j].id && out@[j].description == v@[j].description && opt_res_view(out@[j].resolved_by) == opt_res_view(v@[j].resolved_by),
        decreases v@.len() - i,
    {
        let x = &v[i];
        out.push(
            Risk {
                id: x.id,
                description: x.description.clone(),
                resolved_by: dup_resolution(&x.resolved_by),
            },
        );
        i = i + 1;
    }
    proof {
        assert forall|j: int| 0 <= j < v@.len() implies #[trigger] risk_items(out@)[j] == risk_items(v@)[j] by {
            assert(out@[j].id == v@[j].id);
        }
        assert(risk_items(out@) =~= risk_items(v@));
    }
    out
}

fn dup_questions(v: &Vec<Question>) -> (r: Vec<Question>)
    ensures
        question_items(r@) == question_items(v@),
{
    let mut out: Vec<Question> = Vec::new();
    let mut i: usize = 0;
    while i < v.len()
        invariant
            i <= v@.len(),
            out@.len() == i,
            forall|j: int| 0 <= j < i ==> #[trigger] out@[j].id == v@[j].id && out@[j].text == v@[j].text && opt_res_view(out@[j].answered_by) == opt_res_view(v@[j].answered_by),
        decreases v@.len() - i,
    {
        let x = &v[i];
        out.push(
            Question {
                id: x.id,
                text: x.text.clone(),
                answered_by: dup_resolution(&x.answered_by),
            },
        );
        i = i + 1;
    }
    proof {
        assert forall|j: int| 0 <= j < v@.len() implies #[trigger] question_items(out@)[j] == question_items(v@)[j] by {
            assert(out@[j].id == v@[j].id);
        }
        assert(question_items(out@) =~= question_items(v@));
    }
    out
}

// ---------------------------------------------------------------------------------------------
// Lookup.

proof fn lemma_first_index_bounds(ids: Seq<u128>, id: u128)
    ensures
        -1 <= first_index(ids, id) < ids.len(),
        first_index(ids, id) >= 0 ==> ids[first_index(ids, id)] == id,
        first_index(ids, id) < 0 ==> forall|j: int| 0 <= j < ids.len() ==> ids[j] != id,
        first_index(ids, id) >= 0 ==> forall|j: int|
            0 <= j < first_index(ids, id) ==> ids[j] != id,
    decreases ids.len(),
{
    if ids.len() > 0 {
        let p = ids.drop_last();
        lemma_first_index_bounds(p, id);
        assert forall|j: int| 0 <= j < p.len() implies p[j] == ids[j] by {}
    }
}

/// `first_index` only looks at the prefix up to the first occurrence: appending items does
/// not move an existing first occurrence, and a prefix that already contains the id has the
/// same first occurrence as the whole.
proof fn lemma_first_index_prefix(ids: Seq<u128>, n: int, id: u128)
    requires
        0 <= n <= ids.len(),
        first_index(ids.subrange(0, n), id) >= 0,
    ensures
        first_index(ids, id) == first_index(ids.subrange(0, n), id),
    decreases ids.len() - n,
{
    if n < ids.len() {
        assert(ids.subrange(0, n + 1).drop_last() =~= ids.subrange(0, n));
        lemma_first_index_prefix_step(ids.subrange(0, n + 1), id);
        lemma_first_index_prefix(ids, n + 1, id);
    } else {
        assert(ids.subrange(0, n) =~= ids);
    }
}

proof fn lemma_first_index_prefix_step(ids: Seq<u128>, id: u128)
    requires
        ids.len() > 0,
        first_index(ids.drop_last(), id) >= 0,
    ensures
        first_index(ids, id) == first_index(ids.drop_last(), id),
{
}

/// The first index is determined pointwise: it is `k` exactly when `ids[k] == id` and no
/// earlier position carries `id`.
proof fn lemma_first_index_char(ids: Seq<u128>, id: u128, k: int)
    requires
        0 <= k < ids.len(),
        ids[k] == id,
        forall|j: int| 0 <= j < k ==> ids[j] != id,
    ensures
        first_index(ids, id) == k,
    decreases ids.len(),
{
    lemma_first_index_bounds(ids, id);
    if k < ids.len() - 1 {
        lemma_first_index_char(ids.drop_last(), id, k);
    } else {
        lemma_first_index_bounds(ids.drop_last(), id);
    }
}

fn find_dissent(ds: &Vec<Dissent>, id: u128) -> (r: Option<usize>)
    ensures
        match r {
            Some(k) => k < ds@.len() && k as int == first_index(item_ids(dissent_items(ds@)), id),
            None => first_index(item_ids(dissent_items(ds@)), id) < 0,
        },
{
    let ghost ids = item_ids(dissent_items(ds@));
    let mut i: usize = 0;
    while i < ds.len()
        invariant
            i <= ds@.len(),
            ids == item_ids(dissent_items(ds@)),
            ids.len() == ds@.len(),
            forall|j: int| 0 <= j < i ==> ids[j] != id,
        decreases ds@.len() - i,
    {
        assert(ids[i as int] == ds@[i as int].id);
        if ds[i].id == id {
            proof {
                lemma_first_index_char(ids, id, i as int);
            }
            return Some(i);
        }
        i = i + 1;
    }
    proof {
        lemma_first_index_bounds(ids, id);
        if first_index(ids, id) >= 0 {
            assert(ids[first_index(ids, id)] == id);
        }
    }
    None
}

fn find_risk(rs: &Vec<Risk>, id: u128) -> (r: Option<usize>)
    ensures
        match r {
            Some(k) => k < rs@.len() && k as int == first_index(item_ids(risk_items(rs@)), id),
            None => first_index(item_ids(risk_items(rs@)), id) < 0,
        },
{
    let ghost ids = item_ids(risk_items(rs@));
    let mut i: usize = 0;
    while i < rs.len()
        invariant
            i <= rs@.len(),
            ids == item_ids(risk_items(rs@)),
            ids.len() == rs@.len(),
            forall|j: int| 0 <= j < i ==> ids[j] != id,
        decreases rs@.len() - i,
    {
        assert(ids[i as int] == rs@[i as int].id);
        if rs[i].id == id {
            proof {
                lemma_first_index_char(ids, id, i as int);
            }
            return Some(i);
        }
        i = i + 1;
    }
    proof {
        lemma_first_index_bounds(ids, id);
        if first_index(ids, id) >= 0 {
            assert(ids[first_index(ids, id)] == id);
        }
    }
    None
}

fn find_question(qs: &Vec<Question>, id: u128) -> (r: Option<usize>)
    ensures
        match r {
            Some(k) => k < qs@.len() && k as int == first_index(item_ids(question_items(qs@)), id),
            None => first_index(item_ids(question_items(qs@)), id) < 0,
        },
{
    let ghost ids = item_ids(question_items(qs@));
    let mut i: usize = 0;
    while i < qs.len()
        invariant
            i <= qs@.len(),
            ids == item_ids(question_items(qs@)),
            ids.len() == qs@.len(),
            forall|j: int| 0 <= j < i ==> ids[j] != id,
        decreases qs@.len() - i,
    {
        assert(ids[i as int] == qs@[i as int].id);
        if qs[i].id == id {
            proof {
                lemma_first_index_char(ids, id, i as int);
            }
            return Some(i);
        }
        i = i + 1;
    }
    proof {
        lemma_first_index_bounds(ids, id);
        if first_index(ids, id) >= 0 {
            assert(ids[first_index(ids, id)] == id);
        }
    }
    None
}


// ---------------------------------------------------------------------------------------------
// The batch model, step by step.

proof fn lemma_push_drop_last(p: Seq<Move>, mv: Move)
    ensures
        p.push(mv).drop_last() =~= p,
        p.push(mv).last() == mv,
{
}

/// An error found in a prefix of the batch is the batch's error.
proof fn lemma_batch_error_prefix(rev: Revision, moves: Seq<Move>, n: int)
    requires
        0 <= n <= moves.len(),
        batch_error(rev, moves.subrange(0, n)) is Some,
    ensures
        batch_error(rev, moves) == batch_error(rev, moves.subrange(0, n)),
    decreases moves.len() - n,
{
    if n < moves.len() {
        let q = moves.subrange(0, n + 1);
        assert(q.drop_last() =~= moves.subrange(0, n));
        lemma_batch_error_prefix(rev, moves, n + 1);
    } else {
        assert(moves.subrange(0, n) =~= moves);
    }
}

/// A move that closes an item of `kind` sets that item's resolution.
proof fn lemma_close_step(
    old: Seq<ItemView>,
    new: Seq<ItemView>,
    p: Seq<Move>,
    mv: Move,
    kind: ResidualKind,
    k0: int,
)
    requires
        residual_successor(old, new, p, kind),
        closes(kind, mv) is Some,
        creates(kind, mv) is None,
        k0 == first_index(item_ids(old), closes(kind, mv).unwrap().0),
        0 <= k0 < old.len(),
    ensures
        residual_successor(
            old,
            new.update(k0, (old[k0].0, old[k0].1, Some(closes(kind, mv).unwrap().1))),
            p.push(mv),
            kind,
        ),
{
    let q = p.push(mv);
    lemma_push_drop_last(p, mv);
    let id = closes(kind, mv).unwrap().0;
    let rv = closes(kind, mv).unwrap().1;
    let new2 = new.update(k0, (old[k0].0, old[k0].1, Some(rv)));
    assert(created_in(q, kind) == created_in(p, kind));
    lemma_first_index_bounds(item_ids(old), id);
    assert(item_ids(old)[k0] == old[k0].0);
    assert forall|i: int| 0 <= i < old.len() implies new2[i] == #[trigger] carried_item(
        old,
        i,
        q,
        kind,
    ) by {
        assert(carried_item(old, i, p, kind) == new[i]);
        assert(item_ids(old)[i] == old[i].0);
        if old[i].0 == id {
            assert(resolution_in(q, kind, old[i].0) == Some(rv));
        } else {
            assert(resolution_in(q, kind, old[i].0) == resolution_in(p, kind, old[i].0));
        }
    }
}

/// A move that neither closes nor creates an item of `kind` leaves those items as they are.
proof fn lemma_other_step(old: Seq<ItemView>, new: Seq<ItemView>, p: Seq<Move>, mv: Move, kind: ResidualKind)
    requires
        residual_successor(old, new, p, kind),
        closes(kind, mv) is None,
        creates(kind, mv) is None,
    ensures
        residual_successor(old, new, p.push(mv), kind),
{
    let q = p.push(mv);
    lemma_push_drop_last(p, mv);
    assert(created_in(q, kind) == created_in(p, kind));
    assert forall|i: int| 0 <= i < old.len() implies new[i] == #[trigger] carried_item(
        old,
        i,
        q,
        kind,
    ) by {
        assert(carried_item(old, i, p, kind) == new[i]);
        assert(resolution_in(q, kind, old[i].0) == resolution_in(p, kind, old[i].0));
    }
}

/// A move that creates an item of `kind` appends one open item with its text.
proof fn lemma_create_step(
    old: Seq<ItemView>,
    new: Seq<ItemView>,
    p: Seq<Move>,
    mv: Move,
    kind: ResidualKind,
    fresh: u128,
)
    requires
        residual_successor(old, new, p, kind),
        closes(kind, mv) is None,
        creates(kind, mv) is Some,
    ensures
        residual_successor(
            old,
            new.push((fresh, creates(kind, mv).unwrap(), None)),
            p.push(mv),
            kind,
        ),
{
    let q = p.push(mv);
    lemma_push_drop_last(p, mv);
    let new2 = new.push((fresh, creates(kind, mv).unwrap(), None));
    assert(created_in(q, kind) == created_in(p, kind).push(creates(kind, mv).unwrap()));
    assert forall|i: int| 0 <= i < old.len() implies new2[i] == #[trigger] carried_item(
        old,
        i,
        q,
        kind,
    ) by {
        assert(carried_item(old, i, p, kind) == new[i]);
        assert(resolution_in(q, kind, old[i].0) == resolution_in(p, kind, old[i].0));
    }
}

/// Before any move, every item is carried as it is.
proof fn lemma_empty_batch(old: Seq<ItemView>, kind: ResidualKind)
    ensures
        residual_successor(old, old, Seq::<Move>::empty(), kind),
{
    assert forall|i: int| 0 <= i < old.len() implies old[i] == #[trigger] carried_item(
        old,
        i,
        Seq::<Move>::empty(),
        kind,
    ) by {}
}

/// In a successor, the first `old.len()` items keep their ids.
proof fn lemma_successor_keeps_ids(old: Seq<ItemView>, new: Seq<ItemView>, p: Seq<Move>, kind: ResidualKind)
    requires
        residual_successor(old, new, p, kind),
    ensures
        old.len() <= new.len(),
        item_ids(new).subrange(0, old.len() as int) =~= item_ids(old),
{
    assert forall|i: int| 0 <= i < old.len() implies item_ids(new)[i] == item_ids(old)[i] by {
        assert(new[i] == carried_item(old, i, p, kind));
    }
}

impl Revision {
    /// Validates one move against `self`'s current state: the target exists, is still open (for
    /// moves that close something), and any resolution carries a non-empty reason and event
    /// provenance. Duplicate targeting within a batch is the caller's check.
    fn validate_move(&self, mv: &Move) -> (r: Result<(), &'static str>)
        ensures
            match move_error(*self, *mv) {
                Some(e) => r matches Err(x) && x@ == e,
                None => r is Ok,
            },
    {
        match mv {
            Move::ResolveDissent { id, resolution } => {
                let k = match find_dissent(&self.dissents, *id) {
                    Some(k) => k,
                    None => return Err("Move targets a dissent that does not exist"),
                };
                if self.dissents[k].resolved_by.is_some() {
                    return Err("Cannot resolve a dissent that is already resolved");
                }
                if resolution.reason.as_str().is_empty() {
                    return Err("Dissent resolution requires a reason");
                }
                if resolution.provenance.len() == 0 {
                    return Err("Dissent resolution requires event provenance");
                }
            },
            Move::AddRisk { description } => {
                if description.as_str().is_empty() {
                    return Err("A new risk requires a non-empty description");
                }
            },
            Move::CloseRisk { id, resolution } => {
                let k = match find_risk(&self.risks, *id) {
                    Some(k) => k,
                    None => return Err("Move targets a risk that does not exist"),
                };
                if self.risks[k].resolved_by.is_some() {
                    return Err("Cannot close a risk that is already closed");
                }
                if resolution.reason.as_str().is_empty() {
                    return Err("Risk resolution requires a reason");
                }
                if resolution.provenance.len() == 0 {
                    return Err("Risk resolution requires event provenance");
                }
            },
            Move::AskQuestion { text } => {
                if text.as_str().is_empty() {
                    return Err("A new question requires non-empty text");
                }
            },
            Move::AnswerQuestion { id, resolution } => {
                let k = match find_question(&self.questions, *id) {
                    Some(k) => k,
                    None => return Err("Move targets a question that does not exist"),
                };
                if self.questions[k].answered_by.is_some() {
                    return Err("Cannot answer a question that is already answered");
                }
                if resolution.reason.as_str().is_empty() {
                    return Err("Question answer requires a reason");
                }
                if resolution.provenance.len() == 0 {
                    return Err("Question answer requires event provenance");
                }
            },
        }
        Ok(())
    }

    /// Checks a whole batch before anything is applied: the first move (in batch order) that
    /// targets an item an earlier move already targets, or that is invalid, rejects it.
    fn check_batch(&self, moves: &Vec<Move>) -> (r: Result<(), &'static str>)
        ensures
            match batch_error(*self, moves@) {
                Some(e) => r matches Err(x) && x@ == e,
                None => r is Ok,
            },
    {
        let mut touched: HashSet<u128> = HashSet::new();
        let mut i: usize = 0;
        while i < moves.len()
            invariant
                i <= moves@.len(),
                batch_error(*self, moves@.subrange(0, i as int)) is None,
                forall|t: u128|
                    touched@.contains(t) <==> exists|j: int|
                        0 <= j < i && #[trigger] moves@[j].target() == Some(t),
            decreases moves@.len() - i,
        {
            let mv = &moves[i];
            let q = Ghost(moves@.subrange(0, i + 1));
            proof {
                assert(q@.drop_last() =~= moves@.subrange(0, i as int));
                assert(q@.last() == moves@[i as int]);
                assert forall|j: int| 0 <= j < i implies q@[j] == moves@[j] by {}
            }
            let ghost before = touched@;
            match mv.target_id() {
                Some(id) => {
                    if !touched.insert(id) {
                        proof {
                            let j = choose|j: int| 0 <= j < i && #[trigger] moves@[j].target() == Some(id);
                            assert(q@[j].target() == q@.last().target());
                            assert(retargets(q@));
                            lemma_batch_error_prefix(*self, moves@, i + 1);
                        }
                        return Err("A move batch cannot target the same item twice");
                    }
                },
                None => {},
            }
            proof {
                assert(!retargets(q@)) by {
                    if retargets(q@) {
                        let j = choose|j: int| 0 <= j < q@.len() - 1 && #[trigger] q@[j].target() == q@.last().target();
                        assert(moves@[j].target() == moves@[i as int].target());
                        assert(before.contains(moves@[i as int].target().unwrap()));
                    }
                }
            }
            match self.validate_move(mv) {
                Ok(()) => {},
                Err(e) => {
                    proof {
                        lemma_batch_error_prefix(*self, moves@, i + 1);
                    }
                    return Err(e);
                },
            }
            i = i + 1;
        }
        proof {
            assert(moves@.subrange(0, moves@.len() as int) =~= moves@);
        }
        Ok(())
    }
}


/// In a batch with no error, every move is valid on its own.
proof fn lemma_valid_batch_moves(rev: Revision, moves: Seq<Move>, j: int)
    requires
        batch_error(rev, moves) is None,
        0 <= j < moves.len(),
    ensures
        move_error(rev, moves[j]) is None,
{
    let q = moves.subrange(0, j + 1);
    if batch_error(rev, q) is Some {
        lemma_batch_error_prefix(rev, moves, j + 1);
    }
    assert(q.last() == moves[j]);
}

impl Revision {
    /// Computes a content digest over the revision's content fields (a SHA-256 hash of their
    /// canonical serialization), so identical content always digests identically. The digest
    /// never depends on `revision_id`, `parent_digest` or `content_digest`.
    pub fn compute_digest(&self) -> (d: Digest)
        ensures
            d.0@ == digest_of(*self),
            d.0@.len() == 64,
            forall|i: int| 0 <= i < 64 ==> is_lower_hex_char(#[trigger] d.0@[i]),
    {
        Digest(
            content_digest(
                &self.original_proposal,
                &self.current_understanding,
                &self.positions,
                &self.dissents,
                &self.risks,
                &self.questions,
            ),
        )
    }

    /// Applies a batch of moves to produce the successor revision. Every move is validated
    /// against `self` before any is applied; if any move is invalid (including two moves
    /// targeting the same existing item), the whole batch is rejected with the first error in
    /// batch order and nothing is applied. `original_proposal` and `positions` are carried
    /// forward unconditionally; a residual item no move targets is carried forward exactly as
    /// it was. `current_understanding` is the one freely authored field. The successor's
    /// `parent_digest` is this revision's `content_digest`, and its own `content_digest` is
    /// recomputed from its content; its `revision_id` is freshly drawn (a random version-4 UUID).
    pub fn apply_moves(&self, current_understanding: String, moves: Vec<Move>) -> (r: Result<
        Revision,
        &'static str,
    >)
        ensures
            match batch_error(*self, moves@) {
                Some(e) => r matches Err(x) && x@ == e,
                None => r matches Ok(next) && is_successor(*self, current_understanding@, moves@, next),
            },
    {
        match self.check_batch(&moves) {
            Ok(()) => {},
            Err(e) => return Err(e),
        }
        let ghost old_d = dissent_items(self.dissents@);
        let ghost old_r = risk_items(self.risks@);
        let ghost old_q = question_items(self.questions@);
        let mut dissents = dup_dissents(&self.dissents);
        let mut risks = dup_risks(&self.risks);
        let mut questions = dup_questions(&self.questions);
        proof {
            assert(moves@.subrange(0, 0) =~= Seq::<Move>::empty());
            lemma_empty_batch(old_d, ResidualKind::Dissent);
            lemma_empty_batch(old_r, ResidualKind::Risk);
            lemma_empty_batch(old_q, ResidualKind::Question);
        }
        let mut j: usize = 0;
        while j < moves.len()
            invariant
                j <= moves@.len(),
                batch_error(*self, moves@) is None,
                old_d == dissent_items(self.dissents@),
                old_r == risk_items(self.risks@),
                old_q == question_items(self.questions@),
                residual_successor(
                    old_d,
                    dissent_items(dissents@),
                    moves@.subrange(0, j as int),
                    ResidualKind::Dissent,
                ),
                residual_successor(
                    old_r,
                    risk_items(risks@),
                    moves@.subrange(0, j as int),
                    ResidualKind::Risk,
                ),
                residual_successor(
                    old_q,
                    question_items(questions@),
                    moves@.subrange(0, j as int),
                    ResidualKind::Question,
                ),
                self.risks@.len() <= risks@.len(),
                self.questions@.len() <= questions@.len(),
                forall|i: int| self.risks@.len() <= i < risks@.len() ==> is_random_uuid(#[trigger] risks@[i].id),
                forall|i: int|
                    self.questions@.len() <= i < questions@.len() ==> is_random_uuid(#[trigger] questions@[i].id),
            decreases moves@.len() - j,
        {
            let ghost p = moves@.subrange(0, j as int);
            let ghost mv = moves@[j as int];
            proof {
                assert(moves@.subrange(0, j + 1) =~= p.push(mv));
                lemma_valid_batch_moves(*self, moves@, j as int);
            }
            match &moves[j] {
                Move::ResolveDissent { id, resolution } => {
                    let ghost cur = dissent_items(dissents@);
                    proof {
                        lemma_successor_keeps_ids(old_d, cur, p, ResidualKind::Dissent);
                        assert(created_in(p, ResidualKind::Dissent).len() == 0) by {
                            lemma_no_dissent_created(p);
                        }
                        assert(item_ids(cur) =~= item_ids(old_d)) by {
                            assert(item_ids(cur).subrange(0, old_d.len() as int) =~= item_ids(cur));
                        }
                        lemma_first_index_bounds(item_ids(old_d), *id);
                    }
                    match find_dissent(&dissents, *id) {
                        Some(k) => {
                            dissents[k].resolved_by = Some(resolution.duplicate());
                            proof {
                                lemma_close_step(old_d, cur, p, mv, ResidualKind::Dissent, k as int);
                                assert(dissent_items(dissents@) =~= cur.update(
                                    k as int,
                                    (old_d[k as int].0, old_d[k as int].1, Some(res_view(*resolution))),
                                )) by {
                                    assert(cur[k as int] == carried_item(old_d, k as int, p, ResidualKind::Dissent));
                                }
                                lemma_other_step(old_r, risk_items(risks@), p, mv, ResidualKind::Risk);
                                lemma_other_step(old_q, question_items(questions@), p, mv, ResidualKind::Question);
                            }
                        },
                        None => {
                            proof {
                                assert(false);
                            }
                        },
                    }
                },
                Move::CloseRisk { id, resolution } => {
                    let ghost cur = risk_items(risks@);
                    proof {
                        lemma_successor_keeps_ids(old_r, cur, p, ResidualKind::Risk);
                        lemma_first_index_bounds(item_ids(old_r), *id);
                        assert(item_ids(cur).subrange(0, old_r.len() as int) =~= item_ids(old_r));
                        lemma_first_index_prefix(item_ids(cur), old_r.len() as int, *id);
                    }
                    match find_risk(&risks, *id) {
                        Some(k) => {
                            risks[k].resolved_by = Some(resolution.duplicate());
                            proof {
                                lemma_close_step(old_r, cur, p, mv, ResidualKind::Risk, k as int);
                                assert(risk_items(risks@) =~= cur.update(
                                    k as int,
                                    (old_r[k as int].0, old_r[k as int].1, Some(res_view(*resolution))),
                                )) by {
                                    assert(cur[k as int] == carried_item(old_r, k as int, p, ResidualKind::Risk));
                                }
                                lemma_other_step(old_d, dissent_items(dissents@), p, mv, ResidualKind::Dissent);
                                lemma_other_step(old_q, question_items(questions@), p, mv, ResidualKind::Question);
                            }
                        },
                        None => {
                            proof {
                                assert(false);
                            }
                        },
                    }
                },
                Move::AnswerQuestion { id, resolution } => {
                    let ghost cur = question_items(questions@);
                    proof {
                        lemma_successor_keeps_ids(old_q, cur, p, ResidualKind::Question);
                        lemma_first_index_bounds(item_ids(old_q), *id);
                        assert(item_ids(cur).subrange(0, old_q.len() as int) =~= item_ids(old_q));
                        lemma_first_index_prefix(item_ids(cur), old_q.len() as int, *id);
                    }
                    match find_question(&questions, *id) {
                        Some(k) => {
                            questions[k].answered_by = Some(resolution.duplicate());
                            proof {
                                lemma_close_step(old_q, cur, p, mv, ResidualKind::Question, k as int);
                                assert(question_items(questions@) =~= cur.update(
                                    k as int,
                                    (old_q[k as int].0, old_q[k as int].1, Some(res_view(*resolution))),
                                )) by {
                                    assert(cur[k as int] == carried_item(old_q, k as int, p, ResidualKind::Question));
                                }
                                lemma_other_step(old_d, dissent_items(dissents@), p, mv, ResidualKind::Dissent);
                                lemma_other_step(old_r, risk_items(risks@), p, mv, ResidualKind::Risk);
                            }
                        },
                        None => {
                            proof {
                                assert(false);
                            }
                        },
                    }
                },
                Move::AddRisk { description } => {
                    let ghost cur = risk_items(risks@);
                    let fresh = fresh_id();
                    risks.push(Risk { id: fresh, description: description.clone(), resolved_by: None });
                    proof {
                        lemma_create_step(old_r, cur, p, mv, ResidualKind::Risk, fresh);
                        assert(risk_items(risks@) =~= cur.push((fresh, description@, None)));
                        lemma_other_step(old_d, dissent_items(dissents@), p, mv, ResidualKind::Dissent);
                        lemma_other_step(old_q, question_items(questions@), p, mv, ResidualKind::Question);
                    }
                },
                Move::AskQuestion { text } => {
                    let ghost cur = question_items(questions@);
                    let fresh = fresh_id();
                    questions.push(Question { id: fresh, text: text.clone(), answered_by: None });
                    proof {
                        lemma_create_step(old_q, cur, p, mv, ResidualKind::Question, fresh);
                        assert(question_items(questions@) =~= cur.push((fresh, text@, None)));
                        lemma_other_step(old_d, dissent_items(dissents@), p, mv, ResidualKind::Dissent);
                        lemma_other_step(old_r, risk_items(risks@), p, mv, ResidualKind::Risk);
                    }
                },
            }
            j = j + 1;
        }
        proof {
            assert(moves@.subrange(0, moves@.len() as int) =~= moves@);
        }
        let mut next = Revision {
            revision_id: fresh_id(),
            parent_digest: Some(Digest(self.content_digest.0.clone())),
            content_digest: Digest(String::new()),
            original_proposal: self.original_proposal.clone(),
            current_understanding,
            positions: dup_strings(&self.positions),
            dissents,
            risks,
            questions,
        };
        next.content_digest = next.compute_digest();
        Ok(next)
    }
}

/// No move ever creates a dissent.
proof fn lemma_no_dissent_created(moves: Seq<Move>)
    ensures
        created_in(moves, ResidualKind::Dissent).len() == 0,
    decreases moves.len(),
{
    if moves.len() > 0 {
        lemma_no_dissent_created(moves.drop_last());
    }
}


// ---------------------------------------------------------------------------------------------
// Laws.

proof fn lemma_resolution_source(moves: Seq<Move>, kind: ResidualKind, id: u128)
    requires
        resolution_in(moves, kind, id) is Some,
    ensures
        exists|j: int|
            0 <= j < moves.len() && #[trigger] closes(kind, moves[j]) is Some && closes(
                kind,
                moves[j],
            ).unwrap().0 == id,
    decreases moves.len(),
{
    if closes(kind, moves.last()) is Some && closes(kind, moves.last()).unwrap().0 == id {
        assert(closes(kind, moves[moves.len() - 1]) is Some);
    } else {
        lemma_resolution_source(moves.drop_last(), kind, id);
        let j = choose|j: int|
            0 <= j < moves.drop_last().len() && #[trigger] closes(kind, moves.drop_last()[j]) is Some
                && closes(kind, moves.drop_last()[j]).unwrap().0 == id;
        assert(moves.drop_last()[j] == moves[j]);
    }
}

/// Retention of the dissents under an accepted batch.
proof fn lemma_dissents_retained(base: Revision, moves: Seq<Move>, next: Revision)
    requires
        batch_error(base, moves) is None,
        residual_successor(dissent_items(base.dissents@), dissent_items(next.dissents@), moves, ResidualKind::Dissent),
    ensures
        next.dissents@.len() == base.dissents@.len(),
        forall|i: int|
            0 <= i < base.dissents@.len() ==> #[trigger] next.dissents@[i].id == base.dissents@[i].id
                && next.dissents@[i].claim@ == base.dissents@[i].claim@ && (
            base.dissents@[i].resolved_by is Some ==> opt_res_view(next.dissents@[i].resolved_by)
                == opt_res_view(base.dissents@[i].resolved_by)),
{
    lemma_no_dissent_created(moves);
    let od = dissent_items(base.dissents@);
    let nd = dissent_items(next.dissents@);
    assert forall|i: int| 0 <= i < base.dissents@.len() implies #[trigger] next.dissents@[i].id
        == base.dissents@[i].id && next.dissents@[i].claim@ == base.dissents@[i].claim@ && (
    base.dissents@[i].resolved_by is Some ==> opt_res_view(next.dissents@[i].resolved_by)
        == opt_res_view(base.dissents@[i].resolved_by)) by {
        assert(nd[i] == carried_item(od, i, moves, ResidualKind::Dissent));
        let id = od[i].0;
        if base.dissents@[i].resolved_by is Some && first_index(item_ids(od), id) == i
            && resolution_in(moves, ResidualKind::Dissent, id) is Some {
            lemma_resolution_source(moves, ResidualKind::Dissent, id);
            let j = choose|j: int|
                0 <= j < moves.len() && #[trigger] closes(ResidualKind::Dissent, moves[j]) is Some
                    && closes(ResidualKind::Dissent, moves[j]).unwrap().0 == id;
            lemma_valid_batch_moves(base, moves, j);
        }
    }
}

/// Retention of the risks under an accepted batch.
proof fn lemma_risks_retained(base: Revision, moves: Seq<Move>, next: Revision)
    requires
        batch_error(base, moves) is None,
        residual_successor(risk_items(base.risks@), risk_items(next.risks@), moves, ResidualKind::Risk),
    ensures
        base.risks@.len() <= next.risks@.len(),
        forall|i: int|
            0 <= i < base.risks@.len() ==> #[trigger] next.risks@[i].id == base.risks@[i].id
                && next.risks@[i].description@ == base.risks@[i].description@ && (
            base.risks@[i].resolved_by is Some ==> opt_res_view(next.risks@[i].resolved_by)
                == opt_res_view(base.risks@[i].resolved_by)),
{
    let or = risk_items(base.risks@);
    let nr = risk_items(next.risks@);
    assert forall|i: int| 0 <= i < base.risks@.len() implies #[trigger] next.risks@[i].id
        == base.risks@[i].id && next.risks@[i].description@ == base.risks@[i].description@ && (
    base.risks@[i].resolved_by is Some ==> opt_res_view(next.risks@[i].resolved_by)
        == opt_res_view(base.risks@[i].resolved_by)) by {
        assert(nr[i] == carried_item(or, i, moves, ResidualKind::Risk));
        let id = or[i].0;
        if base.risks@[i].resolved_by is Some && first_index(item_ids(or), id) == i
            && resolution_in(moves, ResidualKind::Risk, id) is Some {
            lemma_resolution_source(moves, ResidualKind::Risk, id);
            let j = choose|j: int|
                0 <= j < moves.len() && #[trigger] closes(ResidualKind::Risk, moves[j]) is Some
                    && closes(ResidualKind::Risk, moves[j]).unwrap().0 == id;
            lemma_valid_batch_moves(base, moves, j);
        }
    }
}

/// Retention of the questions under an accepted batch.
proof fn lemma_questions_retained(base: Revision, moves: Seq<Move>, next: Revision)
    requires
        batch_error(base, moves) is None,
        residual_successor(question_items(base.questions@), question_items(next.questions@), moves, ResidualKind::Question),
    ensures
        base.questions@.len() <= next.questions@.len(),
        forall|i: int|
            0 <= i < base.questions@.len() ==> #[trigger] next.questions@[i].id == base.questions@[i].id
                && next.questions@[i].text@ == base.questions@[i].text@ && (
            base.questions@[i].answered_by is Some ==> opt_res_view(next.questions@[i].answered_by)
                == opt_res_view(base.questions@[i].answered_by)),
{
    let oq = question_items(base.questions@);
    let nq = question_items(next.questions@);
    assert forall|i: int| 0 <= i < base.questions@.len() implies #[trigger] next.questions@[i].id
        == base.questions@[i].id && next.questions@[i].text@ == base.questions@[i].text@ && (
    base.questions@[i].answered_by is Some ==> opt_res_view(next.questions@[i].answered_by)
        == opt_res_view(base.questions@[i].answered_by)) by {
        assert(nq[i] == carried_item(oq, i, moves, ResidualKind::Question));
        let id = oq[i].0;
        if base.questions@[i].answered_by is Some && first_index(item_ids(oq), id) == i
            && resolution_in(moves, ResidualKind::Question, id) is Some {
            lemma_resolution_source(moves, ResidualKind::Question, id);
            let j = choose|j: int|
                0 <= j < moves.len() && #[trigger] closes(ResidualKind::Question, moves[j]) is Some
                    && closes(ResidualKind::Question, moves[j]).unwrap().0 == id;
            lemma_valid_batch_moves(base, moves, j);
        }
    }
}

/// The `k`-th item a batch creates follows the carried items, open, with its text.
proof fn lemma_created_item(old: Seq<ItemView>, new: Seq<ItemView>, moves: Seq<Move>, kind: ResidualKind, k: int)
    requires
        residual_successor(old, new, moves, kind),
        0 <= k < created_in(moves, kind).len(),
    ensures
        new[old.len() + k].1 == created_in(moves, kind)[k],
        new[old.len() + k].2 is None,
{
    assert(new[old.len() + k].1 == created_in(moves, kind)[k]);
}

/// Every residual item an accepted batch creates gets its own freshly drawn identifier: each
/// risk and question the successor holds past the base's carries a random (version-4) UUID as
/// its id, is open, and has the text the batch gave it, in batch order; a batch creates no
/// dissent.
pub proof fn lemma_created_items_get_fresh_ids(
    base: Revision,
    understanding: Seq<char>,
    moves: Seq<Move>,
    next: Revision,
)
    requires
        batch_error(base, moves) is None,
        is_successor(base, understanding, moves, next),
    ensures
        next.dissents@.len() == base.dissents@.len(),
        next.risks@.len() == base.risks@.len() + created_in(moves, ResidualKind::Risk).len(),
        next.questions@.len() == base.questions@.len() + created_in(moves, ResidualKind::Question).len(),
        forall|i: int|
            base.risks@.len() <= i < next.risks@.len() ==> is_random_uuid((#[trigger] next.risks@[i]).id)
                && next.risks@[i].resolved_by is None && next.risks@[i].description@ == created_in(
                moves,
                ResidualKind::Risk,
            )[i - base.risks@.len()],
        forall|i: int|
            base.questions@.len() <= i < next.questions@.len() ==> is_random_uuid(
                (#[trigger] next.questions@[i]).id,
            ) && next.questions@[i].answered_by is None && next.questions@[i].text@ == created_in(
                moves,
                ResidualKind::Question,
            )[i - base.questions@.len()],
{
    lemma_no_dissent_created(moves);
    let nr = risk_items(next.risks@);
    let nq = question_items(next.questions@);
    assert forall|i: int| base.risks@.len() <= i < next.risks@.len() implies is_random_uuid(
        (#[trigger] next.risks@[i]).id,
    ) && next.risks@[i].resolved_by is None && next.risks@[i].description@ == created_in(
        moves,
        ResidualKind::Risk,
    )[i - base.risks@.len()] by {
        let k = i - base.risks@.len();
        let added = created_in(moves, ResidualKind::Risk);
        assert(risk_items(base.risks@).len() == base.risks@.len());
        assert(residual_successor(risk_items(base.risks@), nr, moves, ResidualKind::Risk));
        assert(nr.len() == next.risks@.len());
        assert(0 <= k < added.len());
        lemma_created_item(risk_items(base.risks@), nr, moves, ResidualKind::Risk, k);
        assert(nr[risk_items(base.risks@).len() + k].1 == added[k] && nr[risk_items(base.risks@).len() + k].2 is None);
        assert(nr[i] == (next.risks@[i].id, next.risks@[i].description@, opt_res_view(next.risks@[i].resolved_by)));
        assert(is_random_uuid(next.risks@[i].id));
    }
    assert forall|i: int| base.questions@.len() <= i < next.questions@.len() implies is_random_uuid(
        (#[trigger] next.questions@[i]).id,
    ) && next.questions@[i].answered_by is None && next.questions@[i].text@ == created_in(
        moves,
        ResidualKind::Question,
    )[i - base.questions@.len()] by {
        let k = i - base.questions@.len();
        let added = created_in(moves, ResidualKind::Question);
        assert(question_items(base.questions@).len() == base.questions@.len());
        lemma_created_item(question_items(base.questions@), nq, moves, ResidualKind::Question, k);
        assert(nq[question_items(base.questions@).len() + k].1 == added[k] && nq[question_items(base.questions@).len() + k].2 is None);
        assert(nq[i] == (next.questions@[i].id, next.questions@[i].text@, opt_res_view(next.questions@[i].answered_by)));
        assert(is_random_uuid(next.questions@[i].id));
    }
}

/// Conservative retention: under a batch that is accepted, every residual item of the base
/// survives in place with its id and text, and an item that was already closed keeps its
/// resolution — a batch can close open items and append new ones, nothing else.
pub proof fn lemma_accepted_batch_retains_items(base: Revision, understanding: Seq<char>, moves: Seq<Move>, next: Revision)
    requires
        batch_error(base, moves) is None,
        is_successor(base, understanding, moves, next),
    ensures
        next.dissents@.len() == base.dissents@.len(),
        base.risks@.len() <= next.risks@.len(),
        base.questions@.len() <= next.questions@.len(),
        forall|i: int|
            0 <= i < base.dissents@.len() ==> #[trigger] next.dissents@[i].id == base.dissents@[i].id
                && next.dissents@[i].claim@ == base.dissents@[i].claim@ && (
            base.dissents@[i].resolved_by is Some ==> opt_res_view(next.dissents@[i].resolved_by)
                == opt_res_view(base.dissents@[i].resolved_by)),
        forall|i: int|
            0 <= i < base.risks@.len() ==> #[trigger] next.risks@[i].id == base.risks@[i].id
                && next.risks@[i].description@ == base.risks@[i].description@ && (
            base.risks@[i].resolved_by is Some ==> opt_res_view(next.risks@[i].resolved_by)
                == opt_res_view(base.risks@[i].resolved_by)),
        forall|i: int|
            0 <= i < base.questions@.len() ==> #[trigger] next.questions@[i].id == base.questions@[i].id
                && next.questions@[i].text@ == base.questions@[i].text@ && (
            base.questions@[i].answered_by is Some ==> opt_res_view(next.questions@[i].answered_by)
                == opt_res_view(base.questions@[i].answered_by)),
{
    lemma_dissents_retained(base, moves, next);
    lemma_risks_retained(base, moves, next);
    lemma_questions_retained(base, moves, next);
}

/// What a revision's digest is taken over: the lowercase hex of the SHA-256 of the UTF-8 bytes
/// of the canonical JSON of all six content fields — proposal, understanding, positions,
/// dissents, risks and questions.
pub proof fn lemma_digest_hashes_all_content(rev: Revision)
    ensures
        digest_of(rev) == bytes_hex(
            sha256_of(
                encode_utf8(
                    canonical_content(
                        rev.original_proposal@,
                        rev.current_understanding@,
                        rev.positions@,
                        rev.dissents@,
                        rev.risks@,
                        rev.questions@,
                    ),
                ),
            ),
        ),
{
}

/// The content digest is a function of content alone: two revisions with the same proposal,
/// understanding, positions and residual items digest identically, whatever their
/// `revision_id`, `parent_digest` or stored `content_digest`.
pub proof fn lemma_digest_depends_only_on_content(a: Revision, b: Revision)
    requires
        a.original_proposal@ == b.original_proposal@,
        a.current_understanding@ == b.current_understanding@,
        a.positions@ == b.positions@,
        dissent_items(a.dissents@) == dissent_items(b.dissents@),
        risk_items(a.risks@) == risk_items(b.risks@),
        question_items(a.questions@) == question_items(b.questions@),
    ensures
        digest_of(a) == digest_of(b),
{
    assert(a.dissents@.len() == dissent_items(a.dissents@).len());
    assert(a.dissents@.map_values(|d: Dissent| dissent_json(d)) =~= b.dissents@.map_values(
        |d: Dissent| dissent_json(d),
    )) by {
        assert forall|i: int| 0 <= i < a.dissents@.len() implies #[trigger] dissent_json(a.dissents@[i])
            == dissent_json(b.dissents@[i]) by {
            assert(dissent_items(a.dissents@)[i] == dissent_items(b.dissents@)[i]);
            lemma_opt_res_json(a.dissents@[i].resolved_by, b.dissents@[i].resolved_by);
        }
    }
    assert(a.risks@.len() == risk_items(a.risks@).len());
    assert(a.risks@.map_values(|r: Risk| risk_json(r)) =~= b.risks@.map_values(
        |r: Risk| risk_json(r),
    )) by {
        assert forall|i: int| 0 <= i < a.risks@.len() implies #[trigger] risk_json(a.risks@[i])
            == risk_json(b.risks@[i]) by {
            assert(risk_items(a.risks@)[i] == risk_items(b.risks@)[i]);
            lemma_opt_res_json(a.risks@[i].resolved_by, b.risks@[i].resolved_by);
        }
    }
    assert(a.questions@.len() == question_items(a.questions@).len());
    assert(a.questions@.map_values(|q: Question| question_json(q)) =~= b.questions@.map_values(
        |q: Question| question_json(q),
    )) by {
        assert forall|i: int| 0 <= i < a.questions@.len() implies #[trigger] question_json(a.questions@[i])
            == question_json(b.questions@[i]) by {
            assert(question_items(a.questions@)[i] == question_items(b.questions@)[i]);
            lemma_opt_res_json(a.questions@[i].answered_by, b.questions@[i].answered_by);
        }
    }
}

proof fn lemma_opt_res_json(x: Option<Resolution>, y: Option<Resolution>)
    requires
        opt_res_view(x) == opt_res_view(y),
    ensures
        crate::digest::opt_resolution_json(x) == crate::digest::opt_resolution_json(y),
{
    if x is Some {
        assert(res_view(x.unwrap()) == res_view(y.unwrap()));
    }
}

} // verus!
