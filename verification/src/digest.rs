//! Content digests: SHA-256 over a canonical JSON rendering, shown as lowercase hex.
//!
//! The canonical rendering of a revision's content is the compact JSON array
//! `[original_proposal, current_understanding, positions, dissents, risks, questions]`, each
//! item an object with its fields in declaration order and every identifier as its hyphenated
//! text. String escaping is `serde_json`'s; the framing is the library's own.

use vstd::prelude::*;
use vstd::utf8::encode_utf8;
use sha2::Digest as _;

use crate::ids::{bytes_hex, hex_digit, id_text, is_lower_hex_char, lemma_bytes_hex_form, to_hex, uuid_text};
use crate::revision::{Dissent, EventRef, Question, Resolution, Risk};

verus! {

/// How `serde_json` writes `c` inside a string literal: `"`, `\` and the control characters
/// below U+0020 are escaped (the short forms for backspace, tab, line feed, form feed and carriage
/// return, otherwise `\u00` and two lowercase hex digits); every other character is itself.
pub open spec fn json_escape(c: char) -> Seq<char> {
    if c == '"' {
        seq!['\\', '"']
    } else if c == '\\' {
        seq!['\\', '\\']
    } else if c == '\x08' {
        seq!['\\', 'b']
    } else if c == '\t' {
        seq!['\\', 't']
    } else if c == '\n' {
        seq!['\\', 'n']
    } else if c == '\x0c' {
        seq!['\\', 'f']
    } else if c == '\r' {
        seq!['\\', 'r']
    } else if (c as int) < 0x20 {
        seq!['\\', 'u', '0', '0', hex_digit((c as int) / 16), hex_digit((c as int) % 16)]
    } else {
        seq![c]
    }
}

/// The characters of `s`, each as `serde_json` writes it inside a string literal.
pub open spec fn json_escaped(s: Seq<char>) -> Seq<char>
    decreases s.len(),
{
    if s.len() == 0 {
        Seq::empty()
    } else {
        json_escaped(s.drop_last()) + json_escape(s.last())
    }
}

/// The JSON string literal `serde_json` writes for `s`: quoted, each character escaped as
/// [`json_escape`] says.
pub open spec fn json_string(s: Seq<char>) -> Seq<char> {
    seq!['"'] + json_escaped(s) + seq!['"']
}

/// The SHA-256 digest of `data` as computed by the `sha2` crate.
pub uninterp spec fn sha256_of(data: Seq<u8>) -> Seq<u8>;

/// `serde_json::to_string` on a string slice: the quoted literal, with the escapes its
/// compact formatter writes ([`json_string`]). Serializing a `&str` into a `String` cannot fail.
#[verifier::external_body]
fn json_quote(s: &str) -> (r: String)
    ensures
        r@ == json_string(s@),
{
    serde_json::to_string(s).unwrap_or_default()
}

/// `sha2::Sha256::digest` over `data`, named by [`sha256_of`]; the output is always 32 bytes
/// (`Sha256`'s output size).
#[verifier::external_body]
pub(crate) fn sha256(data: &[u8]) -> (h: Vec<u8>)
    ensures
        h@ == sha256_of(data@),
        h@.len() == 32,
{
    sha2::Sha256::digest(data).to_vec()
}

/// The comma-joined items.
pub open spec fn joined(items: Seq<Seq<char>>) -> Seq<char>
    decreases items.len(),
{
    if items.len() == 0 {
        Seq::empty()
    } else if items.len() == 1 {
        items[0]
    } else {
        joined(items.drop_last()) + ","@ + items.last()
    }
}

/// A JSON array of already-rendered items.
pub open spec fn json_list(items: Seq<Seq<char>>) -> Seq<char> {
    "["@ + joined(items) + "]"@
}

pub open spec fn event_ref_json(e: EventRef) -> Seq<char> {
    "{\"event_id\":"@ + json_string(uuid_text(e.event_id)) + "}"@
}

pub open spec fn resolution_json(r: Resolution) -> Seq<char> {
    "{\"reason\":"@ + json_string(r.reason@) + ",\"provenance\":"@ + json_list(
        r.provenance@.map_values(|e: EventRef| event_ref_json(e)),
    ) + "}"@
}

pub open spec fn opt_resolution_json(o: Option<Resolution>) -> Seq<char> {
    match o {
        Some(r) => resolution_json(r),
        None => "null"@,
    }
}

pub open spec fn dissent_json(d: Dissent) -> Seq<char> {
    "{\"id\":"@ + json_string(uuid_text(d.id)) + ",\"claim\":"@ + json_string(d.claim@)
        + ",\"resolved_by\":"@ + opt_resolution_json(d.resolved_by) + "}"@
}

pub open spec fn risk_json(r: Risk) -> Seq<char> {
    "{\"id\":"@ + json_string(uuid_text(r.id)) + ",\"description\":"@ + json_string(
        r.description@,
    ) + ",\"resolved_by\":"@ + opt_resolution_json(r.resolved_by) + "}"@
}

pub open spec fn question_json(q: Question) -> Seq<char> {
    "{\"id\":"@ + json_string(uuid_text(q.id)) + ",\"text\":"@ + json_string(q.text@)
        + ",\"answered_by\":"@ + opt_resolution_json(q.answered_by) + "}"@
}

/// The canonical JSON rendering of a revision's content fields.
pub open spec fn canonical_content(
    original_proposal: Seq<char>,
    current_understanding: Seq<char>,
    positions: Seq<String>,
    dissents: Seq<Dissent>,
    risks: Seq<Risk>,
    questions: Seq<Question>,
) -> Seq<char> {
    "["@ + json_string(original_proposal) + ","@ + json_string(current_understanding) + ","@
        + json_list(positions.map_values(|s: String| json_string(s@))) + ","@ + json_list(
        dissents.map_values(|d: Dissent| dissent_json(d)),
    ) + ","@ + json_list(risks.map_values(|r: Risk| risk_json(r))) + ","@ + json_list(
        questions.map_values(|q: Question| question_json(q)),
    ) + "]"@
}

/// The content digest: the lowercase hex of the SHA-256 of the UTF-8 canonical rendering.
pub open spec fn revision_content_digest(
    original_proposal: Seq<char>,
    current_understanding: Seq<char>,
    positions: Seq<String>,
    dissents: Seq<Dissent>,
    risks: Seq<Risk>,
    questions: Seq<Question>,
) -> Seq<char> {
    bytes_hex(
        sha256_of(
            encode_utf8(
                canonical_content(
                    original_proposal,
                    current_understanding,
                    positions,
                    dissents,
                    risks,
                    questions,
                ),
            ),
        ),
    )
}

/// Renders rendered items as a JSON array.
fn list_text(items: &Vec<String>) -> (r: String)
    ensures
        r@ == json_list(items@.map_values(|s: String| s@)),
{
    let ghost views = items@.map_values(|s: String| s@);
    let mut out = String::new();
    let mut i: usize = 0;
    while i < items.len()
        invariant
            i <= items@.len(),
            views == items@.map_values(|s: String| s@),
            out@ == joined(views.subrange(0, i as int)),
        decreases items@.len() - i,
    {
        proof {
            let next = views.subrange(0, i + 1);
            assert(next.drop_last() =~= views.subrange(0, i as int));
            assert(next.last() == items@[i as int]@);
        }
        if i > 0 {
            out.append(",");
        }
        out.append(items[i].as_str());
        i = i + 1;
    }
    proof {
        assert(views.subrange(0, items@.len() as int) =~= views);
    }
    let mut r = String::new();
    r.append("[");
    r.append(out.as_str());
    r.append("]");
    r
}

fn event_ref_text(e: &EventRef) -> (r: String)
    ensures
        r@ == event_ref_json(*e),
{
    let id = id_text(e.event_id);
    let q = json_quote(id.as_str());
    let mut r = String::new();
    r.append("{\"event_id\":");
    r.append(q.as_str());
    r.append("}");
    r
}

fn resolution_text(res: &Resolution) -> (r: String)
    ensures
        r@ == resolution_json(*res),
{
    let mut parts: Vec<String> = Vec::new();
    let mut i: usize = 0;
    while i < res.provenance.len()
        invariant
            i <= res.provenance@.len(),
            parts@.len() == i,
            forall|j: int| 0 <= j < i ==> #[trigger] parts@[j]@ == event_ref_json(res.provenance@[j]),
        decreases res.provenance@.len() - i,
    {
        parts.push(event_ref_text(&res.provenance[i]));
        i = i + 1;
    }
    let list = list_text(&parts);
    proof {
        assert(parts@.map_values(|s: String| s@) =~= res.provenance@.map_values(
            |e: EventRef| event_ref_json(e),
        ));
    }
    let reason = json_quote(res.reason.as_str());
    let mut r = String::new();
    r.append("{\"reason\":");
    r.append(reason.as_str());
    r.append(",\"provenance\":");
    r.append(list.as_str());
    r.append("}");
    r
}

fn opt_resolution_text(o: &Option<Resolution>) -> (r: String)
    ensures
        r@ == opt_resolution_json(*o),
{
    match o {
        Some(res) => resolution_text(res),
        None => {
            let mut r = String::new();
            r.append("null");
            r
        },
    }
}

/// One residual item rendered as `{"id":..,"<text_key>":..,"<resolution_key>":..}`.
pub open spec fn item_json(
    id: u128,
    text_key: Seq<char>,
    text: Seq<char>,
    res_key: Seq<char>,
    res: Option<Resolution>,
) -> Seq<char> {
    "{\"id\":"@ + json_string(uuid_text(id)) + text_key + json_string(text) + res_key
        + opt_resolution_json(res) + "}"@
}

fn item_text(id: u128, text_key: &str, text: &str, res_key: &str, res: &Option<Resolution>) -> (r:
    String)
    ensures
        r@ == item_json(id, text_key@, text@, res_key@, *res),
{
    let idt = id_text(id);
    let q_id = json_quote(idt.as_str());
    let q_text = json_quote(text);
    let res_text = opt_resolution_text(res);
    let mut r = String::new();
    r.append("{\"id\":");
    r.append(q_id.as_str());
    r.append(text_key);
    r.append(q_text.as_str());
    r.append(res_key);
    r.append(res_text.as_str());
    r.append("}");
    r
}

/// The content digest of a revision's content fields: lowercase hex of SHA-256 over the
/// UTF-8 bytes of the canonical rendering.
pub(crate) fn content_digest(
    original_proposal: &String,
    current_understanding: &String,
    positions: &Vec<String>,
    dissents: &Vec<Dissent>,
    risks: &Vec<Risk>,
    questions: &Vec<Question>,
) -> (d: String)
    ensures
        d@ == revision_content_digest(
            original_proposal@,
            current_understanding@,
            positions@,
            dissents@,
            risks@,
            questions@,
        ),
        d@.len() == 64,
        forall|i: int| 0 <= i < 64 ==> is_lower_hex_char(#[trigger] d@[i]),
{
    let mut pos_parts: Vec<String> = Vec::new();
    let mut i: usize = 0;
    while i < positions.len()
        invariant
            i <= positions@.len(),
            pos_parts@.len() == i,
            forall|j: int| 0 <= j < i ==> #[trigger] pos_parts@[j]@ == json_string(positions@[j]@),
        decreases positions@.len() - i,
    {
        pos_parts.push(json_quote(positions[i].as_str()));
        i = i + 1;
    }
    proof {
        assert(pos_parts@.map_values(|s: String| s@) =~= positions@.map_values(
            |s: String| json_string(s@),
        ));
    }
    let mut d_parts: Vec<String> = Vec::new();
    let mut i: usize = 0;
    while i < dissents.len()
        invariant
            i <= dissents@.len(),
            d_parts@.len() == i,
            forall|j: int| 0 <= j < i ==> #[trigger] d_parts@[j]@ == dissent_json(dissents@[j]),
        decreases dissents@.len() - i,
    {
        let d = &dissents[i];
        d_parts.push(
            item_text(d.id, ",\"claim\":", d.claim.as_str(), ",\"resolved_by\":", &d.resolved_by),
        );
        i = i + 1;
    }
    proof {
        assert(d_parts@.map_values(|s: String| s@) =~= dissents@.map_values(
            |d: Dissent| dissent_json(d),
        ));
    }
    let mut r_parts: Vec<String> = Vec::new();
    let mut i: usize = 0;
    while i < risks.len()
        invariant
            i <= risks@.len(),
            r_parts@.len() == i,
            forall|j: int| 0 <= j < i ==> #[trigger] r_parts@[j]@ == risk_json(risks@[j]),
        decreases risks@.len() - i,
    {
        let r = &risks[i];
        r_parts.push(
            item_text(
                r.id,
                ",\"description\":",
                r.description.as_str(),
                ",\"resolved_by\":",
                &r.resolved_by,
            ),
        );
        i = i + 1;
    }
    proof {
        assert(r_parts@.map_values(|s: String| s@) =~= risks@.map_values(|r: Risk| risk_json(r)));
    }
    let mut q_parts: Vec<String> = Vec::new();
    let mut i: usize = 0;
    while i < questions.len()
        invariant
            i <= questions@.len(),
            q_parts@.len() == i,
            forall|j: int| 0 <= j < i ==> #[trigger] q_parts@[j]@ == question_json(questions@[j]),
        decreases questions@.len() - i,
    {
        let q = &questions[i];
        q_parts.push(
            item_text(q.id, ",\"text\":", q.text.as_str(), ",\"answered_by\":", &q.answered_by),
        );
        i = i + 1;
    }
    proof {
        assert(q_parts@.map_values(|s: String| s@) =~= questions@.map_values(
            |q: Question| question_json(q),
        ));
    }
    let op = json_quote(original_proposal.as_str());
    let cu = json_quote(current_understanding.as_str());
    let pl = list_text(&pos_parts);
    let dl = list_text(&d_parts);
    let rl = list_text(&r_parts);
    let ql = list_text(&q_parts);
    let mut text = String::new();
    text.append("[");
    text.append(op.as_str());
    text.append(",");
    text.append(cu.as_str());
    text.append(",");
    text.append(pl.as_str());
    text.append(",");
    text.append(dl.as_str());
    text.append(",");
    text.append(rl.as_str());
    text.append(",");
    text.append(ql.as_str());
    text.append("]");
    let hash = sha256(text.as_str().as_bytes());
    proof {
        lemma_bytes_hex_form(hash@);
    }
    to_hex(hash.as_slice())
}

/// Appending a non-empty item lengthens a comma-joined list.
proof fn lemma_joined_push_len(items: Seq<Seq<char>>, y: Seq<char>)
    requires
        y.len() > 0,
    ensures
        joined(items.push(y)).len() > joined(items).len(),
{
    let n = items.push(y);
    assert(n.drop_last() =~= items);
    if items.len() > 0 {
        assert(joined(n) == joined(n.drop_last()) + ","@ + n.last());
    } else {
        assert(joined(n) == n[0]);
    }
}

/// Replacing one item of a comma-joined list changes its length by the items' difference.
proof fn lemma_joined_update_len(items: Seq<Seq<char>>, i: int, y: Seq<char>)
    requires
        0 <= i < items.len(),
    ensures
        joined(items.update(i, y)).len() == joined(items).len() - items[i].len() + y.len(),
    decreases items.len(),
{
    let u = items.update(i, y);
    if items.len() >= 2 {
        if i == items.len() - 1 {
            assert(u.drop_last() =~= items.drop_last());
        } else {
            assert(u.drop_last() =~= items.drop_last().update(i, y));
            lemma_joined_update_len(items.drop_last(), i, y);
        }
    }
}

/// The question lists are what the canonical content holds of the questions: two revisions'
/// contents that agree on every other field are equal exactly when their questions render to
/// the same JSON list. So the digest is taken over the questions' ids, texts and answers.
pub proof fn lemma_content_determines_questions(
    original_proposal: Seq<char>,
    current_understanding: Seq<char>,
    positions: Seq<String>,
    dissents: Seq<Dissent>,
    risks: Seq<Risk>,
    q1: Seq<Question>,
    q2: Seq<Question>,
)
    ensures
        (canonical_content(original_proposal, current_understanding, positions, dissents, risks, q1)
            == canonical_content(original_proposal, current_understanding, positions, dissents, risks, q2))
            == (json_list(q1.map_values(|q: Question| question_json(q))) == json_list(
            q2.map_values(|q: Question| question_json(q)),
        )),
{
    let a = "["@ + json_string(original_proposal) + ","@ + json_string(current_understanding) + ","@
        + json_list(positions.map_values(|s: String| json_string(s@))) + ","@ + json_list(
        dissents.map_values(|d: Dissent| dissent_json(d)),
    ) + ","@ + json_list(risks.map_values(|r: Risk| risk_json(r))) + ","@;
    let l1 = json_list(q1.map_values(|q: Question| question_json(q)));
    let l2 = json_list(q2.map_values(|q: Question| question_json(q)));
    let c1 = canonical_content(original_proposal, current_understanding, positions, dissents, risks, q1);
    let c2 = canonical_content(original_proposal, current_understanding, positions, dissents, risks, q2);
    assert(c1 =~= a + l1 + "]"@);
    assert(c2 =~= a + l2 + "]"@);
    reveal_strlit("]");
    if c1 == c2 {
        assert(c1.subrange(a.len() as int, c1.len() - 1) =~= l1);
        assert(c2.subrange(a.len() as int, c2.len() - 1) =~= l2);
    }
}

/// Asking a question changes the content the digest is taken over: with one more question and
/// every other field the same, the canonical content is strictly longer.
pub proof fn lemma_asking_changes_content(
    original_proposal: Seq<char>,
    current_understanding: Seq<char>,
    positions: Seq<String>,
    dissents: Seq<Dissent>,
    risks: Seq<Risk>,
    questions: Seq<Question>,
    asked: Question,
)
    ensures
        canonical_content(
            original_proposal,
            current_understanding,
            positions,
            dissents,
            risks,
            questions.push(asked),
        ).len() > canonical_content(original_proposal, current_understanding, positions, dissents, risks, questions).len(),
{
    reveal_strlit("{\"id\":");
    let m = questions.map_values(|q: Question| question_json(q));
    assert(questions.push(asked).map_values(|q: Question| question_json(q)) =~= m.push(question_json(asked)));
    assert(question_json(asked).len() > 0);
    lemma_joined_push_len(m, question_json(asked));
}

/// Answering a question changes the content the digest is taken over: when an open question
/// gets an answer and nothing else changes, the canonical content is strictly longer.
pub proof fn lemma_answering_changes_content(
    original_proposal: Seq<char>,
    current_understanding: Seq<char>,
    positions: Seq<String>,
    dissents: Seq<Dissent>,
    risks: Seq<Risk>,
    questions: Seq<Question>,
    i: int,
    answer: Resolution,
)
    requires
        0 <= i < questions.len(),
        questions[i].answered_by is None,
    ensures
        canonical_content(
            original_proposal,
            current_understanding,
            positions,
            dissents,
            risks,
            questions.update(i, Question { answered_by: Some(answer), ..questions[i] }),
        ).len() > canonical_content(original_proposal, current_understanding, positions, dissents, risks, questions).len(),
{
    reveal_strlit("null");
    reveal_strlit("{\"reason\":");
    let q = questions[i];
    let a = Question { answered_by: Some(answer), ..q };
    let m = questions.map_values(|q: Question| question_json(q));
    assert(questions.update(i, a).map_values(|q: Question| question_json(q)) =~= m.update(i, question_json(a)));
    assert(question_json(a).len() > question_json(q).len());
    lemma_joined_update_len(m, i, question_json(a));
}

} // verus!
