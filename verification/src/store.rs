//! How the dossier store lays out an event (the columns of one row, read back into the same
//! event), and which events a revision cites, which a commit checks before it lands. The SQL
//! itself is the application's.

use vstd::prelude::*;

use crate::event::{Event, EventPayload, EventVisibility, InvocationCoordinate, idempotency_key_of};
use crate::revision::{Dissent, EventRef, Question, Resolution, Revision, Risk};

verus! {

/// An event as one row of the `events` table.
#[derive(Clone, Debug)]
pub struct EventRow {
    pub id: u128,
    pub timestamp: u64,
    /// `public` or `sealed`.
    pub visibility: String,
    /// `raw_transcript`, `synthesis`, `public_record` or `sealed_evaluation`.
    pub payload_type: String,
    /// The text of a transcript, synthesis or public record.
    pub payload_content: Option<String>,
    /// The evaluator of a sealed evaluation.
    pub evaluator: Option<String>,
    /// The reasoning of a sealed evaluation.
    pub reasoning: Option<String>,
    /// The idempotency key of the event's coordinate, if it has one.
    pub idempotency_key: Option<String>,
}

/// The column text of a visibility.
pub open spec fn visibility_text(v: EventVisibility) -> Seq<char> {
    match v {
        EventVisibility::Public => "public"@,
        EventVisibility::Sealed => "sealed"@,
    }
}

/// The column text of a payload's kind.
pub open spec fn payload_type_text(p: EventPayload) -> Seq<char> {
    match p {
        EventPayload::RawTranscript(_) => "raw_transcript"@,
        EventPayload::Synthesis(_) => "synthesis"@,
        EventPayload::PublicRecord(_) => "public_record"@,
        EventPayload::SealedEvaluation { .. } => "sealed_evaluation"@,
    }
}

/// An optional text as its view.
pub open spec fn opt_view(o: Option<String>) -> Option<Seq<char>> {
    match o {
        Some(s) => Some(s@),
        None => None,
    }
}

/// A payload as plain values: its kind, and its content, evaluator and reasoning columns.
pub open spec fn payload_columns(p: EventPayload) -> (Seq<char>, Option<Seq<char>>, Option<Seq<char>>, Option<Seq<char>>) {
    match p {
        EventPayload::RawTranscript(t) => ("raw_transcript"@, Some(t@), None, None),
        EventPayload::Synthesis(t) => ("synthesis"@, Some(t@), None, None),
        EventPayload::PublicRecord(t) => ("public_record"@, Some(t@), None, None),
        EventPayload::SealedEvaluation { evaluator, reasoning } => (
            "sealed_evaluation"@,
            None,
            Some(evaluator@),
            Some(reasoning@),
        ),
    }
}

/// `row` is how `e` is stored.
pub open spec fn stores(e: Event, row: EventRow) -> bool {
    &&& row.id == e.id
    &&& row.timestamp == e.timestamp
    &&& row.visibility@ == visibility_text(e.visibility)
    &&& (row.payload_type@, opt_view(row.payload_content), opt_view(row.evaluator), opt_view(row.reasoning))
        == payload_columns(e.payload)
    &&& opt_view(row.idempotency_key) == match e.coordinate {
        Some(c) => Some(idempotency_key_of(c)),
        None => None::<Seq<char>>,
    }
}

/// A payload as plain values (its kind and texts), for comparing events by content.
pub open spec fn payload_view(p: EventPayload) -> (Seq<char>, Option<Seq<char>>, Option<Seq<char>>, Option<Seq<char>>) {
    payload_columns(p)
}

/// Two events carry the same identity, time, visibility, payload and coordinate.
pub open spec fn same_event(a: Event, b: Event) -> bool {
    &&& a.id == b.id
    &&& a.timestamp == b.timestamp
    &&& a.visibility == b.visibility
    &&& payload_view(a.payload) == payload_view(b.payload)
    &&& a.coordinate == b.coordinate
}


/// The column texts are pairwise distinct.
proof fn lemma_column_texts_distinct()
    ensures
        "public"@ != "sealed"@,
        "raw_transcript"@ != "synthesis"@,
        "raw_transcript"@ != "public_record"@,
        "raw_transcript"@ != "sealed_evaluation"@,
        "synthesis"@ != "public_record"@,
        "synthesis"@ != "sealed_evaluation"@,
        "public_record"@ != "sealed_evaluation"@,
{
    reveal_strlit("public");
    reveal_strlit("sealed");
    reveal_strlit("raw_transcript");
    reveal_strlit("synthesis");
    reveal_strlit("public_record");
    reveal_strlit("sealed_evaluation");
    assert("public"@[0] != "sealed"@[0]);
    assert("raw_transcript"@[0] != "synthesis"@[0]);
    assert("raw_transcript"@[0] != "public_record"@[0]);
    assert("raw_transcript"@[0] != "sealed_evaluation"@[0]);
    assert("synthesis"@[1] != "public_record"@[1]);
    assert("synthesis"@[1] != "sealed_evaluation"@[1]);
    assert("public_record"@[0] != "sealed_evaluation"@[0]);
}

/// A row that stores some event is well formed: a known visibility, and a known payload kind
/// with exactly the columns that kind uses.
pub open spec fn well_formed_row(row: EventRow) -> bool {
    &&& row.visibility@ == "public"@ || row.visibility@ == "sealed"@
    &&& {
        ||| row.payload_type@ == "sealed_evaluation"@ && row.payload_content is None && row.evaluator is Some
            && row.reasoning is Some
        ||| (row.payload_type@ == "raw_transcript"@ || row.payload_type@ == "synthesis"@
            || row.payload_type@ == "public_record"@) && row.payload_content is Some && row.evaluator is None
            && row.reasoning is None
    }
}

/// Whatever event is written, the row it is written as is one a read accepts.
pub proof fn lemma_stored_rows_are_well_formed(e: Event, row: EventRow)
    requires
        stores(e, row),
    ensures
        well_formed_row(row),
{
    match e.payload {
        EventPayload::SealedEvaluation { .. } => {
            assert(opt_view(row.payload_content) is None);
            assert(opt_view(row.evaluator) is Some);
            assert(opt_view(row.reasoning) is Some);
        },
        _ => {
            assert(opt_view(row.payload_content) is Some);
            assert(opt_view(row.evaluator) is None);
            assert(opt_view(row.reasoning) is None);
        },
    }
}

/// Lays out an event as one row.
pub fn event_row(e: &Event) -> (row: EventRow)
    ensures
        stores(*e, row),
{
    let visibility = match e.visibility {
        EventVisibility::Public => String::from_str("public"),
        EventVisibility::Sealed => String::from_str("sealed"),
    };
    let (payload_type, payload_content, evaluator, reasoning) = match &e.payload {
        EventPayload::RawTranscript(t) => (String::from_str("raw_transcript"), Some(t.clone()), None, None),
        EventPayload::Synthesis(t) => (String::from_str("synthesis"), Some(t.clone()), None, None),
        EventPayload::PublicRecord(t) => (String::from_str("public_record"), Some(t.clone()), None, None),
        EventPayload::SealedEvaluation { evaluator, reasoning } => (
            String::from_str("sealed_evaluation"),
            None,
            Some(evaluator.clone()),
            Some(reasoning.clone()),
        ),
    };
    let idempotency_key = match &e.coordinate {
        Some(c) => Some(c.idempotency_key()),
        None => None,
    };
    EventRow {
        id: e.id,
        timestamp: e.timestamp,
        visibility,
        payload_type,
        payload_content,
        evaluator,
        reasoning,
        idempotency_key,
    }
}

/// Whether `s` has the characters `t`.
fn is_text(s: &String, t: &str) -> (b: bool)
    ensures
        b == (s@ == t@),
{
    *s == String::from_str(t)
}

/// Reads a row back into an event, with the coordinate the row was found under (a row keeps
/// only its coordinate's key). A row with an unknown visibility, an unknown payload kind, or
/// columns that do not fit its kind is corrupt.
pub fn event_from_row(row: &EventRow, coordinate: Option<InvocationCoordinate>) -> (r: Result<Event, String>)
    ensures
        r is Ok <==> well_formed_row(*row),
        forall|e: Event| stores(e, *row) && e.coordinate == coordinate ==> (r matches Ok(d) && same_event(d, e)),
        r matches Ok(d) ==> d.id == row.id && d.timestamp == row.timestamp && d.coordinate == coordinate
            && visibility_text(d.visibility) == row.visibility@ && payload_columns(d.payload) == (
            row.payload_type@,
            opt_view(row.payload_content),
            opt_view(row.evaluator),
            opt_view(row.reasoning),
        ),
{
    proof {
        lemma_column_texts_distinct();
        assert forall|e: Event| stores(e, *row) implies well_formed_row(*row) by {
            lemma_stored_rows_are_well_formed(e, *row);
        }
    }
    let visibility = if is_text(&row.visibility, "public") {
        EventVisibility::Public
    } else if is_text(&row.visibility, "sealed") {
        EventVisibility::Sealed
    } else {
        let mut m = String::from_str("unknown event visibility ");
        m.append(row.visibility.as_str());
        return Err(m);
    };
    let kind = &row.payload_type;
    let payload = if is_text(kind, "sealed_evaluation") {
        match (&row.payload_content, &row.evaluator, &row.reasoning) {
            (None, Some(evaluator), Some(reasoning)) => EventPayload::SealedEvaluation {
                evaluator: evaluator.clone(),
                reasoning: reasoning.clone(),
            },
            _ => return Err(malformed(kind)),
        }
    } else {
        let text = match (&row.payload_content, &row.evaluator, &row.reasoning) {
            (Some(t), None, None) => t.clone(),
            _ => return Err(malformed(kind)),
        };
        if is_text(kind, "raw_transcript") {
            EventPayload::RawTranscript(text)
        } else if is_text(kind, "synthesis") {
            EventPayload::Synthesis(text)
        } else if is_text(kind, "public_record") {
            EventPayload::PublicRecord(text)
        } else {
            return Err(malformed(kind));
        }
    };
    Ok(Event { id: row.id, timestamp: row.timestamp, visibility, payload, coordinate })
}

/// The error for a row whose payload columns do not fit its kind.
fn malformed(kind: &String) -> (m: String)
    ensures
        m@ == "malformed event payload "@ + kind@,
{
    let mut m = String::from_str("malformed event payload ");
    m.append(kind.as_str());
    m
}


/// The events a resolution cites, in order.
pub open spec fn res_events(o: Option<Resolution>) -> Seq<u128> {
    match o {
        Some(r) => r.provenance@.map_values(|e: EventRef| e.event_id),
        None => Seq::empty(),
    }
}

/// The events the dissents' resolutions cite, in order.
pub open spec fn dissent_events(ds: Seq<Dissent>) -> Seq<u128>
    decreases ds.len(),
{
    if ds.len() == 0 {
        Seq::empty()
    } else {
        dissent_events(ds.drop_last()) + res_events(ds.last().resolved_by)
    }
}

/// The events the risks' resolutions cite, in order.
pub open spec fn risk_events(rs: Seq<Risk>) -> Seq<u128>
    decreases rs.len(),
{
    if rs.len() == 0 {
        Seq::empty()
    } else {
        risk_events(rs.drop_last()) + res_events(rs.last().resolved_by)
    }
}

/// The events the questions' answers cite, in order.
pub open spec fn question_events(qs: Seq<Question>) -> Seq<u128>
    decreases qs.len(),
{
    if qs.len() == 0 {
        Seq::empty()
    } else {
        question_events(qs.drop_last()) + res_events(qs.last().answered_by)
    }
}

/// Every event a revision cites: its dissents', then its risks', then its questions'.
pub open spec fn cited_events_of(rev: Revision) -> Seq<u128> {
    dissent_events(rev.dissents@) + risk_events(rev.risks@) + question_events(rev.questions@)
}

fn push_cited(out: &mut Vec<u128>, o: &Option<Resolution>)
    ensures
        final(out)@ == old(out)@ + res_events(*o),
{
    match o {
        None => {
            proof {
                assert(out@ =~= old(out)@ + res_events(*o));
            }
        },
        Some(r) => {
            let ghost start = out@;
            let mut i: usize = 0;
            while i < r.provenance.len()
                invariant
                    i <= r.provenance@.len(),
                    out@ == start + r.provenance@.subrange(0, i as int).map_values(|e: EventRef| e.event_id),
                decreases r.provenance@.len() - i,
            {
                out.push(r.provenance[i].event_id);
                proof {
                    assert(r.provenance@.subrange(0, i + 1).map_values(|e: EventRef| e.event_id)
                        =~= r.provenance@.subrange(0, i as int).map_values(|e: EventRef| e.event_id).push(
                        r.provenance@[i as int].event_id,
                    ));
                    assert(out@ =~= start + r.provenance@.subrange(0, i + 1).map_values(|e: EventRef| e.event_id));
                }
                i = i + 1;
            }
            proof {
                assert(r.provenance@.subrange(0, r.provenance@.len() as int) =~= r.provenance@);
            }
        },
    }
}

/// Every event the resolutions of `rev` cite, in order: a commit refuses a revision citing an
/// event that is not recorded.
pub fn cited_events(rev: &Revision) -> (ids: Vec<u128>)
    ensures
        ids@ == cited_events_of(*rev),
{
    let mut ids: Vec<u128> = Vec::new();
    let mut i: usize = 0;
    while i < rev.dissents.len()
        invariant
            i <= rev.dissents@.len(),
            ids@ == dissent_events(rev.dissents@.subrange(0, i as int)),
        decreases rev.dissents@.len() - i,
    {
        proof {
            let next = rev.dissents@.subrange(0, i + 1);
            assert(next.drop_last() =~= rev.dissents@.subrange(0, i as int));
        }
        push_cited(&mut ids, &rev.dissents[i].resolved_by);
        i = i + 1;
    }
    proof {
        assert(rev.dissents@.subrange(0, rev.dissents@.len() as int) =~= rev.dissents@);
    }
    let ghost d = ids@;
    let mut i: usize = 0;
    while i < rev.risks.len()
        invariant
            i <= rev.risks@.len(),
            ids@ == d + risk_events(rev.risks@.subrange(0, i as int)),
        decreases rev.risks@.len() - i,
    {
        proof {
            let next = rev.risks@.subrange(0, i + 1);
            assert(next.drop_last() =~= rev.risks@.subrange(0, i as int));
        }
        push_cited(&mut ids, &rev.risks[i].resolved_by);
        proof {
            assert(ids@ =~= d + risk_events(rev.risks@.subrange(0, i + 1)));
        }
        i = i + 1;
    }
    proof {
        assert(rev.risks@.subrange(0, rev.risks@.len() as int) =~= rev.risks@);
    }
    let ghost dr = ids@;
    let mut i: usize = 0;
    while i < rev.questions.len()
        invariant
            i <= rev.questions@.len(),
            ids@ == dr + question_events(rev.questions@.subrange(0, i as int)),
        decreases rev.questions@.len() - i,
    {
        proof {
            let next = rev.questions@.subrange(0, i + 1);
            assert(next.drop_last() =~= rev.questions@.subrange(0, i as int));
        }
        push_cited(&mut ids, &rev.questions[i].answered_by);
        proof {
            assert(ids@ =~= dr + question_events(rev.questions@.subrange(0, i + 1)));
        }
        i = i + 1;
    }
    proof {
        assert(rev.questions@.subrange(0, rev.questions@.len() as int) =~= rev.questions@);
    }
    ids
}

} // verus!
