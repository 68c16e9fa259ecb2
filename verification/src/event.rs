//! The append-only event log of a dossier, the coordinate that makes an agent invocation
//! idempotent, and the projection of the log a respondent is allowed to see.

use vstd::prelude::*;

use crate::ids::{fresh_id, id_text, uuid_text};
use crate::revision::Digest;
use crate::text::{decimal, decimal_text};

verus! {

#[derive(Debug, Clone, Copy, PartialEq, Eq, Structural)]
pub enum EventVisibility {
    Public,
    Sealed,
}

#[derive(Debug, Clone, PartialEq, Eq)]
pub enum EventPayload {
    /// A raw transcript from an agent.
    RawTranscript(String),
    /// A sealed evaluation record containing the justification/reasoning.
    SealedEvaluation { evaluator: String, reasoning: String },
    /// A synthesized position or resolution (public).
    Synthesis(String),
    /// A general public record.
    PublicRecord(String),
}

/// Where an agent invocation sits: which dossier, which role, over which input, at which turn
/// and attempt. Two invocations with the same coordinate are the same invocation.
#[derive(Debug, Clone, PartialEq, Eq)]
pub struct InvocationCoordinate {
    pub dossier_id: u128,
    pub role: String,
    pub input_digest: Digest,
    pub turn: u32,
    pub attempt: u32,
}

/// The idempotency key of a coordinate: `dossier:role:digest:turn:attempt`, the dossier id in
/// its hyphenated form and the numbers in decimal.
pub open spec fn idempotency_key_of(c: InvocationCoordinate) -> Seq<char> {
    uuid_text(c.dossier_id) + ":"@ + c.role@ + ":"@ + c.input_digest.0@ + ":"@ + decimal(
        c.turn as nat,
    ) + ":"@ + decimal(c.attempt as nat)
}

impl InvocationCoordinate {
    pub fn idempotency_key(&self) -> (k: String)
        ensures
            k@ == idempotency_key_of(*self),
    {
        let id = id_text(self.dossier_id);
        let turn = decimal_text(self.turn as u64);
        let attempt = decimal_text(self.attempt as u64);
        let mut k = String::new();
        k.append(id.as_str());
        k.append(":");
        k.append(self.role.as_str());
        k.append(":");
        k.append(self.input_digest.0.as_str());
        k.append(":");
        k.append(turn.as_str());
        k.append(":");
        k.append(attempt.as_str());
        k
    }
}

/// An append-only event.
#[derive(Debug, Clone, PartialEq, Eq)]
pub struct Event {
    pub id: u128,
    /// A simplified timestamp.
    pub timestamp: u64,
    pub visibility: EventVisibility,
    pub payload: EventPayload,
    pub coordinate: Option<InvocationCoordinate>,
}

impl Event {
    /// A public event with a fresh id and no coordinate.
    pub fn new_public(payload: EventPayload, timestamp: u64) -> (e: Self)
        ensures
            e.timestamp == timestamp,
            e.visibility == EventVisibility::Public,
            e.payload == payload,
            e.coordinate is None,
    {
        Event {
            id: fresh_id(),
            timestamp,
            visibility: EventVisibility::Public,
            payload,
            coordinate: None,
        }
    }

    /// A sealed event with a fresh id and no coordinate.
    pub fn new_sealed(payload: EventPayload, timestamp: u64) -> (e: Self)
        ensures
            e.timestamp == timestamp,
            e.visibility == EventVisibility::Sealed,
            e.payload == payload,
            e.coordinate is None,
    {
        Event {
            id: fresh_id(),
            timestamp,
            visibility: EventVisibility::Sealed,
            payload,
            coordinate: None,
        }
    }
}

/// Whether a respondent may see an event: it is public, and it is neither a raw transcript
/// nor a sealed evaluation.
pub open spec fn respondent_may_see(e: Event) -> bool {
    &&& e.visibility == EventVisibility::Public
    &&& !(e.payload is RawTranscript)
    &&& !(e.payload is SealedEvaluation)
}

/// The events a respondent may see, in log order.
pub open spec fn respondent_view(events: Seq<Event>) -> Seq<Event>
    decreases events.len(),
{
    if events.len() == 0 {
        Seq::empty()
    } else if respondent_may_see(events.last()) {
        respondent_view(events.drop_last()).push(events.last())
    } else {
        respondent_view(events.drop_last())
    }
}

/// A projection of the event log tailored for the respondent prompt: raw transcripts and
/// sealed evaluator records never enter it.
pub struct RespondentContextProjection<'a> {
    events: Vec<&'a Event>,
}

impl<'a> RespondentContextProjection<'a> {
    /// The events the projection holds.
    pub closed spec fn visible(&self) -> Seq<Event> {
        self.events@.map_values(|e: &'a Event| *e)
    }

    pub fn build(all_events: &'a [Event]) -> (p: Self)
        ensures
            p.visible() == respondent_view(all_events@),
    {
        let mut events: Vec<&'a Event> = Vec::new();
        let mut i: usize = 0;
        while i < all_events.len()
            invariant
                i <= all_events@.len(),
                events@.map_values(|e: &'a Event| *e) == respondent_view(
                    all_events@.subrange(0, i as int),
                ),
            decreases all_events@.len() - i,
        {
            let e = &all_events[i];
            let ghost prefix = all_events@.subrange(0, i + 1);
            proof {
                assert(prefix.drop_last() =~= all_events@.subrange(0, i as int));
                assert(prefix.last() == *e);
            }
            let visible = match e.visibility {
                EventVisibility::Public => match &e.payload {
                    EventPayload::RawTranscript(_) => false,
                    EventPayload::SealedEvaluation { .. } => false,
                    _ => true,
                },
                EventVisibility::Sealed => false,
            };
            if visible {
                events.push(e);
                proof {
                    assert(events@.map_values(|e: &'a Event| *e) =~= respondent_view(
                        all_events@.subrange(0, i as int),
                    ).push(*e));
                }
            }
            i = i + 1;
        }
        proof {
            assert(all_events@.subrange(0, all_events@.len() as int) =~= all_events@);
        }
        RespondentContextProjection { events }
    }

    pub fn visible_events(&self) -> (r: &[&'a Event])
        ensures
            r@.map_values(|e: &'a Event| *e) == self.visible(),
    {
        self.events.as_slice()
    }
}

/// Everything a respondent's projection holds is public, and is neither a raw transcript nor
/// a sealed evaluation.
pub proof fn lemma_projection_hides_raw_and_sealed(events: Seq<Event>)
    ensures
        forall|i: int|
            0 <= i < respondent_view(events).len() ==> #[trigger] respondent_may_see(
                respondent_view(events)[i],
            ),
    decreases events.len(),
{
    if events.len() > 0 {
        lemma_projection_hides_raw_and_sealed(events.drop_last());
        let prev = respondent_view(events.drop_last());
        assert forall|i: int| 0 <= i < respondent_view(events).len() implies #[trigger] respondent_may_see(
            respondent_view(events)[i],
        ) by {
            if i < prev.len() {
                assert(respondent_view(events)[i] == prev[i]);
            }
        }
    }
}

/// Nothing a respondent may see is dropped: every visible event of the log is in the
/// projection.
pub proof fn lemma_projection_keeps_every_visible_event(events: Seq<Event>, i: int)
    requires
        0 <= i < events.len(),
        respondent_may_see(events[i]),
    ensures
        respondent_view(events).contains(events[i]),
    decreases events.len(),
{
    if i < events.len() - 1 {
        lemma_projection_keeps_every_visible_event(events.drop_last(), i);
        let prev = respondent_view(events.drop_last());
        let k = choose|k: int| 0 <= k < prev.len() && prev[k] == events.drop_last()[i];
        if respondent_may_see(events.last()) {
            assert(respondent_view(events)[k] == prev[k]);
        }
    } else {
        let prev = respondent_view(events.drop_last());
        assert(respondent_view(events)[prev.len() as int] == events[i]);
    }
}

} // verus!
