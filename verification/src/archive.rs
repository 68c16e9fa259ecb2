//! The archive of a terminal dossier: a human-readable, integrity-bound record of its final
//! content and every recorded event, sealed with a SHA-256 digest over the rendered text.
//!
//! It is a record only: it grants no execution authority and triggers no workspace effect.
//! Sealed evaluator reasoning surfaces here for a human, and nowhere else.

use vstd::prelude::*;
use vstd::utf8::encode_utf8;

use crate::deliberate_loop::{state_label, state_name};
use crate::digest::{sha256, sha256_of};
use crate::dossier::{is_terminal, Condition, StrategyPreset, SubmittedDossier};
use crate::dossier_cli::condition_line;
use crate::event::{Event, EventPayload, EventVisibility};
use crate::ids::{bytes_hex, to_hex};
use crate::revision::Revision;
use crate::text::{lemma_occurs_around, lemma_occurs_in_middle, occurs_at};

verus! {

/// The name of a strategy preset, as it is printed.
pub open spec fn preset_name(p: StrategyPreset) -> Seq<char> {
    match p {
        StrategyPreset::Economy => "Economy"@,
        StrategyPreset::Balanced => "Balanced"@,
        StrategyPreset::Assurance => "Assurance"@,
    }
}

fn preset_label(p: StrategyPreset) -> (l: &'static str)
    ensures
        l@ == preset_name(p),
{
    match p {
        StrategyPreset::Economy => "Economy",
        StrategyPreset::Balanced => "Balanced",
        StrategyPreset::Assurance => "Assurance",
    }
}

/// One human-readable line for an event's content, whichever payload it carries.
pub open spec fn event_line(e: Event) -> Seq<char> {
    match e.payload {
        EventPayload::RawTranscript(t) => "Raw transcript: "@ + t@,
        EventPayload::Synthesis(t) => "Synthesis: "@ + t@,
        EventPayload::PublicRecord(t) => t@,
        EventPayload::SealedEvaluation { evaluator, reasoning } => "["@ + evaluator@ + "] "@ + reasoning@,
    }
}

/// The bullet lines of the events of visibility `vis`, in recorded order.
pub open spec fn event_bullets(events: Seq<Event>, vis: EventVisibility) -> Seq<char>
    decreases events.len(),
{
    if events.len() == 0 {
        Seq::empty()
    } else {
        event_bullets(events.drop_last(), vis) + if events.last().visibility == vis {
            "- "@ + event_line(events.last()) + "\n"@
        } else {
            Seq::empty()
        }
    }
}

/// Whether some event has visibility `vis`.
pub open spec fn any_event(events: Seq<Event>, vis: EventVisibility) -> bool {
    exists|i: int| 0 <= i < events.len() && (#[trigger] events[i]).visibility == vis
}

/// A section listing the events of visibility `vis`, or an explicit placeholder when none.
pub open spec fn event_section(events: Seq<Event>, vis: EventVisibility, placeholder: Seq<char>) -> Seq<char> {
    if any_event(events, vis) {
        event_bullets(events, vis)
    } else {
        placeholder + "\n"@
    }
}

/// The checkbox lines of the conditions, in order.
pub open spec fn condition_bullets(cs: Seq<Condition>) -> Seq<char>
    decreases cs.len(),
{
    if cs.len() == 0 {
        Seq::empty()
    } else {
        condition_bullets(cs.drop_last()) + (if cs.last().is_met { "- [x] "@ } else { "- [ ] "@ })
            + cs.last().description@ + "\n"@
    }
}

/// The final content section: the latest revision's proposal and understanding, or a note
/// that there is none.
pub open spec fn content_section(latest: Option<Revision>) -> Seq<char> {
    match latest {
        Some(rev) => "\n## Final SSOT\n"@ + "\n### Original Proposal\n"@ + rev.original_proposal@ + "\n"@
            + "\n### Final Understanding\n"@ + rev.current_understanding@ + "\n"@,
        None => "\n*(No revisions found)*\n"@,
    }
}

/// The conditions section: a checkbox per condition, or a placeholder when none.
pub open spec fn conditions_section(cs: Seq<Condition>) -> Seq<char> {
    if cs.len() == 0 {
        "*(No conditions attached)*\n"@
    } else {
        condition_bullets(cs)
    }
}

/// The archive text the digest seals.
pub open spec fn archive_body(
    dossier_id: Seq<char>,
    dossier: SubmittedDossier,
    latest: Option<Revision>,
    events: Seq<Event>,
) -> Seq<char> {
    "# Dossier Archive: "@ + dossier_id + "\n"@ + "\n**State**: "@ + state_name(dossier.state) + "\n"@
        + "**Strategy**: "@ + preset_name(dossier.locked_settings.arbitration.preset) + "\n"@
        + content_section(latest) + "\n## Conditions\n"@ + conditions_section(dossier.conditions@)
        + "\n## Public Event Index\n"@ + event_section(
        events,
        EventVisibility::Public,
        "*(No public events recorded)*"@,
    ) + "\n## Sealed Audit Section\n"@ + event_section(
        events,
        EventVisibility::Sealed,
        "*(No sealed evaluations recorded)*"@,
    )
}

/// The archive: its body, then the lowercase-hex SHA-256 of the body's UTF-8 bytes.
pub open spec fn archive_text(
    dossier_id: Seq<char>,
    dossier: SubmittedDossier,
    latest: Option<Revision>,
    events: Seq<Event>,
) -> Seq<char> {
    let body = archive_body(dossier_id, dossier, latest, events);
    body + "\n---\n**Integrity Digest (SHA-256)**: "@ + bytes_hex(sha256_of(encode_utf8(body))) + "\n"@
}

/// The archive of a dossier whose latest revision is `rev` records that revision's final SSOT:
/// its original proposal right after the "Original Proposal" heading and its current
/// understanding right after the "Final Understanding" heading, each on its own line.
pub proof fn lemma_archive_records_final_ssot(
    dossier_id: Seq<char>,
    dossier: SubmittedDossier,
    rev: Revision,
    events: Seq<Event>,
)
    ensures
        exists|i: int|
            occurs_at(
                archive_text(dossier_id, dossier, Some(rev), events),
                "\n### Original Proposal\n"@ + rev.original_proposal@ + "\n"@,
                i,
            ),
        exists|i: int|
            occurs_at(
                archive_text(dossier_id, dossier, Some(rev), events),
                "\n### Final Understanding\n"@ + rev.current_understanding@ + "\n"@,
                i,
            ),
{
    let latest = Some(rev);
    let cs = content_section(latest);
    let head = "\n## Final SSOT\n"@;
    let op = "\n### Original Proposal\n"@ + rev.original_proposal@ + "\n"@;
    let fu = "\n### Final Understanding\n"@ + rev.current_understanding@ + "\n"@;
    assert(cs =~= head + op + fu);
    assert(cs =~= (head + op) + fu + Seq::<char>::empty());
    lemma_occurs_in_middle(head, op, fu);
    lemma_occurs_in_middle(head + op, fu, Seq::<char>::empty());
    let x = "# Dossier Archive: "@ + dossier_id + "\n"@ + "\n**State**: "@ + state_name(dossier.state) + "\n"@
        + "**Strategy**: "@ + preset_name(dossier.locked_settings.arbitration.preset) + "\n"@;
    let y = "\n## Conditions\n"@ + conditions_section(dossier.conditions@) + "\n## Public Event Index\n"@
        + event_section(events, EventVisibility::Public, "*(No public events recorded)*"@)
        + "\n## Sealed Audit Section\n"@ + event_section(
        events,
        EventVisibility::Sealed,
        "*(No sealed evaluations recorded)*"@,
    );
    let body = archive_body(dossier_id, dossier, latest, events);
    assert(body =~= x + cs + y);
    let tail = "\n---\n**Integrity Digest (SHA-256)**: "@ + bytes_hex(sha256_of(encode_utf8(body))) + "\n"@;
    let text = archive_text(dossier_id, dossier, latest, events);
    assert(text =~= Seq::<char>::empty() + body + tail);
    lemma_occurs_around(cs, op, head.len() as int, x, y);
    lemma_occurs_around(body, op, x.len() + head.len() as int, Seq::<char>::empty(), tail);
    lemma_occurs_around(cs, fu, (head + op).len() as int, x, y);
    lemma_occurs_around(body, fu, x.len() + (head + op).len() as int, Seq::<char>::empty(), tail);
    assert(occurs_at(text, op, x.len() + head.len() as int));
    assert(occurs_at(text, fu, x.len() + (head + op).len() as int));
}

/// One line for an event's content.
pub fn render_event_line(event: &Event) -> (l: String)
    ensures
        l@ == event_line(*event),
{
    match &event.payload {
        EventPayload::RawTranscript(t) => {
            let mut l = String::from_str("Raw transcript: ");
            l.append(t.as_str());
            l
        },
        EventPayload::Synthesis(t) => {
            let mut l = String::from_str("Synthesis: ");
            l.append(t.as_str());
            l
        },
        EventPayload::PublicRecord(t) => t.clone(),
        EventPayload::SealedEvaluation { evaluator, reasoning } => {
            let mut l = String::from_str("[");
            l.append(evaluator.as_str());
            l.append("] ");
            l.append(reasoning.as_str());
            l
        },
    }
}

fn push_event_section(out: &mut String, events: &Vec<Event>, vis: EventVisibility, placeholder: &str)
    ensures
        final(out)@ == old(out)@ + event_section(events@, vis, placeholder@),
{
    let ghost start = out@;
    let mut any = false;
    let mut i: usize = 0;
    while i < events.len()
        invariant
            i <= events@.len(),
            out@ == start + event_bullets(events@.subrange(0, i as int), vis),
            any == any_event(events@.subrange(0, i as int), vis),
        decreases events@.len() - i,
    {
        proof {
            let next = events@.subrange(0, i + 1);
            assert(next.drop_last() =~= events@.subrange(0, i as int));
            assert(next.last() == events@[i as int]);
        }
        if events[i].visibility == vis {
            let line = render_event_line(&events[i]);
            out.append("- ");
            out.append(line.as_str());
            out.append("\n");
            any = true;
            proof {
                assert(events@.subrange(0, i + 1)[i as int].visibility == vis);
            }
        } else {
            proof {
                if any_event(events@.subrange(0, i + 1), vis) {
                    let j = choose|j: int| 0 <= j < i + 1 && (#[trigger] events@.subrange(0, i + 1)[j]).visibility == vis;
                    assert(events@.subrange(0, i as int)[j].visibility == vis);
                }
            }
        }
        proof {
            if any_event(events@.subrange(0, i as int), vis) {
                let j = choose|j: int| 0 <= j < i && (#[trigger] events@.subrange(0, i as int)[j]).visibility == vis;
                assert(events@.subrange(0, i + 1)[j].visibility == vis);
            }
        }
        i = i + 1;
    }
    proof {
        assert(events@.subrange(0, events@.len() as int) =~= events@);
    }
    if !any {
        let ghost mid = out@;
        out.append(placeholder);
        out.append("\n");
        proof {
            assert(event_bullets(events@, vis) =~= Seq::empty()) by {
                lemma_no_bullets(events@, vis);
            }
            assert(out@ =~= start + (placeholder@ + "\n"@));
        }
    }
}

proof fn lemma_no_bullets(events: Seq<Event>, vis: EventVisibility)
    requires
        !any_event(events, vis),
    ensures
        event_bullets(events, vis) == Seq::<char>::empty(),
    decreases events.len(),
{
    if events.len() > 0 {
        let rest = events.drop_last();
        if any_event(rest, vis) {
            let j = choose|j: int| 0 <= j < rest.len() && (#[trigger] rest[j]).visibility == vis;
            assert(events[j].visibility == vis);
        }
        lemma_no_bullets(rest, vis);
        assert(events[events.len() - 1].visibility != vis);
    }
}

fn push_conditions(out: &mut String, cs: &Vec<Condition>)
    ensures
        final(out)@ == old(out)@ + conditions_section(cs@),
{
    if cs.len() == 0 {
        out.append("*(No conditions attached)*\n");
        return;
    }
    let ghost start = out@;
    let mut i: usize = 0;
    while i < cs.len()
        invariant
            i <= cs@.len(),
            out@ == start + condition_bullets(cs@.subrange(0, i as int)),
        decreases cs@.len() - i,
    {
        proof {
            let next = cs@.subrange(0, i + 1);
            assert(next.drop_last() =~= cs@.subrange(0, i as int));
            assert(next.last() == cs@[i as int]);
        }
        let line = condition_line(&cs[i]);
        out.append(line.as_str());
        out.append("\n");
        proof {
            assert(out@ =~= start + condition_bullets(cs@.subrange(0, i + 1)));
        }
        i = i + 1;
    }
    proof {
        assert(cs@.subrange(0, cs@.len() as int) =~= cs@);
    }
}

/// Renders the archive of a terminal dossier from its latest revision and its recorded events
/// (in commit order). A dossier that has not reached a terminal state cannot be archived.
pub fn render_archive(
    dossier_id: &str,
    dossier: &SubmittedDossier,
    latest: &Option<Revision>,
    events: &Vec<Event>,
) -> (r: Result<String, &'static str>)
    ensures
        r is Err <==> !is_terminal(dossier.state),
        r matches Err(e) ==> e@ == "Cannot archive a non-terminal dossier"@,
        r matches Ok(text) ==> text@ == archive_text(dossier_id@, *dossier, *latest, events@),
{
    if !crate::dossier_cli::renders_archive(dossier.state) {
        return Err("Cannot archive a non-terminal dossier");
    }
    let mut out = String::from_str("# Dossier Archive: ");
    out.append(dossier_id);
    out.append("\n");
    out.append("\n**State**: ");
    out.append(state_label(dossier.state));
    out.append("\n");
    out.append("**Strategy**: ");
    out.append(preset_label(dossier.locked_settings.arbitration.preset));
    out.append("\n");
    match latest {
        Some(rev) => {
            out.append("\n## Final SSOT\n");
            out.append("\n### Original Proposal\n");
            out.append(rev.original_proposal.as_str());
            out.append("\n");
            out.append("\n### Final Understanding\n");
            out.append(rev.current_understanding.as_str());
            out.append("\n");
        },
        None => {
            out.append("\n*(No revisions found)*\n");
        },
    }
    out.append("\n## Conditions\n");
    push_conditions(&mut out, &dossier.conditions);
    out.append("\n## Public Event Index\n");
    push_event_section(&mut out, events, EventVisibility::Public, "*(No public events recorded)*");
    out.append("\n## Sealed Audit Section\n");
    push_event_section(&mut out, events, EventVisibility::Sealed, "*(No sealed evaluations recorded)*");
    proof {
        assert(out@ =~= archive_body(dossier_id@, *dossier, *latest, events@));
    }
    let digest = to_hex(sha256(out.as_str().as_bytes()).as_slice());
    out.append("\n---\n**Integrity Digest (SHA-256)**: ");
    out.append(digest.as_str());
    out.append("\n");
    Ok(out)
}

} // verus!
