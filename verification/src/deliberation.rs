//! Prompt building and arbitration-output application: no I/O, no persistence, no agent
//! invocation. The respondent, arbitrator and condition-evaluator prompts each read only a
//! `Revision` (and, for the last, one `Condition` in isolation); none reads the event log.
//! `apply_arbitration` is the seam between an agent's structured output and the validated
//! successor: acceptance is `Revision::apply_moves`'s decision.

use vstd::prelude::*;

use crate::dossier::{ArbitrationSettings, Condition, SessionScope, StrategyPreset};
use crate::ids::{fresh_id, id_text, uuid_text};
use crate::text::{lemma_occurs_around, lemma_occurs_in_middle, occurs_at};
use crate::revision::{
    batch_error, dissent_items, is_successor, question_items, risk_items, Dissent, EventRef,
    ItemView, Move, Question, Revision, Risk,
};

verus! {

// ---------------------------------------------------------------------------------------------
// The model of a prompt.

/// The items of a residual list that are still open, in order.
pub open spec fn open_items(items: Seq<ItemView>) -> Seq<ItemView>
    decreases items.len(),
{
    if items.len() == 0 {
        Seq::empty()
    } else if items.last().2 is None {
        open_items(items.drop_last()).push(items.last())
    } else {
        open_items(items.drop_last())
    }
}

/// The line text of an item: its text, or `[id] text` when labelled with its id.
pub open spec fn item_line(it: ItemView, labelled: bool) -> Seq<char> {
    if labelled {
        "["@ + uuid_text(it.0) + "] "@ + it.1
    } else {
        it.1
    }
}

/// The line texts of the open items.
pub open spec fn open_lines(items: Seq<ItemView>, labelled: bool) -> Seq<Seq<char>> {
    open_items(items).map_values(|it: ItemView| item_line(it, labelled))
}

/// A bulleted list: one `- line\n` per line.
pub open spec fn bullets(lines: Seq<Seq<char>>) -> Seq<char>
    decreases lines.len(),
{
    if lines.len() == 0 {
        Seq::empty()
    } else {
        bullets(lines.drop_last()) + "- "@ + lines.last() + "\n"@
    }
}

/// A headed bulleted section, omitted entirely when there is nothing to list.
pub open spec fn section(header: Seq<char>, lines: Seq<Seq<char>>) -> Seq<char> {
    if lines.len() == 0 {
        Seq::empty()
    } else {
        header + bullets(lines)
    }
}

pub open spec fn string_views(v: Seq<String>) -> Seq<Seq<char>> {
    v.map_values(|s: String| s@)
}

/// The respondent prompt: the proposal, the current public state (understanding, positions),
/// the open dissents, risks and questions, and the question to answer.
pub open spec fn respondent_prompt(question: Seq<char>, rev: Revision) -> Seq<char> {
    "You are a respondent in a deliberation process.\n\n"@ + "## Original Proposal\n"@
        + rev.original_proposal@ + "\n\n## Current Understanding\n"@ + rev.current_understanding@
        + "\n"@ + section("\n## Positions\n"@, string_views(rev.positions@)) + section(
        "\n## Unresolved Dissents\n"@,
        open_lines(dissent_items(rev.dissents@), false),
    ) + section("\n## Unresolved Risks\n"@, open_lines(risk_items(rev.risks@), false)) + section(
        "\n## Open Questions\n"@,
        open_lines(question_items(rev.questions@), false),
    ) + "\n## Question for you\n"@ + question + "\n\nPlease provide your answer."@
}

/// The closing instructions of the arbitrator prompt.
pub open spec fn arbitrator_instructions() -> Seq<char> {
    "\nPlease provide an updated narrative understanding, and declare zero or more moves on \
     the residual: resolve a dissent, add or close a risk, ask a question, or answer a \
     question. Do not restate items you are not acting on \u{2014} silence leaves them exactly as \
     they are."@
        + "\n\nEnd your reply with exactly one line of compact JSON (no surrounding prose, \
         no pretty-printing) of the form: {\"current_understanding\": \"...\", \"moves\": \
         [{\"kind\": \"ResolveDissent\", \"id\": \"...\", \"resolution\": {\"reason\": \"...\", \
         \"provenance\": [{\"event_id\": \"...\"}]}}, ...]} \u{2014} each move's \"kind\" is one of \
         ResolveDissent, AddRisk, CloseRisk, AskQuestion, AnswerQuestion."@
}

/// The arbitrator prompt: the current understanding, the open items labelled with their
/// stable ids (a move targets an item by id), the recent respondent claims, and the
/// instructions for the structured reply.
pub open spec fn arbitrator_prompt(rev: Revision, claims: Seq<String>) -> Seq<char> {
    "You are the arbitrator.\n\n"@ + "## Current SSOT\n"@ + rev.current_understanding@ + "\n"@
        + section("\n## Unresolved Dissents\n"@, open_lines(dissent_items(rev.dissents@), true))
        + section("\n## Unresolved Risks\n"@, open_lines(risk_items(rev.risks@), true)) + section(
        "\n## Open Questions\n"@,
        open_lines(question_items(rev.questions@), true),
    ) + section("\n## Recent Respondent Claims\n"@, string_views(claims))
        + arbitrator_instructions()
}

/// Where the line of item `k` starts within the bulleted list of `lines`.
pub open spec fn bullet_offset(lines: Seq<Seq<char>>, k: int) -> int {
    bullets(lines.take(k)).len() as int
}

/// Item `k` of a bulleted list is its own line "- item", right after the lines of the items
/// before it.
proof fn lemma_bullet_line(lines: Seq<Seq<char>>, k: int)
    requires
        0 <= k < lines.len(),
    ensures
        occurs_at(bullets(lines), "- "@ + lines[k] + "\n"@, bullet_offset(lines, k)),
        bullet_offset(lines, k + 1) == bullet_offset(lines, k) + ("- "@ + lines[k] + "\n"@).len(),
    decreases lines.len(),
{
    let line = "- "@ + lines[k] + "\n"@;
    let rest = lines.drop_last();
    assert(lines.take(k + 1).drop_last() =~= lines.take(k));
    assert(lines.take(k + 1).last() == lines[k]);
    assert(bullets(lines.take(k + 1)) =~= bullets(lines.take(k)) + line);
    if k == lines.len() - 1 {
        assert(lines.take(k) =~= rest);
        assert(bullets(lines) =~= bullets(rest) + line + Seq::<char>::empty());
        lemma_occurs_in_middle(bullets(rest), line, Seq::<char>::empty());
    } else {
        lemma_bullet_line(rest, k);
        assert(rest.take(k) =~= lines.take(k));
        let tail = "- "@ + lines.last() + "\n"@;
        assert(bullets(lines) =~= Seq::<char>::empty() + bullets(rest) + tail);
        lemma_occurs_around(bullets(rest), line, bullet_offset(rest, k), Seq::<char>::empty(), tail);
    }
}

/// The arbitrator sees every recent respondent claim: when there are any, its prompt holds the
/// "Recent Respondent Claims" heading followed at once by one line "- claim" per claim, each
/// right after the one before, in order.
pub proof fn lemma_arbitrator_prompt_lists_claims(rev: Revision, claims: Seq<String>)
    requires
        claims.len() > 0,
    ensures
        exists|p: int|
            {
                &&& occurs_at(arbitrator_prompt(rev, claims), "\n## Recent Respondent Claims\n"@, p)
                &&& forall|k: int|
                    0 <= k < claims.len() ==> occurs_at(
                        arbitrator_prompt(rev, claims),
                        "- "@ + (#[trigger] claims[k])@ + "\n"@,
                        p + "\n## Recent Respondent Claims\n"@.len() + bullet_offset(string_views(claims), k),
                    )
            },
        bullet_offset(string_views(claims), 0) == 0,
        forall|k: int|
            0 <= k < claims.len() ==> bullet_offset(string_views(claims), k + 1) == bullet_offset(
                string_views(claims),
                k,
            ) + ("- "@ + (#[trigger] claims[k])@ + "\n"@).len(),
{
    let views = string_views(claims);
    let h = "\n## Recent Respondent Claims\n"@;
    let a = "You are the arbitrator.\n\n"@ + "## Current SSOT\n"@ + rev.current_understanding@ + "\n"@
        + section("\n## Unresolved Dissents\n"@, open_lines(dissent_items(rev.dissents@), true))
        + section("\n## Unresolved Risks\n"@, open_lines(risk_items(rev.risks@), true)) + section(
        "\n## Open Questions\n"@,
        open_lines(question_items(rev.questions@), true),
    );
    let b = arbitrator_instructions();
    let prompt = arbitrator_prompt(rev, claims);
    assert(section(h, views) == h + bullets(views));
    assert(prompt =~= a + h + (bullets(views) + b));
    lemma_occurs_in_middle(a, h, bullets(views) + b);
    assert(prompt =~= (a + h) + bullets(views) + b);
    assert(views.take(0) =~= Seq::<Seq<char>>::empty());
    assert forall|k: int| 0 <= k < claims.len() implies occurs_at(
        prompt,
        "- "@ + (#[trigger] claims[k])@ + "\n"@,
        a.len() + h.len() + bullet_offset(views, k),
    ) && bullet_offset(views, k + 1) == bullet_offset(views, k) + ("- "@ + claims[k]@ + "\n"@).len() by {
        assert(views[k] == claims[k]@);
        lemma_bullet_line(views, k);
        lemma_occurs_around(bullets(views), "- "@ + views[k] + "\n"@, bullet_offset(views, k), a + h, b);
    }
    assert(occurs_at(prompt, h, a.len() as int));
}

/// The condition-evaluator prompt: the proposal, the current understanding, and the one
/// condition under judgment — nothing else.
pub open spec fn condition_evaluator_prompt(c: Condition, rev: Revision) -> Seq<char> {
    "You are an isolated condition evaluator.\n\n"@ + "## Original Proposal\n"@
        + rev.original_proposal@ + "\n\n## Current Understanding\n"@ + rev.current_understanding@
        + "\n\n## Condition to Judge\n"@ + c.description@
        + "\n\nDecide whether this condition is currently satisfied. Respond with your reasoning, \
         then end your reply with exactly one line of compact JSON (no surrounding prose, no \
         pretty-printing) of the form: \
         {\"verdict\": \"True\" | \"False\" | \"Unknown\", \"reason\": \"...\", \"provenance\": []}"@
}

// ---------------------------------------------------------------------------------------------
// Building prompts.

/// Appends a headed bulleted section (nothing when `lines` is empty).
fn push_section(out: &mut String, header: &str, lines: &Vec<String>)
    ensures
        final(out)@ == old(out)@ + section(header@, string_views(lines@)),
{
    if lines.len() == 0 {
        proof {
            assert(old(out)@ + Seq::<char>::empty() =~= old(out)@);
        }
        return ;
    }
    let ghost start = out@;
    out.append(header);
    let mut i: usize = 0;
    while i < lines.len()
        invariant
            i <= lines@.len(),
            out@ =~= start + header@ + bullets(string_views(lines@).subrange(0, i as int)),
        decreases lines@.len() - i,
    {
        proof {
            let next = string_views(lines@).subrange(0, i + 1);
            assert(next.drop_last() =~= string_views(lines@).subrange(0, i as int));
            assert(next.last() == lines@[i as int]@);
        }
        out.append("- ");
        out.append(lines[i].as_str());
        out.append("\n");
        i = i + 1;
    }
    proof {
        assert(string_views(lines@).subrange(0, lines@.len() as int) =~= string_views(lines@));
    }
}

proof fn lemma_open_items_step(items: Seq<ItemView>, i: int)
    requires
        0 <= i < items.len(),
    ensures
        open_items(items.subrange(0, i + 1)) == if items[i].2 is None {
            open_items(items.subrange(0, i)).push(items[i])
        } else {
            open_items(items.subrange(0, i))
        },
{
    let next = items.subrange(0, i + 1);
    assert(next.drop_last() =~= items.subrange(0, i));
    assert(next.last() == items[i]);
}

/// Renders the line of one item.
fn line_text(id: u128, text: &String, labelled: bool) -> (r: String)
    ensures
        r@ == item_line((id, text@, None), labelled),
{
    if labelled {
        let idt = id_text(id);
        let mut r = String::new();
        r.append("[");
        r.append(idt.as_str());
        r.append("] ");
        r.append(text.as_str());
        r
    } else {
        text.clone()
    }
}

fn open_dissent_lines(ds: &Vec<Dissent>, labelled: bool) -> (r: Vec<String>)
    ensures
        string_views(r@) == open_lines(dissent_items(ds@), labelled),
{
    let ghost items = dissent_items(ds@);
    let mut out: Vec<String> = Vec::new();
    let mut i: usize = 0;
    while i < ds.len()
        invariant
            i <= ds@.len(),
            items == dissent_items(ds@),
            string_views(out@) =~= open_lines(items.subrange(0, i as int), labelled),
        decreases ds@.len() - i,
    {
        proof {
            lemma_open_items_step(items, i as int);
        }
        let d = &ds[i];
        if d.resolved_by.is_none() {
            let line = line_text(d.id, &d.claim, labelled);
            let ghost prev = out@;
            out.push(line);
            proof {
                assert(item_line(items[i as int], labelled) == line@);
                assert(string_views(out@) =~= string_views(prev).push(line@));
                assert(open_lines(items.subrange(0, i + 1), labelled) =~= open_lines(
                    items.subrange(0, i as int),
                    labelled,
                ).push(item_line(items[i as int], labelled)));
            }
        } else {
            proof {
                assert(open_lines(items.subrange(0, i + 1), labelled) =~= open_lines(
                    items.subrange(0, i as int),
                    labelled,
                ));
            }
        }
        i = i + 1;
    }
    proof {
        assert(items.subrange(0, ds@.len() as int) =~= items);
    }
    out
}

fn open_risk_lines(rs: &Vec<Risk>, labelled: bool) -> (r: Vec<String>)
    ensures
        string_views(r@) == open_lines(risk_items(rs@), labelled),
{
    let ghost items = risk_items(rs@);
    let mut out: Vec<String> = Vec::new();
    let mut i: usize = 0;
    while i < rs.len()
        invariant
            i <= rs@.len(),
            items == risk_items(rs@),
            string_views(out@) =~= open_lines(items.subrange(0, i as int), labelled),
        decreases rs@.len() - i,
    {
        proof {
            lemma_open_items_step(items, i as int);
        }
        let x = &rs[i];
        if x.resolved_by.is_none() {
            let line = line_text(x.id, &x.description, labelled);
            let ghost prev = out@;
            out.push(line);
            proof {
                assert(item_line(items[i as int], labelled) == line@);
                assert(string_views(out@) =~= string_views(prev).push(line@));
                assert(open_lines(items.subrange(0, i + 1), labelled) =~= open_lines(
                    items.subrange(0, i as int),
                    labelled,
                ).push(item_line(items[i as int], labelled)));
            }
        } else {
            proof {
                assert(open_lines(items.subrange(0, i + 1), labelled) =~= open_lines(
                    items.subrange(0, i as int),
                    labelled,
                ));
            }
        }
        i = i + 1;
    }
    proof {
        assert(items.subrange(0, rs@.len() as int) =~= items);
    }
    out
}

fn open_question_lines(qs: &Vec<Question>, labelled: bool) -> (r: Vec<String>)
    ensures
        string_views(r@) == open_lines(question_items(qs@), labelled),
{
    let ghost items = question_items(qs@);
    let mut out: Vec<String> = Vec::new();
    let mut i: usize = 0;
    while i < qs.len()
        invariant
            i <= qs@.len(),
            items == question_items(qs@),
            string_views(out@) =~= open_lines(items.subrange(0, i as int), labelled),
        decreases qs@.len() - i,
    {
        proof {
            lemma_open_items_step(items, i as int);
        }
        let x = &qs[i];
        if x.answered_by.is_none() {
            let line = line_text(x.id, &x.text, labelled);
            let ghost prev = out@;
            out.push(line);
            proof {
                assert(item_line(items[i as int], labelled) == line@);
                assert(string_views(out@) =~= string_views(prev).push(line@));
                assert(open_lines(items.subrange(0, i + 1), labelled) =~= open_lines(
                    items.subrange(0, i as int),
                    labelled,
                ).push(item_line(items[i as int], labelled)));
            }
        } else {
            proof {
                assert(open_lines(items.subrange(0, i + 1), labelled) =~= open_lines(
                    items.subrange(0, i as int),
                    labelled,
                ));
            }
        }
        i = i + 1;
    }
    proof {
        assert(items.subrange(0, qs@.len() as int) =~= items);
    }
    out
}

/// Builds the prompt for a respondent agent: the original proposal, the current public
/// revision state (understanding, positions), the unresolved dissents, risks and questions,
/// and the specific question to answer.
pub fn build_respondent_prompt(question: &str, revision: &Revision) -> (p: String)
    ensures
        p@ == respondent_prompt(question@, *revision),
{
    let mut prompt = String::new();
    prompt.append("You are a respondent in a deliberation process.\n\n");
    prompt.append("## Original Proposal\n");
    prompt.append(revision.original_proposal.as_str());
    prompt.append("\n\n## Current Understanding\n");
    prompt.append(revision.current_understanding.as_str());
    prompt.append("\n");
    push_section(&mut prompt, "\n## Positions\n", &revision.positions);
    let dissents = open_dissent_lines(&revision.dissents, false);
    push_section(&mut prompt, "\n## Unresolved Dissents\n", &dissents);
    let risks = open_risk_lines(&revision.risks, false);
    push_section(&mut prompt, "\n## Unresolved Risks\n", &risks);
    let questions = open_question_lines(&revision.questions, false);
    push_section(&mut prompt, "\n## Open Questions\n", &questions);
    prompt.append("\n## Question for you\n");
    prompt.append(question);
    prompt.append("\n\nPlease provide your answer.");
    prompt
}

/// Builds the prompt for an arbitrator agent: the current understanding, the unresolved items
/// with their stable ids (a `Move` targets an existing item by id, and ids of new items are
/// minted here, not by the agent, so the arbitrator can only target an item again if its id is
/// shown), the recent respondent claims, and the instructions for the one-line JSON reply.
pub fn build_arbitrator_prompt(revision: &Revision, recent_claims: &Vec<String>) -> (p: String)
    ensures
        p@ == arbitrator_prompt(*revision, recent_claims@),
{
    let mut prompt = String::new();
    prompt.append("You are the arbitrator.\n\n");
    prompt.append("## Current SSOT\n");
    prompt.append(revision.current_understanding.as_str());
    prompt.append("\n");
    let dissents = open_dissent_lines(&revision.dissents, true);
    push_section(&mut prompt, "\n## Unresolved Dissents\n", &dissents);
    let risks = open_risk_lines(&revision.risks, true);
    push_section(&mut prompt, "\n## Unresolved Risks\n", &risks);
    let questions = open_question_lines(&revision.questions, true);
    push_section(&mut prompt, "\n## Open Questions\n", &questions);
    push_section(&mut prompt, "\n## Recent Respondent Claims\n", recent_claims);
    prompt.append(
        "\nPlease provide an updated narrative understanding, and declare zero or more moves on \
         the residual: resolve a dissent, add or close a risk, ask a question, or answer a \
         question. Do not restate items you are not acting on \u{2014} silence leaves them exactly as \
         they are.",
    );
    // The transport scans stdout lines in reverse for a single line that parses as JSON, so
    // the structured output must be exactly one line of compact JSON.
    prompt.append(
        "\n\nEnd your reply with exactly one line of compact JSON (no surrounding prose, \
         no pretty-printing) of the form: {\"current_understanding\": \"...\", \"moves\": \
         [{\"kind\": \"ResolveDissent\", \"id\": \"...\", \"resolution\": {\"reason\": \"...\", \
         \"provenance\": [{\"event_id\": \"...\"}]}}, ...]} \u{2014} each move's \"kind\" is one of \
         ResolveDissent, AddRisk, CloseRisk, AskQuestion, AnswerQuestion.",
    );
    prompt
}

/// Builds the prompt for a condition-evaluator agent, judging exactly one condition. It holds
/// only the dossier's public SSOT and the one condition under judgment — never another
/// condition, never a prior evaluator's sealed reasoning, never a dissent or risk.
pub fn build_condition_evaluator_prompt(condition: &Condition, revision: &Revision) -> (p: String)
    ensures
        p@ == condition_evaluator_prompt(*condition, *revision),
{
    let mut prompt = String::new();
    prompt.append("You are an isolated condition evaluator.\n\n");
    prompt.append("## Original Proposal\n");
    prompt.append(revision.original_proposal.as_str());
    prompt.append("\n\n## Current Understanding\n");
    prompt.append(revision.current_understanding.as_str());
    prompt.append("\n\n## Condition to Judge\n");
    prompt.append(condition.description.as_str());
    prompt.append(
        "\n\nDecide whether this condition is currently satisfied. Respond with your reasoning, \
         then end your reply with exactly one line of compact JSON (no surrounding prose, no \
         pretty-printing) of the form: \
         {\"verdict\": \"True\" | \"False\" | \"Unknown\", \"reason\": \"...\", \"provenance\": []}",
    );
    prompt
}

// ---------------------------------------------------------------------------------------------
// Arbitration.

/// The structured output expected from an arbitration turn: the freely authored narrative
/// summary plus a batch of discrete moves on the residual — never a whole successor revision.
#[derive(Debug, Clone)]
pub struct ArbitrationOutput {
    pub current_understanding: String,
    pub moves: Vec<Move>,
}

/// Applies an arbitration output to a base revision, enforcing structural validity, and
/// returns the successor. Readiness is not an output here: it is computed from the residual by
/// the `convergence` seam.
pub fn apply_arbitration(base: &Revision, output: ArbitrationOutput) -> (r: Result<Revision, &'static str>)
    ensures
        match batch_error(*base, output.moves@) {
            Some(e) => r matches Err(x) && x@ == e,
            None => r matches Ok(next) && is_successor(
                *base,
                output.current_understanding@,
                output.moves@,
                next,
            ),
        },
{
    base.apply_moves(output.current_understanding, output.moves)
}

/// The deterministic trace of why an arbitration session was selected.
#[derive(Debug, Clone, PartialEq, Eq)]
pub struct SessionProvenance {
    pub strategy: StrategyPreset,
    pub reason: String,
}

/// The session instruction for arbitration.
pub struct ArbitrationSession {
    pub session_id: String,
    pub provenance: SessionProvenance,
}

/// A fresh session identifier: `session-` followed by a newly minted id.
pub open spec fn is_fresh_session_id(s: Seq<char>) -> bool {
    exists|x: u128| s == "session-"@ + uuid_text(x)
}

fn new_session(strategy: StrategyPreset, reason: &str) -> (s: ArbitrationSession)
    ensures
        is_fresh_session_id(s.session_id@),
        s.provenance.strategy == strategy,
        s.provenance.reason@ == reason@,
{
    let x = fresh_id();
    let idt = id_text(x);
    let mut session_id = String::new();
    session_id.append("session-");
    session_id.append(idt.as_str());
    ArbitrationSession {
        session_id,
        provenance: SessionProvenance { strategy, reason: String::from_str(reason) },
    }
}

impl ArbitrationSession {
    /// Determines the session to use for arbitration. A matched escalation trigger forces a
    /// fresh session; otherwise a persistent scope reuses the in-memory session when there is
    /// one (and starts a fresh one when it was lost), and the fresh-per-round and
    /// fresh-per-resolution scopes always start a fresh one.
    pub fn determine(
        settings: &ArbitrationSettings,
        in_memory_session: Option<String>,
        escalation_triggered: bool,
    ) -> (s: Self)
        ensures
            s.provenance.strategy == settings.preset,
            escalation_triggered ==> is_fresh_session_id(s.session_id@)
                && s.provenance.reason@ == "escalation trigger matched"@,
            !escalation_triggered && settings.session_scope == SessionScope::Persistent
                && in_memory_session is Some ==> s.session_id@ == in_memory_session.unwrap()@
                && s.provenance.reason@ == "persistent session reused"@,
            !escalation_triggered && settings.session_scope == SessionScope::Persistent
                && in_memory_session is None ==> is_fresh_session_id(s.session_id@)
                && s.provenance.reason@ == "process loss reconstruction"@,
            !escalation_triggered && settings.session_scope == SessionScope::FreshPerRound
                ==> is_fresh_session_id(s.session_id@) && s.provenance.reason@
                == "fresh per round scope"@,
            !escalation_triggered && settings.session_scope == SessionScope::FreshPerResolution
                ==> is_fresh_session_id(s.session_id@) && s.provenance.reason@
                == "fresh per resolution scope"@,
    {
        if escalation_triggered {
            return new_session(settings.preset, "escalation trigger matched");
        }
        match settings.session_scope {
            SessionScope::Persistent => {
                match in_memory_session {
                    Some(id) => ArbitrationSession {
                        session_id: id,
                        provenance: SessionProvenance {
                            strategy: settings.preset,
                            reason: String::from_str("persistent session reused"),
                        },
                    },
                    None => new_session(settings.preset, "process loss reconstruction"),
                }
            },
            SessionScope::FreshPerRound => new_session(settings.preset, "fresh per round scope"),
            SessionScope::FreshPerResolution => new_session(
                settings.preset,
                "fresh per resolution scope",
            ),
        }
    }
}

#[derive(Debug, Clone, Copy, PartialEq, Eq, Structural)]
pub enum ConditionVerdict {
    True,
    False,
    Unknown,
}

#[derive(Debug, Clone)]
pub struct ConditionEvaluationOutput {
    pub verdict: ConditionVerdict,
    pub reason: String,
    pub provenance: Vec<EventRef>,
}

} // verus!
