//! What the `ringi` subcommands decide, apart from reading and writing files and the store: where
//! a dossier's files live, how a Markdown dossier is split into frontmatter and body and put
//! back together, which state a decision lands in, when an archive is rendered, and the
//! initial revision a submission starts from.

use vstd::prelude::*;

use crate::agent::{trim_text, trimmed};
use crate::dossier::{is_terminal, Condition, LifecycleState, SubmittedDossier};
use crate::ids::{fresh_id, id_text, is_random_uuid, uuid_text};
use crate::revision::{digest_of, Digest, Revision};
use crate::text::chars_of;

verus! {

/// The directory, relative to the working directory, that holds the dossiers.
pub fn dossiers_dir() -> (d: String)
    ensures
        d@ == ".ringi/dossiers"@,
{
    String::from_str(".ringi/dossiers")
}

/// The Markdown file of dossier `id`.
pub fn dossier_file(id: &str) -> (p: String)
    ensures
        p@ == ".ringi/dossiers/"@ + id@ + ".md"@,
{
    let mut p = String::from_str(".ringi/dossiers/");
    p.append(id);
    p.append(".md");
    p
}

/// The archive file of dossier `id`.
pub fn archive_file(id: &str) -> (p: String)
    ensures
        p@ == ".ringi/dossiers/"@ + id@ + ".archive.md"@,
{
    let mut p = String::from_str(".ringi/dossiers/");
    p.append(id);
    p.append(".archive.md");
    p
}

/// The states in which "is this ready for a decision" is still a live question.
pub open spec fn decision_pending(state: LifecycleState) -> bool {
    ||| state == LifecycleState::Draft
    ||| state == LifecycleState::Submitted
    ||| state == LifecycleState::Deliberating
    ||| state == LifecycleState::ReadyForDecision
}

/// Whether `state` is one of the states for which readiness for a decision is still a live
/// question: false once a decision has been rendered.
pub fn is_decision_pending(state: &LifecycleState) -> (b: bool)
    ensures
        b == decision_pending(*state),
{
    match state {
        LifecycleState::Draft | LifecycleState::Submitted | LifecycleState::Deliberating
        | LifecycleState::ReadyForDecision => true,
        _ => false,
    }
}

/// Whether some condition is still unmet.
pub open spec fn some_unmet(conditions: Seq<Condition>) -> bool {
    exists|i: int| 0 <= i < conditions.len() && !(#[trigger] conditions[i]).is_met
}

/// The state a requested decision lands in: approving a dossier with an unmet condition
/// approves it with conditions; every other request stands.
pub open spec fn decided_state(target: LifecycleState, conditions: Seq<Condition>) -> LifecycleState {
    if target == LifecycleState::Approved && some_unmet(conditions) {
        LifecycleState::ApprovedWithConditions
    } else {
        target
    }
}

/// The state a requested decision lands in (see [`decided_state`]).
pub fn decision_target(target: LifecycleState, conditions: &Vec<Condition>) -> (s: LifecycleState)
    ensures
        s == decided_state(target, conditions@),
{
    if target == LifecycleState::Approved && conditions.len() > 0 {
        let mut i: usize = 0;
        while i < conditions.len()
            invariant
                target == LifecycleState::Approved,
                i <= conditions@.len(),
                forall|j: int| 0 <= j < i ==> (#[trigger] conditions@[j]).is_met,
            decreases conditions@.len() - i,
        {
            if !conditions[i].is_met {
                proof {
                    assert(!conditions@[i as int].is_met);
                }
                return LifecycleState::ApprovedWithConditions;
            }
            i = i + 1;
        }
        target
    } else {
        target
    }
}

/// Whether reaching `state` renders the dossier's archive: exactly the terminal states.
pub fn renders_archive(state: LifecycleState) -> (b: bool)
    ensures
        b == is_terminal(state),
{
    match state {
        LifecycleState::Approved | LifecycleState::Rejected | LifecycleState::Cancelled
        | LifecycleState::Invalidated => true,
        _ => false,
    }
}

/// A new draft's Markdown: its frontmatter between fences, then a heading and a prompt.
pub fn draft_document(frontmatter: &str) -> (doc: String)
    ensures
        doc@ == "---\n"@ + frontmatter@ + "---\n\n# Propose Action Here\n\nWrite your intent...\n"@,
{
    let mut doc = String::from_str("---\n");
    doc.append(frontmatter);
    doc.append("---\n\n# Propose Action Here\n\nWrite your intent...\n");
    doc
}

/// A dossier's Markdown with new frontmatter: the frontmatter between fences, then the rest of
/// the file exactly as it was.
pub fn rewrite_document(frontmatter: &str, rest: &str) -> (doc: String)
    ensures
        doc@ == "---\n"@ + frontmatter@ + "---"@ + rest@,
{
    let mut doc = String::from_str("---\n");
    doc.append(frontmatter);
    doc.append("---");
    doc.append(rest);
    doc
}

/// A fence (`---`) starts at `i` of `s`.
pub open spec fn fence_at(s: Seq<char>, i: int) -> bool {
    0 <= i && i + 3 <= s.len() && s[i] == '-' && s[i + 1] == '-' && s[i + 2] == '-'
}

/// `i` is the first fence of `s` at or after `from`.
pub open spec fn first_fence(s: Seq<char>, from: int, i: int) -> bool {
    &&& from <= i
    &&& fence_at(s, i)
    &&& forall|j: int| from <= j < i ==> !fence_at(s, j)
}

/// The first two fences of `s` start at `a` and `b`.
pub open spec fn fences(s: Seq<char>, a: int, b: int) -> bool {
    first_fence(s, 0, a) && first_fence(s, a + 3, b)
}

/// The first fence at or after `from`, if any.
fn find_fence(s: &Vec<char>, from: usize) -> (r: Option<usize>)
    ensures
        r matches Some(i) ==> first_fence(s@, from as int, i as int),
        r is None ==> forall|j: int| from <= j ==> !fence_at(s@, j),
{
    let mut i: usize = from;
    while i < s.len() && s.len() - i >= 3
        invariant
            from <= i,
            forall|j: int| from <= j < i ==> !fence_at(s@, j),
        decreases s@.len() - i,
    {
        if s[i] == '-' && s[i + 1] == '-' && s[i + 2] == '-' {
            return Some(i);
        }
        i = i + 1;
    }
    None
}

/// The text of `s` from `lo` to `hi`.
fn slice_text(s: &Vec<char>, lo: usize, hi: usize) -> (t: String)
    requires
        lo <= hi <= s@.len(),
    ensures
        t@ == s@.subrange(lo as int, hi as int),
{
    let mut t = String::new();
    let mut i: usize = lo;
    while i < hi
        invariant
            lo <= i <= hi <= s@.len(),
            t@ == s@.subrange(lo as int, i as int),
        decreases hi - i,
    {
        crate::ids::push_char(&mut t, s[i]);
        proof {
            assert(t@ =~= s@.subrange(lo as int, i + 1));
        }
        i = i + 1;
    }
    t
}

/// Splits a Markdown dossier at its first two fences (`---`): the frontmatter between them and
/// the rest after the second. A file with fewer than two fences has no frontmatter.
pub fn split_document(content: &str) -> (r: Option<(String, String)>)
    ensures
        r is None <==> !exists|a: int, b: int| #[trigger] fences(content@, a, b),
        r matches Some(parts) ==> exists|a: int, b: int|
            #[trigger] fences(content@, a, b) && parts.0@ == content@.subrange(a + 3, b) && parts.1@
                == content@.subrange(b + 3, content@.len() as int),
{
    let cs = chars_of(content);
    let n = cs.len();
    match find_fence(&cs, 0) {
        None => None,
        Some(a) => match find_fence(&cs, a + 3) {
            None => {
                proof {
                    assert forall|x: int, y: int| !#[trigger] fences(content@, x, y) by {
                        if fences(content@, x, y) {
                            if x < a {
                                assert(!fence_at(content@, x));
                            } else if x > a {
                                assert(!fence_at(content@, a as int));
                            } else {
                                assert(!fence_at(content@, y));
                            }
                        }
                    }
                }
                None
            },
            Some(b) => {
                proof {
                    assert(fences(content@, a as int, b as int));
                }
                let front = slice_text(&cs, a + 3, b);
                let rest = slice_text(&cs, b + 3, n);
                Some((front, rest))
            },
        },
    }
}

/// No fence starts within `fm` when it is followed by a closing fence.
pub open spec fn fence_free(fm: Seq<char>) -> bool {
    forall|j: int| 0 <= j < fm.len() ==> !fence_at(fm + "---"@, j)
}

/// What a split reads back of a rewritten dossier: when the frontmatter holds no fence of its
/// own, the first two fences of `---\n{fm}---{rest}` are the ones written, so a split gives
/// back the frontmatter (after the newline that follows the opening fence) and the rest exactly.
pub proof fn lemma_split_reads_back_rewrite(fm: Seq<char>, rest: Seq<char>)
    requires
        fence_free(fm),
    ensures
        ({
            let doc = "---\n"@ + fm + "---"@ + rest;
            &&& fences(doc, 0, fm.len() as int + 4)
            &&& forall|a: int, b: int| #[trigger] fences(doc, a, b) ==> a == 0 && b == fm.len() as int + 4
            &&& doc.subrange(3, fm.len() as int + 4) == "\n"@ + fm
            &&& doc.subrange(fm.len() as int + 7, doc.len() as int) == rest
        }),
{
    reveal_strlit("---\n");
    reveal_strlit("---");
    reveal_strlit("\n");
    let doc = "---\n"@ + fm + "---"@ + rest;
    let closed = fm + "---"@;
    let b = fm.len() as int + 4;
    assert forall|j: int| 0 <= j < fm.len() as int + 3 implies doc[j + 4] == closed[j] by {}
    assert forall|j: int| 3 <= j < b implies !fence_at(doc, j) by {
        if j == 3 {
            assert(doc[3] == '\n');
        } else {
            assert(!fence_at(closed, j - 4));
            assert(doc[j] == closed[j - 4]);
            assert(doc[j + 1] == closed[j - 3]);
            assert(doc[j + 2] == closed[j - 2]);
        }
    }
    assert(fence_at(doc, 0));
    assert(doc[b] == '-' && doc[b + 1] == '-' && doc[b + 2] == '-');
    assert(fences(doc, 0, b));
    assert forall|a: int, c: int| #[trigger] fences(doc, a, c) implies a == 0 && c == b by {
        if a > 0 {
            assert(fence_at(doc, 0));
        }
        if c < b {
            assert(!fence_at(doc, c));
        }
        if c > b {
            assert(fence_at(doc, b));
        }
    }
    assert(doc.subrange(3, b) =~= "\n"@ + fm);
    assert(doc.subrange(fm.len() as int + 7, doc.len() as int) =~= rest);
}

/// Whether a frontmatter's identity is the dossier `id` (in its hyphenated form).
pub fn id_matches(frontmatter_id: u128, id: &str) -> (b: bool)
    ensures
        b == (uuid_text(frontmatter_id) == id@),
{
    let text = id_text(frontmatter_id);
    text == String::from_str(id)
}

/// The error when a condition is added outside `ReadyForDecision`.
pub open spec fn add_condition_error() -> Seq<char> {
    "Can only add conditions to a dossier in ReadyForDecision state"@
}

/// Attaches a new, unmet condition to a dossier awaiting its decision; any other dossier is
/// left unchanged with an error.
pub fn add_condition(dossier: &mut SubmittedDossier, description: &str) -> (r: Result<(), &'static str>)
    ensures
        old(dossier).state != LifecycleState::ReadyForDecision <==> r is Err,
        r matches Err(e) ==> e@ == add_condition_error() && *final(dossier) == *old(dossier),
        r is Ok ==> {
            &&& final(dossier).id == old(dossier).id
            &&& final(dossier).state == old(dossier).state
            &&& final(dossier).locked_settings == old(dossier).locked_settings
            &&& final(dossier).conditions@.len() == old(dossier).conditions@.len() + 1
            &&& final(dossier).conditions@.drop_last() == old(dossier).conditions@
            &&& final(dossier).conditions@.last().description@ == description@
            &&& !final(dossier).conditions@.last().is_met
            &&& is_random_uuid(final(dossier).conditions@.last().id)
        },
{
    if dossier.state != LifecycleState::ReadyForDecision {
        return Err("Can only add conditions to a dossier in ReadyForDecision state");
    }
    dossier.conditions.push(
        Condition { id: fresh_id(), description: String::from_str(description), is_met: false },
    );
    proof {
        assert(dossier.conditions@.drop_last() =~= old(dossier).conditions@);
    }
    Ok(())
}

/// The root revision a submission starts from: the dossier body (trimmed) as both the original
/// proposal and the current understanding, an empty residual, no parent, and the digest of its
/// content.
pub fn initial_revision(body: &str) -> (rev: Revision)
    ensures
        rev.parent_digest is None,
        is_random_uuid(rev.revision_id),
        rev.original_proposal@ == trimmed(body@),
        rev.current_understanding@ == trimmed(body@),
        rev.positions@.len() == 0,
        rev.dissents@.len() == 0,
        rev.risks@.len() == 0,
        rev.questions@.len() == 0,
        rev.content_digest.0@ == digest_of(rev),
{
    let text = trim_text(body);
    let mut rev = Revision {
        revision_id: fresh_id(),
        parent_digest: None,
        content_digest: Digest(String::new()),
        original_proposal: text.clone(),
        current_understanding: text,
        positions: Vec::new(),
        dissents: Vec::new(),
        risks: Vec::new(),
        questions: Vec::new(),
    };
    let digest = rev.compute_digest();
    let ghost before = rev;
    rev.content_digest = digest;
    proof {
        crate::revision::lemma_digest_depends_only_on_content(before, rev);
    }
    rev
}

/// How a condition is listed: `- [x] ` when met, `- [ ] ` when not, then its description.
pub fn condition_line(c: &Condition) -> (line: String)
    ensures
        line@ == (if c.is_met { "- [x] "@ } else { "- [ ] "@ }) + c.description@,
{
    let mut line = if c.is_met {
        String::from_str("- [x] ")
    } else {
        String::from_str("- [ ] ")
    };
    line.append(c.description.as_str());
    line
}

} // verus!
