//! The agent seam: how an Agent CLI is asked to work, and how its structured output is read.
//!
//! The transport does not judge outcomes: it reports the exit code and best-effort structured
//! output; whether that is acceptable is the caller's decision. An agent is always a program
//! with arguments, never a shell command line. Spawning the process is the application's; the
//! library states the request, the response and the reading of structured output.

use vstd::prelude::*;

use core::time::Duration;
use vstd::string::StrSliceExecFns;

use crate::ids::push_char;

verus! {

#[verifier::external_type_specification]
#[verifier::external_body]
pub struct ExJsonValue(serde_json::Value);

#[verifier::external_type_specification]
#[verifier::external_body]
pub struct ExIoError(std::io::Error);

/// `Duration`'s `Clone`: a `Copy` type, so the clone is the same duration.
pub assume_specification[ <core::time::Duration as Clone>::clone ](d: &Duration) -> (r: Duration)
    ensures
        r == *d,
;

/// Which agent role an invocation is for.
#[derive(Clone, Copy, Debug, PartialEq, Eq, Structural)]
pub enum AgentRole {
    /// Proposes changes.
    Builder,
    /// Scrutinizes changes; read-only.
    Reviewer,
}

/// A request to run an agent.
#[derive(Clone, Debug)]
pub struct AgentRequest {
    /// The role this invocation plays.
    pub role: AgentRole,
    /// The prompt handed to the agent (delivered on stdin).
    pub prompt: String,
    /// The working directory the agent runs in.
    pub workspace: String,
    /// The wall-clock bound on the invocation.
    pub timeout: Duration,
    /// Extra environment variables to expose (added to a minimized base).
    pub env: Vec<(String, String)>,
}

/// The result of running an agent: it *ran*; whether its outcome is acceptable is the caller's
/// judgment.
#[derive(Clone, Debug)]
pub struct AgentResponse {
    /// The process exit code, if the process exited normally.
    pub exit_code: Option<i32>,
    /// Captured standard output.
    pub stdout: String,
    /// Captured standard error.
    pub stderr: String,
    /// The agent's structured output, parsed best-effort from stdout.
    pub structured: Option<serde_json::Value>,
}

/// An infrastructure failure running an agent, distinct from the agent producing a bad
/// outcome (which is reported in [`AgentResponse`], not raised).
#[derive(Debug)]
pub enum AgentError {
    /// The process could not be spawned.
    Spawn(std::io::Error),
    /// The agent did not exit within its timeout and was terminated.
    TimedOut,
    /// An I/O failure while communicating with the process.
    Io(std::io::Error),
}

/// The seam by which an Agent CLI is invoked. Callers depend on this, never on a specific
/// CLI's flags.
pub trait AgentAdapter {
    /// Whether `answer` is an answer this adapter gives to `request`: what the agent said
    /// (its exit code and output) or the infrastructure error that stopped it. An adapter that
    /// does not say which answers it gives may give any.
    open spec fn answers(&self, request: AgentRequest, answer: Result<AgentResponse, AgentError>) -> bool {
        true
    }

    /// Runs the agent for `request`, returning its response or an infrastructure error.
    fn run(&self, request: AgentRequest) -> (answer: Result<AgentResponse, AgentError>)
        ensures
            self.answers(request, answer),
    ;
}

/// An Agent CLI run as a subprocess: a fixed `program` and `args`, spawned directly (never
/// through a shell), in the request's workspace, bounded by the request's timeout.
#[derive(Clone, Debug)]
pub struct SubprocessAdapter {
    program: String,
    args: Vec<String>,
}

impl SubprocessAdapter {
    pub closed spec fn program_spec(&self) -> Seq<char> {
        self.program@
    }

    pub closed spec fn args_spec(&self) -> Seq<String> {
        self.args@
    }

    /// An adapter that runs `program` with `args`.
    pub fn new(program: &str, args: Vec<String>) -> (a: SubprocessAdapter)
        ensures
            a.program_spec() == program@,
            a.args_spec() == args@,
    {
        SubprocessAdapter { program: String::from_str(program), args }
    }

    /// The program this adapter runs.
    pub fn program(&self) -> (p: &String)
        ensures
            p@ == self.program_spec(),
    {
        &self.program
    }

    /// The arguments it passes, literally.
    pub fn args(&self) -> (a: &Vec<String>)
        ensures
            a@ == self.args_spec(),
    {
        &self.args
    }
}

/// The lines of a text, split at each `'\n'` (the last line is whatever follows the last
/// newline, possibly empty).
pub open spec fn split_lines(s: Seq<char>) -> Seq<Seq<char>>
    decreases s.len(),
{
    if s.len() == 0 {
        seq![Seq::empty()]
    } else {
        let prev = split_lines(s.drop_last());
        if s.last() == '\n' {
            prev.push(Seq::empty())
        } else {
            prev.update(prev.len() - 1, prev.last().push(s.last()))
        }
    }
}

/// Whether `c` is white space in the Unicode sense (`White_Space`), as `char::is_whitespace`
/// decides it.
pub uninterp spec fn unicode_white_space(c: char) -> bool;

/// Whether `text` is a complete JSON value, as `serde_json::from_str::<Value>` accepts it.
pub uninterp spec fn json_parses(text: Seq<char>) -> bool;

/// The value `serde_json::from_str::<Value>` reads from `text` when it parses.
pub uninterp spec fn json_value_of(text: Seq<char>) -> serde_json::Value;

/// The first index of `s` that is not white space, from `from` on (or `s.len()`).
pub open spec fn skip_white(s: Seq<char>, from: int) -> int
    decreases s.len() - from,
{
    if from >= s.len() {
        s.len() as int
    } else if unicode_white_space(s[from]) {
        skip_white(s, from + 1)
    } else {
        from
    }
}

/// One past the last index before `to` that is not white space (or `lo` when there is none at
/// or after `lo`).
pub open spec fn trim_end_at(s: Seq<char>, lo: int, to: int) -> int
    decreases to - lo,
{
    if to <= lo {
        lo
    } else if unicode_white_space(s[to - 1]) {
        trim_end_at(s, lo, to - 1)
    } else {
        to
    }
}

/// `s` without its leading and trailing white space.
pub open spec fn trimmed(s: Seq<char>) -> Seq<char> {
    let lo = skip_white(s, 0);
    s.subrange(lo, trim_end_at(s, lo, s.len() as int))
}

/// Line `k` is the last line whose trimmed text is a JSON value.
pub open spec fn last_json_line(lines: Seq<Seq<char>>, k: int) -> bool {
    &&& 0 <= k < lines.len()
    &&& json_parses(trimmed(lines[k]))
    &&& forall|j: int| k < j < lines.len() ==> !json_parses(#[trigger] trimmed(lines[j]))
}

/// `char::is_whitespace`.
#[verifier::external_body]
fn is_white(c: char) -> (b: bool)
    ensures
        b == unicode_white_space(c),
{
    c.is_whitespace()
}

/// `serde_json::from_str::<serde_json::Value>`: a value exactly when `text` parses as JSON,
/// and then the value it reads from `text` ([`json_value_of`]; the same text always reads the
/// same value).
#[verifier::external_body]
fn parse_json(text: &str) -> (v: Option<serde_json::Value>)
    ensures
        v is Some <==> json_parses(text@),
        v matches Some(x) ==> x == json_value_of(text@),
{
    serde_json::from_str::<serde_json::Value>(text).ok()
}

proof fn lemma_skip_white_bounds(s: Seq<char>, from: int)
    requires
        0 <= from <= s.len(),
    ensures
        from <= skip_white(s, from) <= s.len(),
        forall|i: int| from <= i < skip_white(s, from) ==> unicode_white_space(#[trigger] s[i]),
    decreases s.len() - from,
{
    if from < s.len() && unicode_white_space(s[from]) {
        lemma_skip_white_bounds(s, from + 1);
    }
}

proof fn lemma_trim_end_bounds(s: Seq<char>, lo: int, to: int)
    requires
        0 <= lo <= to <= s.len(),
    ensures
        lo <= trim_end_at(s, lo, to) <= to,
    decreases to - lo,
{
    if to > lo && unicode_white_space(s[to - 1]) {
        lemma_trim_end_bounds(s, lo, to - 1);
    }
}

/// The text of `s` without leading and trailing white space (`str::trim`).
pub fn trim_text(s: &str) -> (t: String)
    ensures
        t@ == trimmed(s@),
{
    let n = s.unicode_len();
    let mut lo: usize = 0;
    while lo < n && is_white(s.get_char(lo))
        invariant
            lo <= n,
            n == s@.len(),
                        skip_white(s@, lo as int) == skip_white(s@, 0),
        decreases n - lo,
    {
        lo = lo + 1;
    }
    let mut hi: usize = n;
    while hi > lo && is_white(s.get_char(hi - 1))
        invariant
            lo <= hi <= n,
            n == s@.len(),
                        trim_end_at(s@, lo as int, hi as int) == trim_end_at(s@, lo as int, n as int),
        decreases hi - lo,
    {
        hi = hi - 1;
    }
    let mut out = String::new();
    let mut i: usize = lo;
    while i < hi
        invariant
            lo <= i <= hi <= n,
            n == s@.len(),
                        out@ == s@.subrange(lo as int, i as int),
        decreases hi - i,
    {
        push_char(&mut out, s.get_char(i));
        proof {
            assert(out@ =~= s@.subrange(lo as int, i + 1));
        }
        i = i + 1;
    }
    out
}


/// The lines of `text`, split at each newline.
fn lines_of(text: &str) -> (lines: Vec<String>)
    ensures
        lines@.map_values(|l: String| l@) == split_lines(text@),
{
    broadcast use vstd::string::group_string_axioms;

    let mut lines: Vec<String> = Vec::new();
    let mut cur = String::new();
    for c in it: text.chars()
        invariant
            it.seq() == text@,
            split_lines(text@.subrange(0, it.index() as int)) == lines@.map_values(|l: String| l@).push(cur@),
    {
        proof {
            let next = text@.subrange(0, it.index() + 1);
            assert(next.drop_last() =~= text@.subrange(0, it.index() as int));
            assert(next.last() == c);
        }
        if c == '\n' {
            let ghost before = lines@.map_values(|l: String| l@);
            lines.push(cur);
            cur = String::new();
            proof {
                assert(lines@.map_values(|l: String| l@).push(cur@) =~= before.push(lines@.last()@).push(Seq::empty()));
            }
        } else {
            push_char(&mut cur, c);
            proof {
                assert(split_lines(text@.subrange(0, it.index() + 1)) =~= lines@.map_values(|l: String| l@).push(cur@));
            }
        }
    }
    proof {
        assert(text@.subrange(0, text@.len() as int) =~= text@);
    }
    let ghost before = lines@.map_values(|l: String| l@);
    lines.push(cur);
    proof {
        assert(lines@.map_values(|l: String| l@) =~= before.push(lines@.last()@));
    }
    lines
}

/// The trimmed text of the last line of `stdout` that is a JSON value, if any line is.
pub fn structured_line(stdout: &str) -> (r: Option<String>)
    ensures
        r is None <==> forall|k: int|
            0 <= k < split_lines(stdout@).len() ==> !json_parses(#[trigger] trimmed(split_lines(stdout@)[k])),
        r matches Some(t) ==> exists|k: int|
            last_json_line(split_lines(stdout@), k) && t@ == trimmed(split_lines(stdout@)[k]),
{
    let lines = lines_of(stdout);
    let ghost ls = split_lines(stdout@);
    let mut k: usize = lines.len();
    while k > 0
        invariant
            k <= lines@.len(),
            ls == split_lines(stdout@),
            ls == lines@.map_values(|l: String| l@),
            forall|j: int| k <= j < ls.len() ==> !json_parses(#[trigger] trimmed(ls[j])),
        decreases k,
    {
        let t = trim_text(lines[k - 1].as_str());
        proof {
            assert(ls[k - 1] == lines@[k - 1]@);
        }
        if parse_json(t.as_str()).is_some() {
            proof {
                assert(t@ == trimmed(ls[k - 1]));
                assert(json_parses(trimmed(ls[k - 1])));
                assert(last_json_line(ls, k - 1));
            }
            return Some(t);
        }
        k = k - 1;
    }
    None
}

/// The agent's structured output: the last line of stdout that is a valid JSON value (agents
/// may print logs before it). Best-effort: when no line is one, there is none.
pub fn parse_structured(stdout: &str) -> (v: Option<serde_json::Value>)
    ensures
        v is Some <==> exists|k: int|
            0 <= k < split_lines(stdout@).len() && json_parses(#[trigger] trimmed(split_lines(stdout@)[k])),
        v matches Some(x) ==> exists|k: int|
            last_json_line(split_lines(stdout@), k) && x == json_value_of(trimmed(split_lines(stdout@)[k])),
{
    match structured_line(stdout) {
        Some(line) => {
            let v = parse_json(line.as_str());
            proof {
                let k = choose|k: int|
                    last_json_line(split_lines(stdout@), k) && line@ == trimmed(split_lines(stdout@)[k]);
                assert(json_parses(trimmed(split_lines(stdout@)[k])));
            }
            v
        },
        None => None,
    }
}

} // verus!
