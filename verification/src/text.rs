//! Small text helpers: decimal rendering of unsigned integers, and the characters of a text.

use vstd::prelude::*;

use crate::ids::push_char;

verus! {

/// `t` occurs in `s` starting at index `i`.
pub open spec fn occurs_at(s: Seq<char>, t: Seq<char>, i: int) -> bool {
    0 <= i && i + t.len() <= s.len() && s.subrange(i, i + t.len()) == t
}

/// A text occurs in any concatenation that has it in the middle, just after the first part.
pub proof fn lemma_occurs_in_middle(a: Seq<char>, t: Seq<char>, b: Seq<char>)
    ensures
        occurs_at(a + t + b, t, a.len() as int),
{
    assert((a + t + b).subrange(a.len() as int, a.len() + t.len() as int) =~= t);
}

/// An occurrence stays one, shifted, when text is put around it.
pub proof fn lemma_occurs_around(s: Seq<char>, t: Seq<char>, i: int, a: Seq<char>, b: Seq<char>)
    requires
        occurs_at(s, t, i),
    ensures
        occurs_at(a + s + b, t, a.len() + i),
{
    assert((a + s + b).subrange(a.len() + i, a.len() + i + t.len()) =~= s.subrange(i, i + t.len()));
}

/// The decimal digit character for `d` (`0 <= d < 10`).
pub open spec fn digit_char(d: int) -> char {
    (48 + d) as char
}

/// The decimal rendering of `n`, without sign or leading zeros (`0` is `"0"`).
pub open spec fn decimal(n: nat) -> Seq<char>
    decreases n,
{
    if n < 10 {
        seq![digit_char(n as int)]
    } else {
        decimal(n / 10).push(digit_char((n % 10) as int))
    }
}

/// Renders `n` in decimal (as `{}` formats an unsigned integer).
pub fn decimal_text(n: u64) -> (s: String)
    ensures
        s@ == decimal(n as nat),
    decreases n,
{
    if n < 10 {
        let mut s = String::new();
        push_char(&mut s, ((48 + n) as u8) as char);
        s
    } else {
        let mut s = decimal_text(n / 10);
        push_char(&mut s, ((48 + n % 10) as u8) as char);
        s
    }
}

/// The characters of `s`, in order.
pub fn chars_of(s: &str) -> (cs: Vec<char>)
    ensures
        cs@ == s@,
{
    broadcast use vstd::string::group_string_axioms;

    let mut cs: Vec<char> = Vec::new();
    for c in it: s.chars()
        invariant
            it.seq() == s@,
            cs@ == s@.subrange(0, it.index() as int),
    {
        cs.push(c);
        proof {
            assert(cs@ =~= s@.subrange(0, it.index() + 1));
        }
    }
    proof {
        assert(s@.subrange(0, s@.len() as int) =~= s@);
    }
    cs
}

} // verus!
