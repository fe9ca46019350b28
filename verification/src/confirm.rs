//! Interpreting the operator's answer to the deletion prompt.
//!
//! Prompting and reading standard input are an external collaborator's
//! job; deciding what the answer means is not. Deletion goes ahead when
//! the run is forced, or when the answer — stripped of surrounding
//! blanks, as an interactive line always carries its newline — is
//! exactly `y`.

use vstd::prelude::*;

verus! {

/// A character the answer is trimmed of: space, tab, or a line break.
pub open spec fn is_blank(c: char) -> bool {
    c == ' ' || c == '\t' || c == '\n' || c == '\r'
}

/// `s` without its leading blanks.
pub open spec fn drop_leading_blanks(s: Seq<char>) -> Seq<char>
    decreases s.len(),
{
    if s.len() > 0 && is_blank(s[0]) {
        drop_leading_blanks(s.drop_first())
    } else {
        s
    }
}

/// `s` without its trailing blanks.
pub open spec fn drop_trailing_blanks(s: Seq<char>) -> Seq<char>
    decreases s.len(),
{
    if s.len() > 0 && is_blank(s.last()) {
        drop_trailing_blanks(s.drop_last())
    } else {
        s
    }
}

/// `s` without leading and trailing blanks.
pub open spec fn trimmed(s: Seq<char>) -> Seq<char> {
    drop_trailing_blanks(drop_leading_blanks(s))
}

/// Dropping leading blanks skips exactly to the first non-blank.
proof fn lemma_drop_leading_at(s: Seq<char>, a: int)
    requires
        0 <= a <= s.len(),
        forall|j: int| 0 <= j < a ==> is_blank(s[j]),
        a < s.len() ==> !is_blank(s[a]),
    ensures
        drop_leading_blanks(s) == s.skip(a),
    decreases a,
{
    if a == 0 {
        assert(drop_leading_blanks(s) == s);
        assert(s.skip(0) =~= s);
    } else {
        assert(is_blank(s[0]));
        let rest = s.drop_first();
        assert(forall|j: int| 0 <= j < a - 1 ==> rest[j] == s[j + 1]);
        lemma_drop_leading_at(rest, a - 1);
        assert(rest.skip(a - 1) =~= s.skip(a));
    }
}

/// Dropping trailing blanks cuts exactly at the last non-blank.
proof fn lemma_drop_trailing_at(s: Seq<char>, b: int)
    requires
        0 <= b <= s.len(),
        forall|j: int| b <= j < s.len() ==> is_blank(s[j]),
        b > 0 ==> !is_blank(s[b - 1]),
    ensures
        drop_trailing_blanks(s) == s.take(b),
    decreases s.len(),
{
    if b == s.len() {
        if s.len() > 0 {
            assert(!is_blank(s.last()));
        }
        assert(drop_trailing_blanks(s) == s);
        assert(s.take(b) =~= s);
    } else {
        assert(is_blank(s.last()));
        let rest = s.drop_last();
        assert(forall|j: int| 0 <= j < s.len() - 1 ==> rest[j] == s[j]);
        lemma_drop_trailing_at(rest, b);
        assert(rest.take(b) =~= s.take(b));
    }
}

/// Whether `c` is a blank, for executable scans.
fn is_blank_char(c: char) -> (r: bool)
    ensures
        r == is_blank(c),
{
    c == ' ' || c == '\t' || c == '\n' || c == '\r'
}

/// `s` without surrounding blanks, as `trimmed` describes it.
pub fn trim_blanks(s: &str) -> (r: String)
    ensures
        r@ == trimmed(s@),
{
    let n = s.unicode_len();
    let mut a: usize = 0;
    while a < n && is_blank_char(s.get_char(a))
        invariant
            a <= n,
            n == s@.len(),
            forall|j: int| 0 <= j < a ==> is_blank(s@[j]),
        decreases n - a,
    {
        a = a + 1;
    }
    proof {
        lemma_drop_leading_at(s@, a as int);
    }
    let mut b: usize = n;
    while b > a && is_blank_char(s.get_char(b - 1))
        invariant
            a <= b <= n,
            n == s@.len(),
            forall|j: int| b <= j < n ==> is_blank(s@[j]),
        decreases b,
    {
        b = b - 1;
    }
    proof {
        let lead = s@.skip(a as int);
        assert(forall|j: int| b - a <= j < lead.len() ==> lead[j] == s@[j + a]);
        lemma_drop_trailing_at(lead, b - a);
        assert(lead.take(b - a) =~= s@.subrange(a as int, b as int));
    }
    s.substring_char(a, b).to_owned()
}

/// Whether deletion is allowed to proceed: the run is forced, or the
/// operator's answer is exactly `y` once trimmed.
pub fn confirmation_granted(force: bool, answer: &str) -> (r: bool)
    ensures
        r == (force || trimmed(answer@) == seq!['y']),
{
    if force {
        return true;
    }
    let t = trim_blanks(answer);
    let yes = String::from_str("y");
    proof {
        reveal_strlit("y");
        assert(yes@ =~= seq!['y']);
    }
    t.eq(&yes)
}

} // verus!
