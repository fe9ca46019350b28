//! Case folding for extension comparison.
//!
//! Extension comparisons are case-insensitive by default: both sides are
//! folded to ASCII lower case before comparing. Original casing is never
//! rewritten; folding happens only at comparison points, so reconstructed
//! paths keep the casing that was observed on disk.

use vstd::prelude::*;

verus! {

/// ASCII lower-case image of one character; characters outside `A..=Z`
/// are unchanged.
pub open spec fn lower_char(c: char) -> char {
    if 'A' <= c && c <= 'Z' {
        ((c as u8) + 32) as char
    } else {
        c
    }
}

/// The comparison image of a string: itself when `case_sensitive`,
/// otherwise its character-wise ASCII lower-casing.
pub open spec fn fold_case(case_sensitive: bool, s: Seq<char>) -> Seq<char> {
    if case_sensitive {
        s
    } else {
        s.map_values(|c: char| lower_char(c))
    }
}

/// The comparison image of a whole set of strings.
pub open spec fn fold_set(case_sensitive: bool, s: Set<Seq<char>>) -> Set<Seq<char>> {
    s.map(|e: Seq<char>| fold_case(case_sensitive, e))
}

/// A member of a set folds to a member of the folded set.
pub proof fn lemma_fold_set_member(case_sensitive: bool, s: Set<Seq<char>>, e: Seq<char>)
    requires
        s.contains(e),
    ensures
        fold_set(case_sensitive, s).contains(fold_case(case_sensitive, e)),
{
    assert(exists|x: Seq<char>|
        s.contains(x) && fold_case(case_sensitive, e) == fold_case(case_sensitive, x)) by {
        assert(s.contains(e) && fold_case(case_sensitive, e) == fold_case(case_sensitive, e));
    }
}

/// ASCII lower-case of one character, for executable comparisons.
pub fn lower_char_exec(c: char) -> (r: char)
    ensures
        r == lower_char(c),
{
    if 'A' <= c && c <= 'Z' {
        ((c as u8) + 32) as char
    } else {
        c
    }
}

/// Whether two strings are equal under the configured case mode.
pub fn eq_mod_case(a: &str, b: &str, case_sensitive: bool) -> (r: bool)
    ensures
        r == (fold_case(case_sensitive, a@) == fold_case(case_sensitive, b@)),
{
    let a_len = a.unicode_len();
    let b_len = b.unicode_len();
    if a_len != b_len {
        assert(fold_case(case_sensitive, a@).len() == a@.len());
        assert(fold_case(case_sensitive, b@).len() == b@.len());
        return false;
    }
    let mut i: usize = 0;
    while i < a_len
        invariant
            i <= a_len,
            a_len == a@.len(),
            b_len == b@.len(),
            a_len == b_len,
            forall|j: int|
                0 <= j < i ==> fold_case(case_sensitive, a@)[j] == fold_case(case_sensitive, b@)[j],
        decreases a_len - i,
    {
        let ca = a.get_char(i);
        let cb = b.get_char(i);
        let same = if case_sensitive {
            ca == cb
        } else {
            lower_char_exec(ca) == lower_char_exec(cb)
        };
        if !same {
            assert(fold_case(case_sensitive, a@)[i as int] != fold_case(case_sensitive, b@)[i as int]);
            return false;
        }
        i = i + 1;
    }
    proof {
        assert(fold_case(case_sensitive, a@) =~= fold_case(case_sensitive, b@));
    }
    true
}

} // verus!
