//! A set of extension strings observed for one group, or supplied by the
//! caller as targets or sources.
//!
//! Entries are exact strings (the empty string stands for "no extension");
//! duplicates are collapsed on insertion. The view is the sequence of
//! entries in insertion order, with well-formedness stating that no entry
//! repeats, so `to_set` of the view loses nothing.

use vstd::prelude::*;
use crate::casefold::{fold_case, fold_set};

verus! {

/// A duplicate-free collection of extension strings.
pub struct ExtSet {
    entries: Vec<String>,
}

impl View for ExtSet {
    type V = Seq<Seq<char>>;

    closed spec fn view(&self) -> Seq<Seq<char>> {
        self.entries@.map_values(|s: String| s@)
    }
}

impl ExtSet {
    /// No entry occurs twice.
    pub open spec fn wf(&self) -> bool {
        forall|i: int, j: int| 0 <= i < j < self@.len() ==> self@[i] != self@[j]
    }

    /// The entries as a mathematical set.
    pub open spec fn to_set(&self) -> Set<Seq<char>> {
        self@.to_set()
    }

    /// An empty set.
    pub fn new() -> (r: ExtSet)
        ensures
            r@ == Seq::<Seq<char>>::empty(),
            r.wf(),
    {
        ExtSet { entries: Vec::new() }
    }

    /// How many entries the set holds.
    pub fn len(&self) -> (n: usize)
        ensures
            n == self@.len(),
    {
        self.entries.len()
    }

    /// The entry at position `i`, in insertion order.
    pub fn get(&self, i: usize) -> (r: &String)
        requires
            i < self@.len(),
        ensures
            r@ == self@[i as int],
    {
        &self.entries[i]
    }

    /// Exact membership of `s`.
    pub fn contains(&self, s: &String) -> (r: bool)
        ensures
            r == self@.contains(s@),
    {
        let mut i: usize = 0;
        while i < self.entries.len()
            invariant
                i <= self@.len(),
                self@.len() == self.entries@.len(),
                forall|j: int| 0 <= j < i ==> self@[j] != s@,
            decreases self@.len() - i,
        {
            if self.entries[i].eq(s) {
                assert(self@[i as int] == s@);
                return true;
            }
            i = i + 1;
        }
        false
    }

    /// Membership of `s` under the configured case mode: some entry is
    /// equal to `s` once both are folded.
    pub fn contains_mod_case(&self, s: &String, case_sensitive: bool) -> (r: bool)
        ensures
            r == fold_set(case_sensitive, self@.to_set()).contains(
                fold_case(case_sensitive, s@),
            ),
    {
        let mut i: usize = 0;
        while i < self.entries.len()
            invariant
                i <= self@.len(),
                self@.len() == self.entries@.len(),
                forall|j: int|
                    0 <= j < i ==> fold_case(case_sensitive, self@[j])
                        != fold_case(case_sensitive, s@),
            decreases self@.len() - i,
        {
            if crate::casefold::eq_mod_case(self.entries[i].as_str(), s.as_str(), case_sensitive) {
                assert(fold_set(case_sensitive, self@.to_set()).contains(
                    fold_case(case_sensitive, s@),
                )) by {
                    assert(self@.to_set().contains(self@[i as int]));
                };
                return true;
            }
            i = i + 1;
        }
        proof {
            if fold_set(case_sensitive, self@.to_set()).contains(
                fold_case(case_sensitive, s@),
            ) {
                let e = choose|e: Seq<char>|
                    self@.to_set().contains(e) && fold_case(case_sensitive, e)
                        == fold_case(case_sensitive, s@);
                let k = choose|k: int| 0 <= k < self@.len() && self@[k] == e;
                assert(fold_case(case_sensitive, self@[k])
                    == fold_case(case_sensitive, s@));
            }
        }
        false
    }

    /// Inserts `s` unless an exactly equal entry is already present.
    pub fn insert(&mut self, s: String)
        requires
            old(self).wf(),
        ensures
            final(self).wf(),
            final(self)@ == (if old(self)@.contains(s@) {
                old(self)@
            } else {
                old(self)@.push(s@)
            }),
    {
        if !self.contains(&s) {
            let ghost prior = self@;
            self.entries.push(s);
            proof {
                assert(self@ =~= prior.push(self@[prior.len() as int]));
            }
        }
    }
}

} // verus!
