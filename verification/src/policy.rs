//! Eligibility evaluation and the relevant-extension computation.
//!
//! A group is protected by its source files: under the OR policy any one
//! present source extension protects it, under the AND policy every
//! required source extension must be present. An eligible group's
//! deletion candidates are its extensions that the caller named as a
//! target or source; nothing with an extension the caller never
//! mentioned is ever touched. All comparisons go through the case mode.

use vstd::prelude::*;
use crate::casefold::{fold_case, fold_set};
use crate::extset::ExtSet;

verus! {

/// OR policy: eligible exactly when the group's extensions and the
/// required source extensions are disjoint under the case mode.
pub open spec fn eligible_or(
    exts: Set<Seq<char>>,
    sources: Set<Seq<char>>,
    case_sensitive: bool,
) -> bool {
    fold_set(case_sensitive, exts).intersect(fold_set(case_sensitive, sources)) =~= Set::empty()
}

/// AND policy: eligible exactly when the required source extensions are
/// not all present under the case mode.
pub open spec fn eligible_and(
    exts: Set<Seq<char>>,
    sources: Set<Seq<char>>,
    case_sensitive: bool,
) -> bool {
    !fold_set(case_sensitive, sources).subset_of(fold_set(case_sensitive, exts))
}

/// Whether one group extension is named by the caller: its folded form
/// occurs among the folded targets or sources.
pub open spec fn relevant(
    e: Seq<char>,
    targets: Set<Seq<char>>,
    sources: Set<Seq<char>>,
    case_sensitive: bool,
) -> bool {
    fold_set(case_sensitive, targets.union(sources)).contains(fold_case(case_sensitive, e))
}

/// The relevance test as a function value, for filtering a group's
/// extension sequence.
pub open spec fn relevant_pred(
    targets: Set<Seq<char>>,
    sources: Set<Seq<char>>,
    case_sensitive: bool,
) -> spec_fn(Seq<char>) -> bool {
    |e: Seq<char>| relevant(e, targets, sources, case_sensitive)
}

/// Whether the group with extensions `exts` is eligible for deletion:
/// OR policy unless `and_policy` asks for the stricter AND policy.
pub open spec fn eligible(
    exts: Set<Seq<char>>,
    sources: Set<Seq<char>>,
    and_policy: bool,
    case_sensitive: bool,
) -> bool {
    if and_policy {
        eligible_and(exts, sources, case_sensitive)
    } else {
        eligible_or(exts, sources, case_sensitive)
    }
}

/// Decides the OR policy: true exactly when none of the required source
/// extensions occurs among the group's extensions under the case mode.
pub fn check_removal_or(exts: &ExtSet, sources: &ExtSet, case_sensitive: bool) -> (r: bool)
    ensures
        r == eligible_or(exts.to_set(), sources.to_set(), case_sensitive),
{
    let mut i: usize = 0;
    while i < sources.len()
        invariant
            i <= sources@.len(),
            forall|j: int|
                0 <= j < i ==> !fold_set(case_sensitive, exts.to_set()).contains(
                    fold_case(case_sensitive, sources@[j]),
                ),
        decreases sources@.len() - i,
    {
        if exts.contains_mod_case(sources.get(i), case_sensitive) {
            proof {
                let x = fold_case(case_sensitive, sources@[i as int]);
                assert(sources@.contains(sources@[i as int]));
                crate::casefold::lemma_fold_set_member(
                    case_sensitive,
                    sources.to_set(),
                    sources@[i as int],
                );
                assert(fold_set(case_sensitive, exts.to_set()).intersect(
                    fold_set(case_sensitive, sources.to_set()),
                ).contains(x));
            }
            return false;
        }
        i = i + 1;
    }
    proof {
        let folded_exts = fold_set(case_sensitive, exts.to_set());
        let folded_sources = fold_set(case_sensitive, sources.to_set());
        assert forall|x: Seq<char>| !(#[trigger] folded_exts.intersect(folded_sources).contains(
            x,
        )) by {
            if folded_sources.contains(x) {
                let s = choose|s: Seq<char>|
                    sources.to_set().contains(s) && x == fold_case(case_sensitive, s);
                let j = choose|j: int| 0 <= j < sources@.len() && sources@[j] == s;
                assert(!folded_exts.contains(fold_case(case_sensitive, sources@[j])));
            }
        }
    }
    true
}

/// Decides the AND policy: true exactly when at least one required
/// source extension is missing from the group under the case mode.
pub fn check_removal_and(exts: &ExtSet, sources: &ExtSet, case_sensitive: bool) -> (r: bool)
    ensures
        r == eligible_and(exts.to_set(), sources.to_set(), case_sensitive),
{
    let mut i: usize = 0;
    while i < sources.len()
        invariant
            i <= sources@.len(),
            forall|j: int|
                0 <= j < i ==> fold_set(case_sensitive, exts.to_set()).contains(
                    fold_case(case_sensitive, sources@[j]),
                ),
        decreases sources@.len() - i,
    {
        if !exts.contains_mod_case(sources.get(i), case_sensitive) {
            proof {
                assert(sources@.contains(sources@[i as int]));
                crate::casefold::lemma_fold_set_member(
                    case_sensitive,
                    sources.to_set(),
                    sources@[i as int],
                );
            }
            return true;
        }
        i = i + 1;
    }
    proof {
        let folded_exts = fold_set(case_sensitive, exts.to_set());
        let folded_sources = fold_set(case_sensitive, sources.to_set());
        assert forall|x: Seq<char>| folded_sources.contains(x) implies folded_exts.contains(
            x,
        ) by {
            let s = choose|s: Seq<char>|
                sources.to_set().contains(s) && x == fold_case(case_sensitive, s);
            let j = choose|j: int| 0 <= j < sources@.len() && sources@[j] == s;
            assert(folded_exts.contains(fold_case(case_sensitive, sources@[j])));
        }
    }
    false
}

/// The group extensions the caller named as a target or source, in the
/// group's own order and with their observed casing.
pub fn existing_exts(
    exts: &ExtSet,
    targets: &ExtSet,
    sources: &ExtSet,
    case_sensitive: bool,
) -> (r: ExtSet)
    requires
        exts.wf(),
    ensures
        r.wf(),
        r@ == exts@.filter(relevant_pred(targets.to_set(), sources.to_set(), case_sensitive)),
{
    let ghost pred = relevant_pred(targets.to_set(), sources.to_set(), case_sensitive);
    let mut r = ExtSet::new();
    proof {
        reveal(Seq::filter);
        assert(exts@.take(0) =~= Seq::<Seq<char>>::empty());
        assert(exts@.take(0).filter(pred) =~= Seq::<Seq<char>>::empty());
    }
    let mut i: usize = 0;
    while i < exts.len()
        invariant
            i <= exts@.len(),
            exts.wf(),
            r.wf(),
            r@ == exts@.take(i as int).filter(pred),
            pred == relevant_pred(targets.to_set(), sources.to_set(), case_sensitive),
        decreases exts@.len() - i,
    {
        let e = exts.get(i);
        let in_targets = targets.contains_mod_case(e, case_sensitive);
        let in_sources = sources.contains_mod_case(e, case_sensitive);
        proof {
            let folded = fold_case(case_sensitive, e@);
            if in_targets || in_sources {
                if in_targets {
                    let t = choose|t: Seq<char>|
                        targets.to_set().contains(t) && folded == fold_case(case_sensitive, t);
                    assert(targets.to_set().union(sources.to_set()).contains(t));
                    crate::casefold::lemma_fold_set_member(
                        case_sensitive,
                        targets.to_set().union(sources.to_set()),
                        t,
                    );
                } else {
                    let t = choose|t: Seq<char>|
                        sources.to_set().contains(t) && folded == fold_case(case_sensitive, t);
                    assert(targets.to_set().union(sources.to_set()).contains(t));
                    crate::casefold::lemma_fold_set_member(
                        case_sensitive,
                        targets.to_set().union(sources.to_set()),
                        t,
                    );
                }
                assert(pred(e@));
            } else {
                if pred(e@) {
                    let t = choose|t: Seq<char>|
                        targets.to_set().union(sources.to_set()).contains(t) && folded
                            == fold_case(case_sensitive, t);
                    if targets.to_set().contains(t) {
                        crate::casefold::lemma_fold_set_member(case_sensitive, targets.to_set(), t);
                    } else {
                        crate::casefold::lemma_fold_set_member(case_sensitive, sources.to_set(), t);
                    }
                }
                assert(!pred(e@));
            }
        }
        if in_targets || in_sources {
            proof {
                reveal(Seq::filter);
                if r@.contains(e@) {
                    exts@.take(i as int).lemma_filter_contains_rev(pred, e@);
                    let j = choose|j: int| 0 <= j < i && exts@.take(i as int)[j] == e@;
                    assert(exts@[j] == exts@[i as int]);
                }
                assert(exts@.take(i + 1).drop_last() =~= exts@.take(i as int));
                assert(exts@.take(i + 1).last() == exts@[i as int]);
                assert(exts@.take(i + 1).filter(pred) == exts@.take(i as int).filter(pred).push(
                    exts@[i as int],
                ));
            }
            r.insert(e.clone());
        } else {
            proof {
                reveal(Seq::filter);
                assert(exts@.take(i + 1).drop_last() =~= exts@.take(i as int));
                assert(exts@.take(i + 1).filter(pred) == exts@.take(i as int).filter(pred));
            }
        }
        i = i + 1;
    }
    proof {
        assert(exts@.take(exts@.len() as int) =~= exts@);
    }
    r
}

} // verus!
