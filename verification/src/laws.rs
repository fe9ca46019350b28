//! Engine-wide properties, proved once over the spec functions that the
//! executable contracts are stated in.

use vstd::prelude::*;
use crate::casefold::{fold_case, fold_set, lemma_fold_set_member};
use crate::index::{GroupEntry, spec_insert, spec_build, has_key, key_index};
use crate::paths::{key_of, ext_of, full_path_of};
use crate::policy::{relevant, relevant_pred, eligible};
use crate::pipeline::{group_candidates, spec_candidates};

verus! {

/// Whether an index view records extension `e` under key `k`.
pub open spec fn records(s: Seq<GroupEntry>, k: Seq<char>, e: Seq<char>) -> bool {
    exists|i: int| 0 <= i < s.len() && s[i].0 == k && (#[trigger] s[i].1).contains(e)
}

/// Recording one extension adds exactly that key/extension pair to what
/// the index records.
pub proof fn lemma_spec_insert_records(
    s: Seq<GroupEntry>,
    k: Seq<char>,
    e: Seq<char>,
    k2: Seq<char>,
    e2: Seq<char>,
)
    ensures
        records(spec_insert(s, k, e), k2, e2) <==> (records(s, k2, e2) || (k2 == k && e2 == e)),
{
    let r = spec_insert(s, k, e);
    if has_key(s, k) {
        let i = key_index(s, k);
        assert(0 <= i < s.len() && s[i].0 == k);
        if s[i].1.contains(e) {
            assert(r == s);
            if k2 == k && e2 == e {
                assert(records(s, k2, e2));
            }
        } else {
            assert(r == s.update(i, (k, s[i].1.push(e))));
            if records(r, k2, e2) {
                let j = choose|j: int| 0 <= j < r.len() && r[j].0 == k2 && (#[trigger] r[j].1).contains(e2);
                if j == i {
                    let m = choose|m: int| 0 <= m < r[i].1.len() && r[i].1[m] == e2;
                    if m < s[i].1.len() {
                        assert(s[i].1[m] == e2);
                        assert(records(s, k2, e2));
                    } else {
                        assert(e2 == e && k2 == k);
                    }
                } else {
                    assert(r[j] == s[j]);
                    assert(records(s, k2, e2));
                }
            }
            if records(s, k2, e2) {
                let j = choose|j: int| 0 <= j < s.len() && s[j].0 == k2 && (#[trigger] s[j].1).contains(e2);
                if j == i {
                    let m = choose|m: int| 0 <= m < s[i].1.len() && s[i].1[m] == e2;
                    assert(r[i].1[m] == e2);
                    assert(records(r, k2, e2));
                } else {
                    assert(r[j] == s[j]);
                    assert(records(r, k2, e2));
                }
            }
            if k2 == k && e2 == e {
                assert(r[i].1[s[i].1.len() as int] == e);
                assert(records(r, k2, e2));
            }
        }
    } else {
        assert(r == s.push((k, seq![e])));
        if records(r, k2, e2) {
            let j = choose|j: int| 0 <= j < r.len() && r[j].0 == k2 && (#[trigger] r[j].1).contains(e2);
            if j < s.len() {
                assert(r[j] == s[j]);
                assert(records(s, k2, e2));
            } else {
                assert(r[j] == (k, seq![e]));
                let m = choose|m: int| 0 <= m < seq![e].len() && seq![e][m] == e2;
                assert(e2 == e && k2 == k);
            }
        }
        if records(s, k2, e2) {
            let j = choose|j: int| 0 <= j < s.len() && s[j].0 == k2 && (#[trigger] s[j].1).contains(e2);
            assert(r[j] == s[j]);
            assert(records(r, k2, e2));
        }
        if k2 == k && e2 == e {
            assert(r[s.len() as int] == (k, seq![e]));
            assert(r[s.len() as int].1[0] == e);
            assert(records(r, k2, e2));
        }
    }
}

/// The built index records a key/extension pair exactly when some
/// discovered file has that group key and that extension. Since the key
/// of a file is a function of its path, every discovered file belongs
/// to exactly one group: the entry of its key.
pub proof fn lemma_build_records(files: Seq<Seq<char>>, k: Seq<char>, e: Seq<char>)
    ensures
        records(spec_build(files), k, e) <==> (exists|i: int|
            0 <= i < files.len() && key_of(#[trigger] files[i]) == k && ext_of(files[i]) == e),
    decreases files.len(),
{
    if files.len() == 0 {
        assert(spec_build(files).len() == 0);
    } else {
        let rest = files.drop_last();
        let f = files.last();
        lemma_build_records(rest, k, e);
        lemma_spec_insert_records(spec_build(rest), key_of(f), ext_of(f), k, e);
        if records(spec_build(files), k, e) {
            if key_of(f) == k && ext_of(f) == e {
                assert(files[files.len() - 1] == f);
            } else {
                let i = choose|i: int|
                    0 <= i < rest.len() && key_of(#[trigger] rest[i]) == k && ext_of(rest[i]) == e;
                assert(files[i] == rest[i]);
            }
        }
        if exists|i: int|
            0 <= i < files.len() && key_of(#[trigger] files[i]) == k && ext_of(files[i]) == e {
            let i = choose|i: int|
                0 <= i < files.len() && key_of(#[trigger] files[i]) == k && ext_of(files[i]) == e;
            if i < files.len() - 1 {
                assert(rest[i] == files[i]);
            } else {
                assert(files[i] == f);
            }
        }
    }
}

/// Every discovered file is recorded in the built index, under the one
/// group key derived from its path.
pub proof fn lemma_file_in_its_group(files: Seq<Seq<char>>, i: int)
    requires
        0 <= i < files.len(),
    ensures
        records(spec_build(files), key_of(files[i]), ext_of(files[i])),
{
    lemma_build_records(files, key_of(files[i]), ext_of(files[i]));
}

/// No entry of a built index has an empty extension set.
pub proof fn lemma_build_no_empty_group(files: Seq<Seq<char>>, g: int)
    requires
        0 <= g < spec_build(files).len(),
    ensures
        spec_build(files)[g].1.len() > 0,
    decreases files.len(),
{
    if files.len() > 0 {
        let rest = files.drop_last();
        let f = files.last();
        let s = spec_build(rest);
        if has_key(s, key_of(f)) {
            let i = key_index(s, key_of(f));
            assert(0 <= i < s.len() && s[i].0 == key_of(f));
            if g != i || s[i].1.contains(ext_of(f)) {
                if g < s.len() {
                    lemma_build_no_empty_group(rest, g);
                }
            } else {
                lemma_build_no_empty_group(rest, g);
            }
        } else {
            if g < s.len() {
                lemma_build_no_empty_group(rest, g);
            } else {
                assert(spec_build(files)[g].1 == seq![ext_of(f)]);
            }
        }
    }
}

/// A path is a candidate of a group exactly when it is one observed
/// extension that the caller named as a target or source, rebuilt onto
/// the group key — never an extension that was not observed.
pub proof fn lemma_group_candidates_member(
    key: Seq<char>,
    exts: Seq<Seq<char>>,
    targets: Set<Seq<char>>,
    sources: Set<Seq<char>>,
    case_sensitive: bool,
    p: Seq<char>,
)
    ensures
        group_candidates(key, exts, targets, sources, case_sensitive).to_set().contains(p) <==> (
        exists|e: Seq<char>|
            exts.contains(e) && #[trigger] relevant(e, targets, sources, case_sensitive) && p
                == full_path_of(key, e)),
{
    let pred = relevant_pred(targets, sources, case_sensitive);
    let kept = exts.filter(pred);
    let cands = group_candidates(key, exts, targets, sources, case_sensitive);
    if cands.to_set().contains(p) {
        let j = choose|j: int| 0 <= j < cands.len() && cands[j] == p;
        assert(cands[j] == full_path_of(key, kept[j]));
        exts.lemma_filter_pred(pred, j);
        exts.lemma_filter_contains_rev(pred, kept[j]);
        assert(exts.contains(kept[j]) && relevant(kept[j], targets, sources, case_sensitive) && p
            == full_path_of(key, kept[j]));
    }
    if exists|e: Seq<char>|
        exts.contains(e) && #[trigger] relevant(e, targets, sources, case_sensitive) && p
            == full_path_of(key, e) {
        let e = choose|e: Seq<char>|
            exts.contains(e) && #[trigger] relevant(e, targets, sources, case_sensitive) && p
                == full_path_of(key, e);
        let i = choose|i: int| 0 <= i < exts.len() && exts[i] == e;
        exts.lemma_filter_contains(pred, i);
        let j = choose|j: int| 0 <= j < kept.len() && kept[j] == e;
        assert(cands[j] == full_path_of(key, e));
        assert(cands.contains(p));
    }
}

/// Under the exact (case-sensitive) mode, an eligible group's candidate
/// set is precisely `(targets ∪ sources) ∩ group_exts`, rebuilt to full
/// paths.
pub proof fn lemma_group_candidates_exact(
    key: Seq<char>,
    exts: Seq<Seq<char>>,
    targets: Set<Seq<char>>,
    sources: Set<Seq<char>>,
)
    ensures
        group_candidates(key, exts, targets, sources, true).to_set()
            =~= targets.union(sources).intersect(exts.to_set()).map(
            |e: Seq<char>| full_path_of(key, e),
        ),
{
    let lhs = group_candidates(key, exts, targets, sources, true).to_set();
    let rhs = targets.union(sources).intersect(exts.to_set()).map(
        |e: Seq<char>| full_path_of(key, e),
    );
    assert forall|p: Seq<char>| lhs.contains(p) implies rhs.contains(p) by {
        lemma_group_candidates_member(key, exts, targets, sources, true, p);
        let e = choose|e: Seq<char>|
            exts.contains(e) && #[trigger] relevant(e, targets, sources, true) && p
                == full_path_of(key, e);
        let u = choose|u: Seq<char>|
            targets.union(sources).contains(u) && fold_case(true, e) == fold_case(true, u);
        assert(u == e);
        assert(targets.union(sources).intersect(exts.to_set()).contains(e));
        assert(exists|x: Seq<char>|
            targets.union(sources).intersect(exts.to_set()).contains(x) && p == (|e2: Seq<char>|
                full_path_of(key, e2))(x));
    }
    assert forall|p: Seq<char>| rhs.contains(p) implies lhs.contains(p) by {
        let e = choose|e: Seq<char>|
            targets.union(sources).intersect(exts.to_set()).contains(e) && p == (|e2: Seq<char>|
                full_path_of(key, e2))(e);
        lemma_fold_set_member(true, targets.union(sources), e);
        assert(relevant(e, targets, sources, true));
        assert(exts.contains(e));
        lemma_group_candidates_member(key, exts, targets, sources, true, p);
    }
}

/// A path is queued over a whole index exactly when some eligible group
/// yields it as one of its own candidates; no ineligible group
/// contributes anything.
pub proof fn lemma_candidates_from_eligible_groups(
    entries: Seq<GroupEntry>,
    targets: Set<Seq<char>>,
    sources: Set<Seq<char>>,
    and_policy: bool,
    case_sensitive: bool,
    p: Seq<char>,
)
    ensures
        spec_candidates(entries, targets, sources, and_policy, case_sensitive).contains(p) <==> (
        exists|g: int|
            0 <= g < entries.len() && eligible(
                (#[trigger] entries[g]).1.to_set(),
                sources,
                and_policy,
                case_sensitive,
            ) && group_candidates(
                entries[g].0,
                entries[g].1,
                targets,
                sources,
                case_sensitive,
            ).contains(p)),
    decreases entries.len(),
{
    if entries.len() > 0 {
        let rest = entries.drop_last();
        let last = entries.last();
        let head = spec_candidates(rest, targets, sources, and_policy, case_sensitive);
        let tail = if eligible(last.1.to_set(), sources, and_policy, case_sensitive) {
            group_candidates(last.0, last.1, targets, sources, case_sensitive)
        } else {
            Seq::<Seq<char>>::empty()
        };
        let whole = spec_candidates(entries, targets, sources, and_policy, case_sensitive);
        assert(whole == head + tail);
        lemma_candidates_from_eligible_groups(
            rest,
            targets,
            sources,
            and_policy,
            case_sensitive,
            p,
        );
        if whole.contains(p) {
            let j = choose|j: int| 0 <= j < whole.len() && whole[j] == p;
            if j < head.len() {
                assert(head[j] == p);
                assert(head.contains(p));
                let g = choose|g: int|
                    0 <= g < rest.len() && eligible(
                        (#[trigger] rest[g]).1.to_set(),
                        sources,
                        and_policy,
                        case_sensitive,
                    ) && group_candidates(
                        rest[g].0,
                        rest[g].1,
                        targets,
                        sources,
                        case_sensitive,
                    ).contains(p);
                assert(entries[g] == rest[g]);
            } else {
                assert(tail[j - head.len()] == p);
                assert(tail.contains(p));
                assert(entries[entries.len() - 1] == last);
            }
        }
        if exists|g: int|
            0 <= g < entries.len() && eligible(
                (#[trigger] entries[g]).1.to_set(),
                sources,
                and_policy,
                case_sensitive,
            ) && group_candidates(
                entries[g].0,
                entries[g].1,
                targets,
                sources,
                case_sensitive,
            ).contains(p) {
            let g = choose|g: int|
                0 <= g < entries.len() && eligible(
                    (#[trigger] entries[g]).1.to_set(),
                    sources,
                    and_policy,
                    case_sensitive,
                ) && group_candidates(
                    entries[g].0,
                    entries[g].1,
                    targets,
                    sources,
                    case_sensitive,
                ).contains(p);
            if g < entries.len() - 1 {
                assert(rest[g] == entries[g]);
                let j = choose|j: int| 0 <= j < head.len() && head[j] == p;
                assert(whole[j] == p);
            } else {
                let cand = group_candidates(last.0, last.1, targets, sources, case_sensitive);
                let j = choose|j: int| 0 <= j < cand.len() && cand[j] == p;
                assert(whole[head.len() + j] == p);
            }
            assert(whole.contains(p));
        }
    }
}

/// Rerunning the pipeline on the same discovered files and the same
/// configuration gives the identical index and the identical candidate
/// list. Every executable stage pins its result to these spec values,
/// so two runs with no filesystem change in between cannot differ.
pub proof fn lemma_rerun_identical(
    files: Seq<Seq<char>>,
    index1: Seq<GroupEntry>,
    index2: Seq<GroupEntry>,
    cands1: Seq<Seq<char>>,
    cands2: Seq<Seq<char>>,
    targets: Set<Seq<char>>,
    sources: Set<Seq<char>>,
    and_policy: bool,
    case_sensitive: bool,
)
    requires
        index1 == spec_build(files),
        index2 == spec_build(files),
        cands1 == spec_candidates(index1, targets, sources, and_policy, case_sensitive),
        cands2 == spec_candidates(index2, targets, sources, and_policy, case_sensitive),
    ensures
        index1 == index2,
        cands1 == cands2,
{
}

/// Eligibility and relevance look only at the folded comparison images:
/// extension sets whose folded images agree — as casing variants of the
/// same extensions do under the case-insensitive mode — are
/// indistinguishable to every policy decision.
pub proof fn lemma_fold_decides(
    exts1: Set<Seq<char>>,
    exts2: Set<Seq<char>>,
    targets: Set<Seq<char>>,
    sources: Set<Seq<char>>,
    and_policy: bool,
    case_sensitive: bool,
)
    requires
        fold_set(case_sensitive, exts1) == fold_set(case_sensitive, exts2),
    ensures
        eligible(exts1, sources, and_policy, case_sensitive) == eligible(
            exts2,
            sources,
            and_policy,
            case_sensitive,
        ),
{
}

} // verus!
