//! The evaluation pass: walk the group index once, decide each group
//! under the chosen policy, and accumulate the full deletion-candidate
//! list, in index order.
//!
//! Candidate paths are reconstructed from the group key and an observed
//! extension only; nothing is ever queued that was not seen during
//! discovery. Printing, confirmation and the deletions themselves are an
//! external collaborator's job, performed once with the whole list.

use vstd::prelude::*;
use crate::extset::ExtSet;
use crate::index::{GroupIndex, GroupEntry, build_file_map, spec_build};
use crate::paths::full_path_of;
use crate::policy::{eligible, check_removal_or, check_removal_and, existing_exts};
use crate::traverse::{DirTree, get_files, files_under_roots};

verus! {

/// The candidate paths of one eligible group: its relevant extensions,
/// in observed order, rebuilt into full paths.
pub open spec fn group_candidates(
    key: Seq<char>,
    exts: Seq<Seq<char>>,
    targets: Set<Seq<char>>,
    sources: Set<Seq<char>>,
    case_sensitive: bool,
) -> Seq<Seq<char>> {
    exts.filter(crate::policy::relevant_pred(targets, sources, case_sensitive)).map_values(
        |e: Seq<char>| full_path_of(key, e),
    )
}

/// The full candidate list over an index: the concatenation, in index
/// order, of every eligible group's candidates.
pub open spec fn spec_candidates(
    entries: Seq<GroupEntry>,
    targets: Set<Seq<char>>,
    sources: Set<Seq<char>>,
    and_policy: bool,
    case_sensitive: bool,
) -> Seq<Seq<char>>
    decreases entries.len(),
{
    if entries.len() == 0 {
        Seq::empty()
    } else {
        let last = entries.last();
        spec_candidates(entries.drop_last(), targets, sources, and_policy, case_sensitive) + (
        if eligible(last.1.to_set(), sources, and_policy, case_sensitive) {
            group_candidates(last.0, last.1, targets, sources, case_sensitive)
        } else {
            Seq::empty()
        })
    }
}

/// Rebuilds the candidate paths of one group: exactly the group
/// extensions named as a target or source, each joined to the key.
pub fn resolve_deletions(
    key: &String,
    group_exts: &ExtSet,
    targets: &ExtSet,
    sources: &ExtSet,
    case_sensitive: bool,
) -> (r: Vec<String>)
    requires
        group_exts.wf(),
    ensures
        r.deep_view() == group_candidates(
            key@,
            group_exts@,
            targets.to_set(),
            sources.to_set(),
            case_sensitive,
        ),
{
    let relevant_exts = existing_exts(group_exts, targets, sources, case_sensitive);
    let ghost mapped = group_candidates(
        key@,
        group_exts@,
        targets.to_set(),
        sources.to_set(),
        case_sensitive,
    );
    proof {
        assert(mapped == relevant_exts@.map_values(|e: Seq<char>| full_path_of(key@, e)));
    }
    let mut r: Vec<String> = Vec::new();
    proof {
        assert(r.deep_view() =~= relevant_exts@.take(0).map_values(
            |e: Seq<char>| full_path_of(key@, e),
        ));
    }
    let mut i: usize = 0;
    while i < relevant_exts.len()
        invariant
            i <= relevant_exts@.len(),
            r.deep_view() == relevant_exts@.take(i as int).map_values(
                |e: Seq<char>| full_path_of(key@, e),
            ),
        decreases relevant_exts@.len() - i,
    {
        let ghost before = r.deep_view();
        let p = crate::paths::build_full_path(key, relevant_exts.get(i));
        proof {
            assert(p@ == full_path_of(key@, relevant_exts@[i as int]));
        }
        r.push(p);
        proof {
            let f = |e: Seq<char>| full_path_of(key@, e);
            assert(r.deep_view() =~= before.push(full_path_of(key@, relevant_exts@[i as int])));
            let next = relevant_exts@.take(i + 1);
            assert(next.map_values(f).len() == i + 1);
            assert forall|j: int| 0 <= j < i + 1 implies next.map_values(f)[j] == r.deep_view()[j]
            by {
                assert(next.map_values(f)[j] == f(next[j]));
                assert(next[j] == relevant_exts@[j]);
                if j < i {
                    assert(relevant_exts@.take(i as int).map_values(f)[j] == f(
                        relevant_exts@.take(i as int)[j],
                    ));
                }
            }
            assert(r.deep_view() =~= next.map_values(f));
        }
        i = i + 1;
    }
    proof {
        assert(relevant_exts@.take(relevant_exts@.len() as int) =~= relevant_exts@);
    }
    r
}

/// Walks the index once and accumulates every eligible group's
/// candidates under the chosen policy.
pub fn collect_candidates(
    file_map: &GroupIndex,
    targets: &ExtSet,
    sources: &ExtSet,
    and_policy: bool,
    case_sensitive: bool,
) -> (files: Vec<String>)
    requires
        file_map.wf(),
    ensures
        files.deep_view() == spec_candidates(
            file_map@,
            targets.to_set(),
            sources.to_set(),
            and_policy,
            case_sensitive,
        ),
{
    let mut files: Vec<String> = Vec::new();
    proof {
        assert(file_map@.take(0) =~= Seq::<GroupEntry>::empty());
        assert(files.deep_view() =~= Seq::<Seq<char>>::empty());
    }
    let mut g: usize = 0;
    while g < file_map.len()
        invariant
            g <= file_map@.len(),
            file_map.wf(),
            files.deep_view() == spec_candidates(
                file_map@.take(g as int),
                targets.to_set(),
                sources.to_set(),
                and_policy,
                case_sensitive,
            ),
        decreases file_map@.len() - g,
    {
        let exts = file_map.exts_at(g);
        proof {
            assert(crate::index::distinct_seq(file_map@[g as int].1));
            assert(exts.wf());
        }
        let is_eligible = if and_policy {
            check_removal_and(exts, sources, case_sensitive)
        } else {
            check_removal_or(exts, sources, case_sensitive)
        };
        let ghost before = files.deep_view();
        if is_eligible {
            let key = file_map.key_at(g);
            let mut cands = resolve_deletions(key, exts, targets, sources, case_sensitive);
            let ghost cands_view = cands.deep_view();
            files.append(&mut cands);
            proof {
                assert(files.deep_view() =~= before + cands_view);
            }
        }
        proof {
            assert(file_map@.take(g + 1).drop_last() =~= file_map@.take(g as int));
            assert(file_map@.take(g + 1).last() == file_map@[g as int]);
            if !is_eligible {
                assert(files.deep_view() =~= before + Seq::<Seq<char>>::empty());
            }
        }
        g = g + 1;
    }
    proof {
        assert(file_map@.take(file_map@.len() as int) =~= file_map@);
    }
    files
}

/// The OR-policy pass: a group is spared as soon as any required source
/// extension is present; every other group contributes its relevant
/// files to the returned deletion list.
pub fn remove_files_or(
    file_map: &GroupIndex,
    targets: &ExtSet,
    sources: &ExtSet,
    case_sensitive: bool,
) -> (files: Vec<String>)
    requires
        file_map.wf(),
    ensures
        files.deep_view() == spec_candidates(
            file_map@,
            targets.to_set(),
            sources.to_set(),
            false,
            case_sensitive,
        ),
{
    collect_candidates(file_map, targets, sources, false, case_sensitive)
}

/// The AND-policy pass: a group is spared only when every required
/// source extension is present; every other group contributes its
/// relevant files to the returned deletion list.
pub fn remove_files_and(
    file_map: &GroupIndex,
    targets: &ExtSet,
    sources: &ExtSet,
    case_sensitive: bool,
) -> (files: Vec<String>)
    requires
        file_map.wf(),
    ensures
        files.deep_view() == spec_candidates(
            file_map@,
            targets.to_set(),
            sources.to_set(),
            true,
            case_sensitive,
        ),
{
    collect_candidates(file_map, targets, sources, true, case_sensitive)
}

/// The whole pass over a snapshot: discover files, build the group
/// index, and return every eligible group's deletion candidates under
/// the chosen policy.
pub fn plan_removals(
    roots: &Vec<DirTree>,
    targets: &ExtSet,
    sources: &ExtSet,
    recursive: bool,
    and_policy: bool,
    case_sensitive: bool,
) -> (files: Vec<String>)
    ensures
        files.deep_view() == spec_candidates(
            spec_build(files_under_roots(roots@, recursive)),
            targets.to_set(),
            sources.to_set(),
            and_policy,
            case_sensitive,
        ),
{
    let file_list = get_files(roots, recursive);
    let file_map = build_file_map(&file_list);
    collect_candidates(&file_map, targets, sources, and_policy, case_sensitive)
}

} // verus!
