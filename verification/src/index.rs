//! The group index: a mapping from group key (directory + `/` + stem) to
//! the set of extensions observed for that key.
//!
//! The index is rebuilt from a full file list on every run. Keys are
//! unique; each key's extension collection is duplicate-free. The view is
//! the sequence of key/extension entries in first-insertion order, which
//! makes every operation on the index deterministic in its input.

use vstd::prelude::*;
use crate::extset::ExtSet;
use crate::paths::{ext_of, key_of};

verus! {

/// One viewed entry: a group key and the extensions seen under it.
pub type GroupEntry = (Seq<char>, Seq<Seq<char>>);

/// Whether some entry of `s` has key `k`.
pub open spec fn has_key(s: Seq<GroupEntry>, k: Seq<char>) -> bool {
    exists|i: int| 0 <= i < s.len() && s[i].0 == k
}

/// The index of the entry with key `k` (meaningful when `has_key`).
pub open spec fn key_index(s: Seq<GroupEntry>, k: Seq<char>) -> int {
    choose|i: int| 0 <= i < s.len() && s[i].0 == k
}

/// No two entries share a key.
pub open spec fn distinct_keys(s: Seq<GroupEntry>) -> bool {
    forall|i: int, j: int| 0 <= i < j < s.len() ==> s[i].0 != s[j].0
}

/// No string occurs twice in `es`.
pub open spec fn distinct_seq(es: Seq<Seq<char>>) -> bool {
    forall|i: int, j: int| 0 <= i < j < es.len() ==> es[i] != es[j]
}

/// Well-formedness of an index view: unique keys, duplicate-free
/// extension collections.
pub open spec fn index_wf(s: Seq<GroupEntry>) -> bool {
    distinct_keys(s) && (forall|i: int| 0 <= i < s.len() ==> distinct_seq(#[trigger] s[i].1))
}

/// The index after recording extension `e` for key `k`: the entry for `k`
/// gains `e` unless already present; a missing key appends a fresh entry.
pub open spec fn spec_insert(s: Seq<GroupEntry>, k: Seq<char>, e: Seq<char>) -> Seq<GroupEntry> {
    if has_key(s, k) {
        let i = key_index(s, k);
        if s[i].1.contains(e) {
            s
        } else {
            s.update(i, (k, s[i].1.push(e)))
        }
    } else {
        s.push((k, seq![e]))
    }
}

/// The index built from a file list: each file contributes its extension
/// to the entry of its group key, in order.
pub open spec fn spec_build(files: Seq<Seq<char>>) -> Seq<GroupEntry>
    decreases files.len(),
{
    if files.len() == 0 {
        Seq::empty()
    } else {
        spec_insert(spec_build(files.drop_last()), key_of(files.last()), ext_of(files.last()))
    }
}

/// With distinct keys, an entry observed at `i` pins `key_index`.
pub proof fn lemma_key_index_at(s: Seq<GroupEntry>, k: Seq<char>, i: int)
    requires
        distinct_keys(s),
        0 <= i < s.len(),
        s[i].0 == k,
    ensures
        has_key(s, k),
        key_index(s, k) == i,
{
    let j = key_index(s, k);
    assert(0 <= j < s.len() && s[j].0 == k);
}

/// Recording an extension preserves index well-formedness.
pub proof fn lemma_spec_insert_wf(s: Seq<GroupEntry>, k: Seq<char>, e: Seq<char>)
    requires
        index_wf(s),
    ensures
        index_wf(spec_insert(s, k, e)),
{
    if has_key(s, k) {
        let i = key_index(s, k);
        assert(0 <= i < s.len() && s[i].0 == k);
        if !s[i].1.contains(e) {
            let r = s.update(i, (k, s[i].1.push(e)));
            assert forall|a: int| 0 <= a < r.len() implies distinct_seq(#[trigger] r[a].1) by {
                if a == i {
                    assert(forall|x: int| 0 <= x < s[i].1.len() ==> s[i].1[x] != e);
                    assert(distinct_seq(s[i].1));
                    assert(r[a].1 == s[i].1.push(e));
                    assert forall|x: int, y: int|
                        0 <= x < y < r[a].1.len() implies r[a].1[x] != r[a].1[y] by {
                        if y < s[i].1.len() {
                            assert(r[a].1[x] == s[i].1[x] && r[a].1[y] == s[i].1[y]);
                        } else {
                            assert(r[a].1[y] == e && r[a].1[x] == s[i].1[x]);
                        }
                    }
                } else {
                    assert(r[a].1 == s[a].1);
                }
            }
        }
    } else {
        let r = s.push((k, seq![e]));
        assert forall|a: int| 0 <= a < r.len() implies distinct_seq(#[trigger] r[a].1) by {
            if a < s.len() {
                assert(r[a].1 == s[a].1);
            } else {
                assert(r[a].1 == seq![e]);
            }
        }
        assert forall|a: int, b: int| 0 <= a < b < r.len() implies r[a].0 != r[b].0 by {
            if b == s.len() {
                assert(r[a].0 == s[a].0);
                if r[a].0 == k {
                    assert(has_key(s, k));
                }
            }
        }
    }
}

/// The mapping from group key to observed extension set.
pub struct GroupIndex {
    entries: Vec<(String, ExtSet)>,
}

impl View for GroupIndex {
    type V = Seq<GroupEntry>;

    closed spec fn view(&self) -> Seq<GroupEntry> {
        self.entries@.map_values(|e: (String, ExtSet)| (e.0@, e.1@))
    }
}

impl GroupIndex {
    /// Unique keys, duplicate-free extension collections.
    pub open spec fn wf(&self) -> bool {
        index_wf(self@)
    }

    /// An empty index.
    pub fn new() -> (r: GroupIndex)
        ensures
            r@ == Seq::<GroupEntry>::empty(),
            r.wf(),
    {
        let r = GroupIndex { entries: Vec::new() };
        proof {
            assert(r@ =~= Seq::<GroupEntry>::empty());
        }
        r
    }

    /// How many groups the index holds.
    pub fn len(&self) -> (n: usize)
        ensures
            n == self@.len(),
    {
        self.entries.len()
    }

    /// The key of the entry at position `i`.
    pub fn key_at(&self, i: usize) -> (r: &String)
        requires
            i < self@.len(),
        ensures
            r@ == self@[i as int].0,
    {
        &self.entries[i].0
    }

    /// The extensions of the entry at position `i`.
    pub fn exts_at(&self, i: usize) -> (r: &ExtSet)
        requires
            i < self@.len(),
        ensures
            r@ == self@[i as int].1,
    {
        &self.entries[i].1
    }

    /// The extensions recorded under `key`, if any entry has it.
    pub fn get(&self, key: &String) -> (r: Option<&ExtSet>)
        requires
            self.wf(),
        ensures
            (match r {
                Some(es) => has_key(self@, key@) && es@ == self@[key_index(self@, key@)].1,
                None => !has_key(self@, key@),
            }),
    {
        let mut i: usize = 0;
        while i < self.entries.len()
            invariant
                i <= self@.len(),
                self@.len() == self.entries@.len(),
                self.wf(),
                forall|j: int| 0 <= j < i ==> self@[j].0 != key@,
                forall|j: int|
                    0 <= j < self@.len() ==> #[trigger] self@[j] == (self.entries@[j].0@,
                    self.entries@[j].1@),
            decreases self@.len() - i,
        {
            if self.entries[i].0.eq(key) {
                proof {
                    lemma_key_index_at(self@, key@, i as int);
                }
                return Some(&self.entries[i].1);
            }
            i = i + 1;
        }
        proof {
            if has_key(self@, key@) {
                let j = key_index(self@, key@);
                assert(0 <= j < self@.len() && self@[j].0 == key@);
            }
        }
        None
    }
}

/// Records `ext` under the group key `path`: the key's extension set
/// gains `ext` (repeats collapse), and a key never seen before starts a
/// fresh entry holding exactly `ext`.
pub fn insert_file_table(file_table: &mut GroupIndex, path: String, ext: &String)
    requires
        old(file_table).wf(),
    ensures
        final(file_table).wf(),
        final(file_table)@ == spec_insert(old(file_table)@, path@, ext@),
{
    let ghost s = old(file_table)@;
    proof {
        lemma_spec_insert_wf(s, path@, ext@);
    }
    let mut i: usize = 0;
    while i < file_table.entries.len()
        invariant
            i <= s.len(),
            s.len() == file_table.entries@.len(),
            old(file_table)@ == s,
            file_table@ == s,
            file_table.wf(),
            forall|j: int| 0 <= j < i ==> s[j].0 != path@,
            forall|j: int|
                0 <= j < s.len() ==> #[trigger] s[j] == (file_table.entries@[j].0@,
                file_table.entries@[j].1@),
        decreases s.len() - i,
    {
        if file_table.entries[i].0.eq(&path) {
            proof {
                lemma_key_index_at(s, path@, i as int);
            }
            let ghost before = file_table.entries@;
            let mut pair = file_table.entries.remove(i);
            proof {
                assert(pair == before[i as int]);
                assert(pair.1@ == s[i as int].1);
                assert(pair.1.wf());
            }
            pair.1.insert(ext.clone());
            file_table.entries.insert(i, pair);
            proof {
                let after = file_table.entries@;
                before.remove_ensures(i as int);
                before.remove(i as int).insert_ensures(i as int, pair);
                assert(after == before.remove(i as int).insert(i as int, pair));
                assert forall|j: int| 0 <= j < after.len() && j != i implies after[j] == before[j]
                by {
                    if j < i {
                        assert(before.remove(i as int)[j] == before[j]);
                        assert(after[j] == before.remove(i as int)[j]);
                    } else {
                        assert(before.remove(i as int)[j - 1] == before[j]);
                        assert(after[j] == before.remove(i as int)[j - 1]);
                    }
                }
                assert(after[i as int] == pair);
                assert(pair.0@ == path@);
                if s[i as int].1.contains(ext@) {
                    assert(pair.1@ == s[i as int].1);
                    assert(file_table@ =~= s);
                } else {
                    assert(pair.1@ == s[i as int].1.push(ext@));
                    assert(file_table@ =~= s.update(i as int, (path@, s[i as int].1.push(ext@))));
                }
            }
            return;
        }
        i = i + 1;
    }
    proof {
        if has_key(s, path@) {
            let j = key_index(s, path@);
            assert(0 <= j < s.len() && s[j].0 == path@);
        }
    }
    let mut fresh = ExtSet::new();
    fresh.insert(ext.clone());
    file_table.entries.push((path, fresh));
    proof {
        assert(fresh@ =~= seq![ext@]);
        assert(file_table@ =~= s.push((path@, seq![ext@])));
    }
}

/// Derives the extension of `file` and records it under the key built
/// from `parent`, `/`, `stem`.
pub fn construct_key_value(
    file: &String,
    stem: &String,
    parent: &String,
    file_table: &mut GroupIndex,
)
    requires
        old(file_table).wf(),
    ensures
        final(file_table).wf(),
        final(file_table)@ == spec_insert(
            old(file_table)@,
            parent@ + seq!['/'] + stem@,
            ext_of(file@),
        ),
{
    let path_stem = parent.clone().concat("/").concat(stem.as_str());
    proof {
        reveal_strlit("/");
        assert(path_stem@ =~= parent@ + seq!['/'] + stem@);
    }
    let ext = crate::paths::ext_of_path(file);
    insert_file_table(file_table, path_stem, &ext);
}

/// Builds the group index of a file list: every file's extension is
/// recorded under that file's group key, in list order.
pub fn build_file_map(files: &Vec<String>) -> (r: GroupIndex)
    ensures
        r.wf(),
        r@ == spec_build(files.deep_view()),
{
    let mut file_table = GroupIndex::new();
    let ghost fs = files.deep_view();
    proof {
        assert(fs.take(0) =~= Seq::<Seq<char>>::empty());
    }
    let mut idx: usize = 0;
    while idx < files.len()
        invariant
            idx <= fs.len(),
            fs.len() == files@.len(),
            fs == files.deep_view(),
            file_table.wf(),
            file_table@ == spec_build(fs.take(idx as int)),
        decreases fs.len() - idx,
    {
        let file = &files[idx];
        proof {
            assert(file@ == fs[idx as int]);
        }
        let stem = crate::paths::stem_of_path(file);
        let parent = crate::paths::parent_of_path(file);
        construct_key_value(file, &stem, &parent, &mut file_table);
        proof {
            assert(parent@ + seq!['/'] + stem@ =~= key_of(file@));
            assert(fs.take(idx + 1).drop_last() =~= fs.take(idx as int));
            assert(fs.take(idx + 1).last() == fs[idx as int]);
        }
        idx = idx + 1;
    }
    proof {
        assert(fs.take(fs.len() as int) =~= fs);
    }
    file_table
}

} // verus!
