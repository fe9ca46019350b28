//! File discovery over a directory snapshot.
//!
//! The filesystem itself is an external collaborator: whatever reads
//! directories hands the engine a `DirTree` value, a listing of regular
//! file paths and subdirectory listings in the order they were
//! encountered. Discovery is then pure: every file of a directory is
//! emitted, and a subdirectory is descended into exactly when the
//! recursive flag is set.

use vstd::prelude::*;

verus! {

broadcast use vstd::std_specs::vec::group_vec_axioms;

/// One directory entry of a snapshot: a regular file's full path, or a
/// subdirectory with its own listing.
pub enum FsEntry {
    File(String),
    Dir(DirTree),
}

/// The listing of one directory, in encounter order.
pub struct DirTree {
    pub entries: Vec<FsEntry>,
}

/// The files discovered under one directory: its regular files in
/// order, descending into subdirectories only when `recurse` holds.
pub open spec fn files_under(d: DirTree, recurse: bool) -> Seq<Seq<char>>
    decreases d,
{
    files_in_entries(d.entries@, recurse)
}

/// The files discovered over a listing prefix, entry by entry.
pub open spec fn files_in_entries(es: Seq<FsEntry>, recurse: bool) -> Seq<Seq<char>>
    decreases es,
{
    if es.len() == 0 {
        Seq::empty()
    } else {
        files_in_entries(es.drop_last(), recurse) + (match es.last() {
            FsEntry::File(p) => seq![p@],
            FsEntry::Dir(d) => if recurse {
                files_under(d, recurse)
            } else {
                Seq::empty()
            },
        })
    }
}

/// The files discovered over several root directories, in root order.
pub open spec fn files_under_roots(roots: Seq<DirTree>, recurse: bool) -> Seq<Seq<char>>
    decreases roots,
{
    if roots.len() == 0 {
        Seq::empty()
    } else {
        files_under_roots(roots.drop_last(), recurse) + files_under(roots.last(), recurse)
    }
}

/// Collects the files of one directory snapshot: regular files are
/// emitted directly, subdirectories are walked only when `recurse` is
/// set.
pub fn retrieve_files(p: &DirTree, recurse: bool) -> (file_list: Vec<String>)
    ensures
        file_list.deep_view() == files_under(*p, recurse),
    decreases *p,
{
    let mut file_list: Vec<String> = Vec::new();
    proof {
        assert(p.entries@.take(0) =~= Seq::<FsEntry>::empty());
        assert(file_list.deep_view() =~= Seq::<Seq<char>>::empty());
    }
    let n = p.entries.len();
    let mut i: usize = 0;
    while i < n
        invariant
            i <= n,
            n == p.entries@.len(),
            file_list.deep_view() == files_in_entries(p.entries@.take(i as int), recurse),
        decreases n - i,
    {
        let ghost before = file_list.deep_view();
        match &p.entries[i] {
            FsEntry::File(path) => {
                file_list.push(path.clone());
                proof {
                    assert(file_list.deep_view() =~= before + seq![path@]);
                }
            },
            FsEntry::Dir(d) => {
                if recurse {
                    let mut temp_list = retrieve_files(d, recurse);
                    let ghost sub = temp_list.deep_view();
                    file_list.append(&mut temp_list);
                    proof {
                        assert(file_list.deep_view() =~= before + sub);
                    }
                } else {
                    proof {
                        assert(file_list.deep_view() =~= before + Seq::<Seq<char>>::empty());
                    }
                }
            },
        }
        proof {
            assert(p.entries@.take(i + 1).drop_last() =~= p.entries@.take(i as int));
            assert(p.entries@.take(i + 1).last() == p.entries@[i as int]);
        }
        i = i + 1;
    }
    proof {
        assert(p.entries@.take(p.entries@.len() as int) =~= p.entries@);
    }
    file_list
}

/// Collects the files of every root snapshot, in root order.
pub fn get_files(v: &Vec<DirTree>, recurse: bool) -> (file_list: Vec<String>)
    ensures
        file_list.deep_view() == files_under_roots(v@, recurse),
{
    let mut file_list: Vec<String> = Vec::new();
    proof {
        assert(v@.take(0) =~= Seq::<DirTree>::empty());
        assert(file_list.deep_view() =~= Seq::<Seq<char>>::empty());
    }
    let mut i: usize = 0;
    while i < v.len()
        invariant
            i <= v@.len(),
            file_list.deep_view() == files_under_roots(v@.take(i as int), recurse),
        decreases v@.len() - i,
    {
        let ghost before = file_list.deep_view();
        let mut temp_list = retrieve_files(&v[i], recurse);
        let ghost sub = temp_list.deep_view();
        file_list.append(&mut temp_list);
        proof {
            assert(file_list.deep_view() =~= before + sub);
            assert(v@.take(i + 1).drop_last() =~= v@.take(i as int));
            assert(v@.take(i + 1).last() == v@[i as int]);
        }
        i = i + 1;
    }
    proof {
        assert(v@.take(v@.len() as int) =~= v@);
    }
    file_list
}

} // verus!
