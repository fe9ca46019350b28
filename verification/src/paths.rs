//! Path decomposition and reconstruction.
//!
//! A discovered file is a plain path string. Grouping needs three pieces of
//! it: the parent directory (text before the last `/`), the filename stem
//! (filename with its last `.`-suffix removed), and the extension (text
//! after the filename's last `.`, empty when there is none). A filename
//! whose only `.` is its first character — a bare dotfile — counts as
//! having no extension, and a path with no `/` has the empty parent.
//! Reconstruction is the inverse used for deletion candidates:
//! `key` for the empty extension, `key.ext` otherwise.

use vstd::prelude::*;

verus! {

/// Index of the last occurrence of `c` in `s`, or `-1` when absent.
pub open spec fn last_index_of(s: Seq<char>, c: char) -> int
    decreases s.len(),
{
    if s.len() == 0 {
        -1
    } else if s.last() == c {
        s.len() - 1
    } else {
        last_index_of(s.drop_last(), c)
    }
}

/// What `last_index_of` returns: a position of `c` with nothing equal to
/// `c` after it, or `-1` when `c` does not occur at all.
pub proof fn lemma_last_index_of(s: Seq<char>, c: char)
    ensures
        -1 <= last_index_of(s, c) < s.len(),
        last_index_of(s, c) >= 0 ==> s[last_index_of(s, c)] == c,
        forall|j: int| last_index_of(s, c) < j < s.len() ==> s[j] != c,
    decreases s.len(),
{
    if s.len() > 0 && s.last() != c {
        lemma_last_index_of(s.drop_last(), c);
        assert(forall|j: int| 0 <= j < s.len() - 1 ==> s[j] == s.drop_last()[j]);
    }
}

/// A position of `c` with no later occurrence is the last index.
pub proof fn lemma_last_index_of_at(s: Seq<char>, c: char, k: int)
    requires
        0 <= k < s.len(),
        s[k] == c,
        forall|j: int| k < j < s.len() ==> s[j] != c,
    ensures
        last_index_of(s, c) == k,
    decreases s.len(),
{
    if k < s.len() - 1 {
        assert(s.last() != c);
        assert(forall|j: int| 0 <= j < s.len() - 1 ==> s[j] == s.drop_last()[j]);
        lemma_last_index_of_at(s.drop_last(), c, k);
    }
}

/// When `c` occurs nowhere, the last index is `-1`.
pub proof fn lemma_last_index_of_absent(s: Seq<char>, c: char)
    requires
        forall|j: int| 0 <= j < s.len() ==> s[j] != c,
    ensures
        last_index_of(s, c) == -1,
{
    lemma_last_index_of(s, c);
    if last_index_of(s, c) >= 0 {
        assert(s[last_index_of(s, c)] == c);
    }
}

/// The directory part of a path: empty when the path has no `/`, the
/// root `/` when the last `/` is the first character, otherwise the text
/// before the last `/`.
pub open spec fn parent_of(p: Seq<char>) -> Seq<char> {
    let i = last_index_of(p, '/');
    if i < 0 {
        Seq::empty()
    } else if i == 0 {
        p.take(1)
    } else {
        p.take(i)
    }
}

/// The filename part of a path: the text after the last `/`, or the whole
/// path when it has no `/`.
pub open spec fn file_name_of(p: Seq<char>) -> Seq<char> {
    p.skip(last_index_of(p, '/') + 1)
}

/// The stem of a filename: the text before its last `.`, or the whole
/// name when the name has no `.` past its first character.
pub open spec fn stem_of_name(n: Seq<char>) -> Seq<char> {
    let d = last_index_of(n, '.');
    if d <= 0 {
        n
    } else {
        n.take(d)
    }
}

/// The extension of a filename: the text after its last `.`, or empty
/// when the name has no `.` past its first character.
pub open spec fn ext_of_name(n: Seq<char>) -> Seq<char> {
    let d = last_index_of(n, '.');
    if d <= 0 {
        Seq::empty()
    } else {
        n.skip(d + 1)
    }
}

/// The stem of a path's filename.
pub open spec fn stem_of(p: Seq<char>) -> Seq<char> {
    stem_of_name(file_name_of(p))
}

/// The extension of a path's filename.
pub open spec fn ext_of(p: Seq<char>) -> Seq<char> {
    ext_of_name(file_name_of(p))
}

/// The group key a path belongs to: parent, `/`, stem.
pub open spec fn key_of(p: Seq<char>) -> Seq<char> {
    parent_of(p) + seq!['/'] + stem_of(p)
}

/// A reconstructed candidate path: the key alone for the empty extension,
/// otherwise key, `.`, extension.
pub open spec fn full_path_of(key: Seq<char>, ext: Seq<char>) -> Seq<char> {
    if ext.len() == 0 {
        key
    } else {
        key + seq!['.'] + ext
    }
}

/// Index of the last occurrence of `c` in `s`, scanning from the end.
pub fn rfind_char(s: &str, c: char) -> (r: Option<usize>)
    ensures
        (match r {
            Some(i) => last_index_of(s@, c) == i,
            None => last_index_of(s@, c) == -1,
        }),
{
    let n = s.unicode_len();
    let mut i = n;
    while i > 0
        invariant
            i <= n,
            n == s@.len(),
            forall|j: int| i <= j < n ==> s@[j] != c,
        decreases i,
    {
        i = i - 1;
        if s.get_char(i) == c {
            proof {
                lemma_last_index_of_at(s@, c, i as int);
            }
            return Some(i);
        }
    }
    proof {
        lemma_last_index_of_absent(s@, c);
    }
    None
}

/// The directory part of `p`, as `parent_of` describes it.
pub fn parent_of_path(p: &String) -> (r: String)
    ensures
        r@ == parent_of(p@),
{
    match rfind_char(p.as_str(), '/') {
        None => String::new(),
        Some(i) => {
            proof {
                lemma_last_index_of(p@, '/');
            }
            if i == 0 {
                p.as_str().substring_char(0, 1).to_owned()
            } else {
                p.as_str().substring_char(0, i).to_owned()
            }
        },
    }
}

/// The filename part of `p`, as `file_name_of` describes it.
pub fn file_name_of_path(p: &String) -> (r: String)
    ensures
        r@ == file_name_of(p@),
{
    let n = p.as_str().unicode_len();
    match rfind_char(p.as_str(), '/') {
        None => {
            proof {
                assert(file_name_of(p@) =~= p@);
            }
            p.clone()
        },
        Some(i) => {
            proof {
                lemma_last_index_of(p@, '/');
            }
            p.as_str().substring_char(i + 1, n).to_owned()
        },
    }
}

/// The stem of `p`'s filename, as `stem_of` describes it.
pub fn stem_of_path(p: &String) -> (r: String)
    ensures
        r@ == stem_of(p@),
{
    let name = file_name_of_path(p);
    match rfind_char(name.as_str(), '.') {
        None => name,
        Some(d) => {
            proof {
                lemma_last_index_of(name@, '.');
            }
            if d == 0 {
                name
            } else {
                name.as_str().substring_char(0, d).to_owned()
            }
        },
    }
}

/// The extension of `p`'s filename, as `ext_of` describes it.
pub fn ext_of_path(p: &String) -> (r: String)
    ensures
        r@ == ext_of(p@),
{
    let name = file_name_of_path(p);
    let n = name.as_str().unicode_len();
    match rfind_char(name.as_str(), '.') {
        None => String::new(),
        Some(d) => {
            if d == 0 {
                String::new()
            } else {
                proof {
                    lemma_last_index_of(name@, '.');
                }
                name.as_str().substring_char(d + 1, n).to_owned()
            }
        },
    }
}

/// The group key of `p`: parent, `/`, stem.
pub fn key_of_path(p: &String) -> (r: String)
    ensures
        r@ == key_of(p@),
{
    let parent = parent_of_path(p);
    let stem = stem_of_path(p);
    let joined = parent.concat("/").concat(stem.as_str());
    proof {
        reveal_strlit("/");
        assert(joined@ =~= key_of(p@));
    }
    joined
}

/// The candidate path for extension `ext` in group `key`, as
/// `full_path_of` describes it.
pub fn build_full_path(key: &String, ext: &String) -> (r: String)
    ensures
        r@ == full_path_of(key@, ext@),
{
    if ext.as_str().unicode_len() == 0 {
        let r = key.clone();
        proof {
            assert(r@ =~= full_path_of(key@, ext@));
        }
        r
    } else {
        let r = key.clone().concat(".").concat(ext.as_str());
        proof {
            reveal_strlit(".");
            assert(r@ =~= full_path_of(key@, ext@));
        }
        r
    }
}

} // verus!
