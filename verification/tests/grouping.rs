use warp_remove::extset::ExtSet;
use warp_remove::index::{build_file_map, insert_file_table, construct_key_value, GroupIndex};
use warp_remove::traverse::{get_files, retrieve_files, DirTree, FsEntry};

fn file(p: &str) -> FsEntry {
    FsEntry::File(p.to_string())
}

fn snapshot() -> DirTree {
    DirTree {
        entries: vec![
            file("/tmp/warp_tests/file1.txt"),
            file("/tmp/warp_tests/file1.csv"),
            file("/tmp/warp_tests/file1.html"),
            file("/tmp/warp_tests/file1.tex"),
            file("/tmp/warp_tests/file2.txt"),
            file("/tmp/warp_tests/file3.csv"),
            file("/tmp/warp_tests/file3.tex"),
            FsEntry::Dir(DirTree {
                entries: vec![
                    file("/tmp/warp_tests/p1/file.tex"),
                    file("/tmp/warp_tests/p1/file.html"),
                ],
            }),
            FsEntry::Dir(DirTree { entries: vec![file("/tmp/warp_tests/p2/file.tex")] }),
        ],
    }
}

fn exts_of<'a>(map: &'a GroupIndex, key: &str) -> &'a ExtSet {
    map.get(&key.to_string()).expect("group key missing")
}

fn assert_exts(map: &GroupIndex, key: &str, expected: &[&str]) {
    let exts = exts_of(map, key);
    assert_eq!(exts.len(), expected.len());
    for e in expected {
        assert!(exts.contains(&e.to_string()));
    }
}

#[test]
fn map_generation() {
    let roots = vec![snapshot()];

    // recursive false: only the top-level files are discovered
    let files = get_files(&roots, false);
    let test_map = build_file_map(&files);
    assert_eq!(test_map.len(), 3);
    assert_exts(&test_map, "/tmp/warp_tests/file1", &["txt", "csv", "html", "tex"]);
    assert_exts(&test_map, "/tmp/warp_tests/file2", &["txt"]);
    assert_exts(&test_map, "/tmp/warp_tests/file3", &["csv", "tex"]);

    // recursive true: the subdirectory groups appear as well
    let files = get_files(&roots, true);
    let test_map = build_file_map(&files);
    assert_eq!(test_map.len(), 5);
    assert_exts(&test_map, "/tmp/warp_tests/file1", &["txt", "csv", "html", "tex"]);
    assert_exts(&test_map, "/tmp/warp_tests/file2", &["txt"]);
    assert_exts(&test_map, "/tmp/warp_tests/file3", &["csv", "tex"]);
    assert_exts(&test_map, "/tmp/warp_tests/p1/file", &["tex", "html"]);
    assert_exts(&test_map, "/tmp/warp_tests/p2/file", &["tex"]);
}

#[test]
fn retrieve_respects_recursion() {
    let roots = vec![snapshot()];
    let flat = retrieve_files(&roots[0], false);
    assert_eq!(flat.len(), 7);
    assert!(!flat.contains(&"/tmp/warp_tests/p1/file.tex".to_string()));

    let deep = retrieve_files(&roots[0], true);
    assert_eq!(deep.len(), 10);
    assert!(deep.contains(&"/tmp/warp_tests/p1/file.tex".to_string()));
    assert!(deep.contains(&"/tmp/warp_tests/p2/file.tex".to_string()));
}

#[test]
fn duplicate_paths_collapse() {
    let files = vec!["d/a.txt".to_string(), "d/a.txt".to_string(), "d/a.csv".to_string()];
    let map = build_file_map(&files);
    assert_eq!(map.len(), 1);
    assert_exts(&map, "d/a", &["txt", "csv"]);
}

#[test]
fn files_without_extension_group_under_empty() {
    let files = vec!["d/name".to_string(), "d/name.txt".to_string(), "d/.hidden".to_string()];
    let map = build_file_map(&files);
    assert_eq!(map.len(), 2);
    assert_exts(&map, "d/name", &["", "txt"]);
    assert_exts(&map, "d/.hidden", &[""]);
}

#[test]
fn insert_file_table_collapses_repeats() {
    let mut table = GroupIndex::new();
    insert_file_table(&mut table, "d/a".to_string(), &"txt".to_string());
    insert_file_table(&mut table, "d/a".to_string(), &"txt".to_string());
    insert_file_table(&mut table, "d/a".to_string(), &"csv".to_string());
    assert_eq!(table.len(), 1);
    assert_exts(&table, "d/a", &["txt", "csv"]);
}

#[test]
fn construct_key_value_joins_parent_and_stem() {
    let mut table = GroupIndex::new();
    construct_key_value(
        &"d/sub/a.txt".to_string(),
        &"a".to_string(),
        &"d/sub".to_string(),
        &mut table,
    );
    assert_eq!(table.len(), 1);
    assert_exts(&table, "d/sub/a", &["txt"]);
}

#[test]
fn lookup_of_unknown_key_is_none() {
    let map = build_file_map(&vec!["d/a.txt".to_string()]);
    assert!(map.get(&"d/missing".to_string()).is_none());
    assert!(map.get(&"D/A".to_string()).is_none()); // keys are exact, never folded
}

#[test]
fn empty_file_list_builds_empty_index() {
    let map = build_file_map(&Vec::new());
    assert_eq!(map.len(), 0);
}

#[test]
fn top_level_files_get_slash_prefixed_keys() {
    let files = vec!["a.txt".to_string()];
    let map = build_file_map(&files);
    assert_eq!(map.len(), 1);
    assert_exts(&map, "/a", &["txt"]);
}
