use warp_remove::paths::{
    build_full_path, ext_of_path, file_name_of_path, key_of_path, parent_of_path, rfind_char,
    stem_of_path,
};

#[test]
fn parent_stem_and_extension_of_a_plain_path() {
    let p = "d/sub/archive.tar.gz".to_string();
    assert_eq!(parent_of_path(&p), "d/sub".to_string());
    assert_eq!(file_name_of_path(&p), "archive.tar.gz".to_string());
    assert_eq!(stem_of_path(&p), "archive.tar".to_string());
    assert_eq!(ext_of_path(&p), "gz".to_string());
    assert_eq!(key_of_path(&p), "d/sub/archive.tar".to_string());
}

#[test]
fn path_without_slash_has_empty_parent() {
    let p = "notes.txt".to_string();
    assert_eq!(parent_of_path(&p), String::new());
    assert_eq!(stem_of_path(&p), "notes".to_string());
    assert_eq!(ext_of_path(&p), "txt".to_string());
    assert_eq!(key_of_path(&p), "/notes".to_string());
}

#[test]
fn rooted_path_keeps_its_root_parent() {
    let p = "/a.txt".to_string();
    assert_eq!(parent_of_path(&p), "/".to_string());
    assert_eq!(key_of_path(&p), "//a".to_string());
}

#[test]
fn dotfile_counts_as_having_no_extension() {
    let p = "d/.bashrc".to_string();
    assert_eq!(stem_of_path(&p), ".bashrc".to_string());
    assert_eq!(ext_of_path(&p), String::new());
    assert_eq!(key_of_path(&p), "d/.bashrc".to_string());
}

#[test]
fn dotfile_with_suffix_splits_at_the_last_dot() {
    let p = "d/.config.bak".to_string();
    assert_eq!(stem_of_path(&p), ".config".to_string());
    assert_eq!(ext_of_path(&p), "bak".to_string());
}

#[test]
fn no_dot_means_empty_extension() {
    let p = "d/Makefile".to_string();
    assert_eq!(stem_of_path(&p), "Makefile".to_string());
    assert_eq!(ext_of_path(&p), String::new());
}

#[test]
fn full_path_rebuilds_key_and_extension() {
    assert_eq!(
        build_full_path(&"d/b".to_string(), &"raw".to_string()),
        "d/b.raw".to_string()
    );
    assert_eq!(build_full_path(&"d/b".to_string(), &String::new()), "d/b".to_string());
}

#[test]
fn rfind_char_reports_last_occurrence() {
    assert_eq!(rfind_char("a.b.c", '.'), Some(3));
    assert_eq!(rfind_char("abc", '.'), None);
    assert_eq!(rfind_char("", '.'), None);
    assert_eq!(rfind_char("/x", '/'), Some(0));
}
