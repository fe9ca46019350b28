use warp_remove::extset::ExtSet;
use warp_remove::index::build_file_map;
use warp_remove::pipeline::{plan_removals, remove_files_and, remove_files_or, resolve_deletions};
use warp_remove::policy::{check_removal_and, check_removal_or, existing_exts};
use warp_remove::traverse::{DirTree, FsEntry};

fn ext_set(items: &[&str]) -> ExtSet {
    let mut s = ExtSet::new();
    for i in items {
        s.insert(i.to_string());
    }
    s
}

fn dir(paths: &[&str]) -> DirTree {
    DirTree {
        entries: paths.iter().map(|p| FsEntry::File(p.to_string())).collect(),
    }
}

#[test]
fn or_policy_blocks_on_any_present_source() {
    let sources = ext_set(&["jpg", "raw"]);
    // one present source extension protects the group
    assert!(!check_removal_or(&ext_set(&["jpg", "txt"]), &sources, true));
    // no present source extension: eligible
    assert!(check_removal_or(&ext_set(&["txt", "csv"]), &sources, true));
    // empty group set is trivially disjoint from the sources
    assert!(check_removal_or(&ext_set(&[]), &sources, true));
    // empty source set protects nothing
    assert!(check_removal_or(&ext_set(&["txt"]), &ext_set(&[]), true));
}

#[test]
fn and_policy_requires_every_source() {
    let sources = ext_set(&["raw", "csv"]);
    // all required sources present: protected
    assert!(!check_removal_and(&ext_set(&["raw", "csv", "jpg"]), &sources, true));
    // one required source missing: eligible
    assert!(check_removal_and(&ext_set(&["raw", "jpg"]), &sources, true));
    // empty source set is a subset of anything: never eligible
    assert!(!check_removal_and(&ext_set(&["txt"]), &ext_set(&[]), true));
}

#[test]
fn existing_exts_keeps_only_named_and_observed() {
    let group = ext_set(&["jpg", "csv", "bak"]);
    let targets = ext_set(&["jpg", "gif", "exe"]);
    let sources = ext_set(&["raw", "csv"]);
    let relevant = existing_exts(&group, &targets, &sources, true);
    assert_eq!(relevant.len(), 2);
    assert!(relevant.contains(&"jpg".to_string()));
    assert!(relevant.contains(&"csv".to_string()));
    assert!(!relevant.contains(&"bak".to_string()));
}

#[test]
fn or_scenario_keeps_sourced_group() {
    // a.raw has its jpg source and survives; b.raw has none and is queued
    let roots = vec![dir(&["d/a.raw", "d/a.jpg", "d/b.raw"])];
    let targets = ext_set(&["raw"]);
    let sources = ext_set(&["jpg"]);
    let candidates = plan_removals(&roots, &targets, &sources, false, false, false);
    assert_eq!(candidates, vec!["d/b.raw".to_string()]);
}

#[test]
fn and_scenario_removes_partial_group() {
    // group c lacks raw, so the AND policy queues both of its named files
    let roots = vec![dir(&["d/c.jpg", "d/c.csv"])];
    let targets = ext_set(&["jpg", "gif", "exe"]);
    let sources = ext_set(&["raw", "csv"]);
    let candidates = plan_removals(&roots, &targets, &sources, false, true, false);
    assert_eq!(candidates, vec!["d/c.jpg".to_string(), "d/c.csv".to_string()]);
}

#[test]
fn no_overlap_means_no_candidates() {
    // the group is eligible, but none of its extensions was ever named
    let roots = vec![dir(&["d/x.foo", "d/x.bar"])];
    let targets = ext_set(&["jpg"]);
    let sources = ext_set(&["raw"]);
    let candidates = plan_removals(&roots, &targets, &sources, false, false, false);
    assert!(candidates.is_empty());
    let candidates = plan_removals(&roots, &targets, &sources, false, true, false);
    assert!(candidates.is_empty());
}

#[test]
fn remove_files_or_matches_direct_build() {
    let files = vec!["d/a.raw".to_string(), "d/a.jpg".to_string(), "d/b.raw".to_string()];
    let map = build_file_map(&files);
    let out = remove_files_or(&map, &ext_set(&["raw"]), &ext_set(&["jpg"]), true);
    assert_eq!(out, vec!["d/b.raw".to_string()]);
}

#[test]
fn remove_files_and_matches_direct_build() {
    let files = vec!["d/c.jpg".to_string(), "d/c.csv".to_string()];
    let map = build_file_map(&files);
    let out = remove_files_and(&map, &ext_set(&["jpg", "gif", "exe"]), &ext_set(&["raw", "csv"]), true);
    assert_eq!(out, vec!["d/c.jpg".to_string(), "d/c.csv".to_string()]);
}

#[test]
fn resolve_deletions_rebuilds_full_paths() {
    let group = ext_set(&["raw", ""]);
    let targets = ext_set(&["raw"]);
    let sources = ext_set(&[""]);
    let out = resolve_deletions(&"d/b".to_string(), &group, &targets, &sources, true);
    // the empty extension reconstructs to the bare key
    assert_eq!(out, vec!["d/b.raw".to_string(), "d/b".to_string()]);
}

#[test]
fn empty_extension_participates_like_any_other() {
    // "match files without extension": the bare file acts as the source
    let roots = vec![dir(&["d/a.raw", "d/a", "d/b.raw"])];
    let targets = ext_set(&["raw"]);
    let mut sources = ExtSet::new();
    sources.insert(String::new());
    let candidates = plan_removals(&roots, &targets, &sources, false, false, false);
    assert_eq!(candidates, vec!["d/b.raw".to_string()]);
}

#[test]
fn rerun_yields_identical_candidates() {
    let roots = vec![dir(&["d/a.raw", "d/a.jpg", "d/b.raw", "d/c.txt"])];
    let targets = ext_set(&["raw", "txt"]);
    let sources = ext_set(&["jpg"]);
    let first = plan_removals(&roots, &targets, &sources, false, false, false);
    let second = plan_removals(&roots, &targets, &sources, false, false, false);
    assert_eq!(first, second);
    assert_eq!(first, vec!["d/b.raw".to_string(), "d/c.txt".to_string()]);
}
