use warp_remove::casefold::eq_mod_case;
use warp_remove::confirm::{confirmation_granted, trim_blanks};
use warp_remove::extset::ExtSet;
use warp_remove::pipeline::plan_removals;
use warp_remove::policy::{check_removal_and, check_removal_or};
use warp_remove::traverse::{DirTree, FsEntry};

fn ext_set(items: &[&str]) -> ExtSet {
    let mut s = ExtSet::new();
    for i in items {
        s.insert(i.to_string());
    }
    s
}

fn dir(paths: &[&str]) -> DirTree {
    DirTree {
        entries: paths.iter().map(|p| FsEntry::File(p.to_string())).collect(),
    }
}

#[test]
fn eq_mod_case_folds_ascii_only_when_asked() {
    assert!(eq_mod_case("TXT", "txt", false));
    assert!(eq_mod_case("Txt", "tXt", false));
    assert!(!eq_mod_case("TXT", "txt", true));
    assert!(eq_mod_case("txt", "txt", true));
    assert!(!eq_mod_case("txt", "text", false));
    assert!(eq_mod_case("", "", false));
}

#[test]
fn casing_variants_collapse_under_comparison() {
    // {txt, TXT, Txt} all match a source given as TXT when folding
    let group = ext_set(&["txt", "TXT", "Txt"]);
    assert_eq!(group.len(), 3);
    assert!(!check_removal_or(&group, &ext_set(&["TXT"]), false));
    assert!(!check_removal_and(&group, &ext_set(&["tXt"]), false));
    // without folding the same comparison fails to match "tXt"
    assert!(check_removal_or(&group, &ext_set(&["tXt"]), true));
}

#[test]
fn reconstruction_preserves_observed_casing() {
    let roots = vec![dir(&["d/a.RAW", "d/b.Raw", "d/b.JPG"])];
    let targets = ext_set(&["raw"]);
    let sources = ext_set(&["jpg"]);
    // folding matches RAW against raw, and JPG protects group b
    let candidates = plan_removals(&roots, &targets, &sources, false, false, false);
    assert_eq!(candidates, vec!["d/a.RAW".to_string()]);
    // case-sensitive mode matches nothing here
    let candidates = plan_removals(&roots, &targets, &sources, false, false, true);
    assert!(candidates.is_empty());
}

#[test]
fn trim_blanks_strips_surrounding_whitespace() {
    assert_eq!(trim_blanks("  y\n"), "y".to_string());
    assert_eq!(trim_blanks("\t n \r\n"), "n".to_string());
    assert_eq!(trim_blanks("y"), "y".to_string());
    assert_eq!(trim_blanks("   "), String::new());
    assert_eq!(trim_blanks(""), String::new());
}

#[test]
fn confirmation_needs_force_or_yes() {
    assert!(confirmation_granted(true, "anything at all"));
    assert!(confirmation_granted(false, "y\n"));
    assert!(confirmation_granted(false, "  y  "));
    assert!(!confirmation_granted(false, "n\n"));
    assert!(!confirmation_granted(false, "yes\n"));
    assert!(!confirmation_granted(false, ""));
}
