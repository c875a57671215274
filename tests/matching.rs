use findr::matcher::{entry_matches, kind_matches, select_by_hits, EntryKind, Config};
use findr::pattern::Pattern;

fn cfg(patterns: &[&str], kinds: &[EntryKind]) -> Config {
    Config {
        roots: vec![],
        name_patterns: patterns.iter().map(|p| Pattern::new(p).ok().unwrap()).collect(),
        type_filters: kinds.to_vec(),
    }
}

#[test]
fn pattern_matches_anywhere_in_name() {
    let p = Pattern::new("b.t").ok().unwrap();
    assert!(p.is_found_in("abbxtz"));
    assert!(!p.is_found_in("abt"));
    assert_eq!(p.source(), "b.t");
    let anchored = Pattern::new("^a").ok().unwrap();
    assert!(!anchored.is_found_in("ba"));
}

#[test]
fn bad_pattern_is_refused() {
    match Pattern::new("(unclosed") {
        Ok(_) => panic!("compiled"),
        Err(e) => {
            assert_eq!(e.pattern, "(unclosed");
            assert!(!e.message.is_empty());
        }
    }
}

#[test]
fn kind_tags() {
    assert_eq!(EntryKind::from_tag("d"), Some(EntryKind::Directory));
    assert_eq!(EntryKind::from_tag("f"), Some(EntryKind::File));
    assert_eq!(EntryKind::from_tag("l"), Some(EntryKind::Symlink));
    assert_eq!(EntryKind::from_tag("x"), None);
    assert_eq!(EntryKind::from_tag("dd"), None);
    assert_eq!(EntryKind::from_tag(""), None);
}

#[test]
fn empty_filters_match_everything() {
    let c = cfg(&[], &[]);
    assert!(entry_matches(&Some("anything".to_string()), EntryKind::File, &c));
    assert!(entry_matches(&None, EntryKind::Symlink, &c));
}

#[test]
fn name_and_kind_must_both_hold() {
    let c = cfg(&["\\.rs$", "^Cargo"], &[EntryKind::File]);
    assert!(entry_matches(&Some("lib.rs".to_string()), EntryKind::File, &c));
    assert!(entry_matches(&Some("Cargo.toml".to_string()), EntryKind::File, &c));
    assert!(!entry_matches(&Some("lib.rs".to_string()), EntryKind::Directory, &c));
    assert!(!entry_matches(&Some("notes.txt".to_string()), EntryKind::File, &c));
}

#[test]
fn unreadable_name_fails_name_patterns() {
    let c = cfg(&["x"], &[]);
    assert!(!entry_matches(&None, EntryKind::File, &c));
}

#[test]
fn kind_filter_lists() {
    assert!(kind_matches(EntryKind::File, &vec![]));
    assert!(kind_matches(EntryKind::Symlink, &vec![EntryKind::File, EntryKind::Symlink]));
    assert!(!kind_matches(EntryKind::Directory, &vec![EntryKind::File, EntryKind::Symlink]));
}

#[test]
fn selection_from_pattern_outcomes() {
    assert!(select_by_hits(&vec![], EntryKind::File, &vec![]));
    assert!(select_by_hits(&vec![false, true], EntryKind::File, &vec![]));
    assert!(!select_by_hits(&vec![false, false], EntryKind::File, &vec![]));
    assert!(!select_by_hits(&vec![true], EntryKind::File, &vec![EntryKind::Directory]));
}
