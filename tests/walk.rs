use findr::matcher::{EntryKind, Config};
use findr::pattern::Pattern;
use findr::walker::{Action, Event, Walker};

/// An entry of a pretend filesystem: its path, and its kind, or the cause
/// that keeps it from being classified.
struct Node {
    path: &'static str,
    kind: Result<EntryKind, &'static str>,
    children: Vec<&'static str>,
}

fn node(path: &'static str, kind: EntryKind, children: Vec<&'static str>) -> Node {
    Node { path, kind: Ok(kind), children }
}

fn basename(path: &str) -> String {
    path.trim_end_matches('/').rsplit('/').next().unwrap().to_string()
}

fn config(roots: &[&str], patterns: &[&str], kinds: &[EntryKind]) -> Config {
    Config {
        roots: roots.iter().map(|r| r.to_string()).collect(),
        name_patterns: patterns
            .iter()
            .map(|p| match Pattern::new(p) {
                Ok(p) => p,
                Err(_) => panic!("pattern refused"),
            })
            .collect(),
        type_filters: kinds.to_vec(),
    }
}

/// Runs a walk against the pretend filesystem; returns reports and diagnostics.
fn walk(fs: &[Node], cfg: Config) -> (Vec<String>, Vec<String>) {
    let mut walker = Walker::new(cfg);
    let mut action = walker.action();
    let mut reports = Vec::new();
    let mut diagnostics = Vec::new();
    loop {
        let event = match &action {
            Action::Done => break,
            Action::Classify(p) => match fs.iter().find(|n| n.path == p) {
                Some(Node { kind: Ok(kind), .. }) => Event::Classified { kind: *kind, name: Some(basename(p)) },
                Some(Node { kind: Err(cause), .. }) => Event::ClassifyFailed { cause: cause.to_string() },
                None => Event::ClassifyFailed { cause: "No such file or directory (os error 2)".to_string() },
            },
            Action::List(p) => {
                let n = fs.iter().find(|n| n.path == p).unwrap();
                Event::Listed { children: n.children.iter().map(|c| c.to_string()).collect(), failure: None }
            }
        };
        let step = walker.advance(event);
        if let Some(r) = step.report {
            reports.push(r);
        }
        if let Some(d) = step.diagnostic {
            diagnostics.push(d);
        }
        action = step.action;
    }
    (reports, diagnostics)
}

fn pkg_tree() -> Vec<Node> {
    vec![
        node("pkg/", EntryKind::Directory, vec!["pkg/a.txt", "pkg/sub"]),
        node("pkg/a.txt", EntryKind::File, vec![]),
        node("pkg/sub", EntryKind::Directory, vec!["pkg/sub/b.txt"]),
        node("pkg/sub/b.txt", EntryKind::File, vec![]),
    ]
}

#[test]
fn txt_files_in_package() {
    let (reports, diagnostics) = walk(&pkg_tree(), config(&["pkg/"], &[".txt"], &[EntryKind::File]));
    assert_eq!(reports, vec!["pkg/a.txt", "pkg/sub/b.txt"]);
    assert!(diagnostics.is_empty());
}

#[test]
fn directories_top_down() {
    let fs = vec![
        node("root", EntryKind::Directory, vec!["root/x"]),
        node("root/x", EntryKind::Directory, vec!["root/x/y"]),
        node("root/x/y", EntryKind::Directory, vec![]),
    ];
    let (reports, _) = walk(&fs, config(&["root"], &[], &[EntryKind::Directory]));
    assert_eq!(reports, vec!["root", "root/x", "root/x/y"]);
}

#[test]
fn missing_root_is_diagnosed_and_skipped() {
    let (reports, diagnostics) = walk(&pkg_tree(), config(&["nowhere", "pkg/"], &["a"], &[]));
    assert_eq!(diagnostics, vec!["nowhere: No such file or directory (os error 2)"]);
    assert_eq!(reports, vec!["pkg/a.txt"]);
    let (reports, diagnostics) = walk(&pkg_tree(), config(&["nowhere"], &[], &[]));
    assert_eq!(diagnostics.len(), 1);
    assert!(diagnostics[0].starts_with("nowhere: "));
    assert!(reports.is_empty());
}

#[test]
fn unfiltered_reports_every_entry_once() {
    let fs = vec![
        node("t", EntryKind::Directory, vec!["t/a", "t/l", "t/d"]),
        node("t/a", EntryKind::File, vec![]),
        node("t/l", EntryKind::Symlink, vec![]),
        node("t/d", EntryKind::Directory, vec!["t/d/b"]),
        node("t/d/b", EntryKind::File, vec![]),
    ];
    let (reports, diagnostics) = walk(&fs, config(&["t"], &[], &[]));
    assert_eq!(reports, vec!["t", "t/a", "t/l", "t/d", "t/d/b"]);
    assert!(diagnostics.is_empty());
}

#[test]
fn walking_twice_gives_the_same_output() {
    let first = walk(&pkg_tree(), config(&["pkg/"], &["b|sub"], &[]));
    let second = walk(&pkg_tree(), config(&["pkg/"], &["b|sub"], &[]));
    assert_eq!(first, second);
    assert_eq!(first.0, vec!["pkg/sub", "pkg/sub/b.txt"]);
}

#[test]
fn roots_are_walked_in_order() {
    let mut fs = pkg_tree();
    fs.push(node("other", EntryKind::File, vec![]));
    let (reports, _) = walk(&fs, config(&["other", "pkg/"], &[], &[EntryKind::File]));
    assert_eq!(reports, vec!["other", "pkg/a.txt", "pkg/sub/b.txt"]);
}

#[test]
fn failing_child_leaves_siblings_reported() {
    let fs = vec![
        node("d", EntryKind::Directory, vec!["d/one.txt", "d/gone", "d/two.txt"]),
        node("d/one.txt", EntryKind::File, vec![]),
        Node { path: "d/gone", kind: Err("Permission denied (os error 13)"), children: vec![] },
        node("d/two.txt", EntryKind::File, vec![]),
    ];
    let (reports, diagnostics) = walk(&fs, config(&["d"], &["txt"], &[]));
    assert_eq!(reports, vec!["d/one.txt", "d/two.txt"]);
    assert_eq!(diagnostics, vec!["d/gone: Permission denied (os error 13)"]);
}

#[test]
fn symlinks_are_not_descended() {
    let mut walker = Walker::new(config(&["link"], &[], &[EntryKind::Symlink]));
    let step = walker.advance(Event::Classified { kind: EntryKind::Symlink, name: Some("link".to_string()) });
    assert_eq!(step.report, Some("link".to_string()));
    assert!(matches!(step.action, Action::Done));
}

#[test]
fn interrupted_listing_still_visits_children_read() {
    let mut walker = Walker::new(config(&["d"], &[], &[]));
    let step = walker.advance(Event::Classified { kind: EntryKind::Directory, name: Some("d".to_string()) });
    assert_eq!(step.report, Some("d".to_string()));
    assert!(matches!(step.action, Action::List(ref p) if p == "d"));
    let step = walker.advance(Event::Listed {
        children: vec!["d/a".to_string(), "d/b".to_string()],
        failure: Some("Input/output error".to_string()),
    });
    assert_eq!(step.diagnostic, Some("d: Input/output error".to_string()));
    assert!(matches!(step.action, Action::Classify(ref p) if p == "d/a"));
    let step = walker.advance(Event::Classified { kind: EntryKind::File, name: Some("a".to_string()) });
    assert!(matches!(step.action, Action::Classify(ref p) if p == "d/b"));
}

#[test]
fn unexpected_answer_changes_nothing() {
    let mut walker = Walker::new(config(&["r"], &[], &[]));
    let step = walker.advance(Event::Listed { children: vec!["r/x".to_string()], failure: None });
    assert_eq!(step.report, None);
    assert!(matches!(step.action, Action::Classify(ref p) if p == "r"));
}

#[test]
fn empty_configuration_is_done_at_once() {
    let walker = Walker::new(config(&[], &[], &[]));
    assert!(matches!(walker.action(), Action::Done));
}
