use find_git_dirs::event::ScanEvent;
use find_git_dirs::roots::{normalize_roots, root_candidates};
use find_git_dirs::scan::{
    canonical_or, error_events, is_git_dir, is_git_dir_name, visit_events, ProgressThrottle,
    PROGRESS_THROTTLE_MS,
};

fn s(x: &str) -> String {
    x.to_string()
}

#[test]
fn git_names_match_in_any_ascii_case() {
    assert!(is_git_dir_name(".git"));
    assert!(is_git_dir_name(".Git"));
    assert!(is_git_dir_name(".GIT"));
    assert!(!is_git_dir_name("git"));
    assert!(!is_git_dir_name(".gitx"));
    assert!(!is_git_dir_name(".github"));
    assert!(!is_git_dir_name(""));
}

#[test]
fn only_directories_match() {
    assert!(is_git_dir(true, Some(".git")));
    assert!(is_git_dir(true, Some(".Git")));
    assert!(!is_git_dir(false, Some(".git")));
    assert!(!is_git_dir(true, None));
    assert!(!is_git_dir(true, Some("subdir")));
}

#[test]
fn canonical_path_preferred() {
    assert_eq!(canonical_or(s("a/.git"), Some(s("/abs/a/.git"))), "/abs/a/.git");
    assert_eq!(canonical_or(s("a/.git"), None), "a/.git");
}

#[test]
fn events_for_a_visited_entry() {
    assert_eq!(visit_events(2, s("/x"), false, None), vec![ScanEvent::EntryVisited { root_idx: 2 }]);
    assert_eq!(
        visit_events(1, s("/x/.git"), true, Some(s("/real/.git"))),
        vec![
            ScanEvent::EntryVisited { root_idx: 1 },
            ScanEvent::ProgressHint { root_idx: 1, path: s("/x/.git") },
            ScanEvent::MatchFound { root_idx: 1, path: s("/real/.git") },
        ]
    );
    assert_eq!(error_events(3), vec![ScanEvent::EntryVisited { root_idx: 3 }]);
}

#[test]
fn throttle_spaces_hints() {
    let mut t = ProgressThrottle::new(1000, PROGRESS_THROTTLE_MS);
    assert!(!t.should_report(1000));
    assert!(!t.should_report(1119));
    assert!(t.should_report(1120));
    assert_eq!(t.last_ms, 1120);
    assert!(!t.should_report(1200));
    assert!(!t.should_report(900));
    assert!(t.should_report(1240));
    assert_eq!(t.interval_ms, 120);
}

#[test]
fn candidates_default_to_platform_roots() {
    assert_eq!(root_candidates(vec![], vec![], vec![s("/")]), vec![s("/")]);
    assert_eq!(
        root_candidates(vec![s("/b")], vec![s("/a")], vec![s("/")]),
        vec![s("/b"), s("/a")]
    );
    assert_eq!(root_candidates(vec![], vec![s("/a")], vec![s("/")]), vec![s("/a")]);
}

#[test]
fn roots_sorted_deduplicated_and_directories_only() {
    let c = vec![s("/z"), s("/a"), s("/file"), s("/a"), s("/m"), s("/a/b")];
    let d = vec![true, true, false, true, true, true];
    assert_eq!(normalize_roots(&c, &d), vec![s("/a"), s("/a/b"), s("/m"), s("/z")]);
    assert_eq!(normalize_roots(&vec![], &vec![]), Vec::<String>::new());
    assert_eq!(normalize_roots(&vec![s("/f")], &vec![false]), Vec::<String>::new());
}
