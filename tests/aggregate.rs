use find_git_dirs::event::ScanEvent;
use find_git_dirs::scan::{error_events, visit_events};
use find_git_dirs::state::{App, RECENT_CAPACITY};

fn s(x: &str) -> String {
    x.to_string()
}

fn found(root_idx: usize, path: &str) -> ScanEvent {
    ScanEvent::MatchFound { root_idx, path: s(path) }
}

#[test]
fn new_app_has_idle_roots() {
    let app = App::new(vec![s("/a"), s("/b")]);
    assert_eq!(app.roots().len(), 2);
    assert_eq!(app.roots()[0].path, "/a");
    assert_eq!(app.roots()[1].path, "/b");
    assert_eq!(app.roots()[0].scanned, 0);
    assert!(!app.roots()[0].done);
    assert!(app.roots()[0].current.is_none());
    assert!(app.all_matches().is_empty());
    assert_eq!(app.total_found(), 0);
    assert_eq!(app.total_scanned(), 0);
    assert!(!app.all_done());
}

#[test]
fn entry_visited_counts() {
    let mut app = App::new(vec![s("/a"), s("/b")]);
    assert_eq!(app.apply(ScanEvent::EntryVisited { root_idx: 1 }), None);
    app.apply(ScanEvent::EntryVisited { root_idx: 1 });
    app.apply(ScanEvent::EntryVisited { root_idx: 0 });
    assert_eq!(app.roots()[0].scanned, 1);
    assert_eq!(app.roots()[1].scanned, 2);
    assert_eq!(app.total_scanned(), 3);
}

#[test]
fn scanned_count_saturates() {
    let mut app = App::new(vec![s("/a")]);
    for _ in 0..3 {
        app.apply(ScanEvent::EntryVisited { root_idx: 0 });
    }
    assert_eq!(app.total_scanned(), 3);
}

#[test]
fn progress_hint_sets_current_and_finish_clears_it() {
    let mut app = App::new(vec![s("/a")]);
    app.apply(ScanEvent::ProgressHint { root_idx: 0, path: s("/a/x") });
    assert_eq!(app.roots()[0].current.as_deref(), Some("/a/x"));
    app.apply(ScanEvent::RootFinished { root_idx: 0 });
    assert!(app.roots()[0].done);
    assert!(app.roots()[0].current.is_none());
    assert!(app.all_done());
}

#[test]
fn match_found_is_recorded_once() {
    let mut app = App::new(vec![s("/a")]);
    assert_eq!(app.apply(found(0, "/a/.git")), Some(s("/a/.git")));
    assert_eq!(app.apply(found(0, "/a/x/.git")), Some(s("/a/x/.git")));
    assert_eq!(app.all_matches(), &vec![s("/a/.git"), s("/a/x/.git")]);
    assert_eq!(app.all_matches().len(), 2);
    assert!(app.is_seen(&s("/a/.git")));
    assert!(!app.is_seen(&s("/a/y/.git")));
}

#[test]
fn repeated_match_changes_nothing() {
    let mut app = App::new(vec![s("/a"), s("/b")]);
    app.apply(found(0, "/a/.git"));
    let before_matches = app.all_matches().clone();
    let before_recent = app.recent().clone();
    assert_eq!(app.apply(found(0, "/a/.git")), None);
    assert_eq!(app.apply(found(1, "/a/.git")), None);
    assert_eq!(app.all_matches(), &before_matches);
    assert_eq!(app.recent(), &before_recent);
    assert_eq!(app.roots()[0].found, 1);
    assert_eq!(app.roots()[1].found, 0);
    assert_eq!(app.total_found(), 1);
}

#[test]
fn counts_add_up_to_matches() {
    let mut app = App::new(vec![s("/a"), s("/b"), s("/c")]);
    let events = vec![
        found(0, "/a/.git"),
        found(1, "/b/.git"),
        found(1, "/a/.git"),
        found(2, "/c/1/.git"),
        found(2, "/c/2/.git"),
        found(0, "/c/2/.git"),
    ];
    for e in events {
        app.apply(e);
    }
    let sum: u64 = app.roots().iter().map(|r| r.found).sum();
    assert_eq!(sum, app.all_matches().len() as u64);
    assert_eq!(app.total_found(), 4);
    for r in app.roots() {
        assert!(r.found as usize <= app.all_matches().len());
    }
    let mut sorted = app.all_matches().clone();
    sorted.sort();
    sorted.dedup();
    assert_eq!(sorted.len(), app.all_matches().len());
}

#[test]
fn recent_keeps_latest_twelve() {
    let mut app = App::new(vec![s("/r")]);
    for i in 0..15 {
        app.apply(found(0, &format!("/r/{}/.git", i)));
    }
    assert_eq!(app.recent().len(), RECENT_CAPACITY);
    assert_eq!(app.recent().len(), 12);
    assert_eq!(app.recent()[0], "/r/3/.git");
    assert_eq!(app.recent()[11], "/r/14/.git");
    assert_eq!(app.all_matches().len(), 15);
    assert_eq!(app.roots()[0].found, 15);
}

#[test]
fn overlapping_roots_count_a_match_once() {
    // `/b` links into `/a`: both scanners report the same canonical path.
    let mut app = App::new(vec![s("/a"), s("/b")]);
    app.apply(found(1, "/a/repo/.git"));
    app.apply(found(0, "/a/repo/.git"));
    assert_eq!(app.all_matches(), &vec![s("/a/repo/.git")]);
    assert_eq!(app.roots()[1].found, 1);
    assert_eq!(app.roots()[0].found, 0);

    let mut other = App::new(vec![s("/a"), s("/b")]);
    other.apply(found(0, "/a/repo/.git"));
    other.apply(found(1, "/a/repo/.git"));
    assert_eq!(other.all_matches().len(), 1);
    assert_eq!(other.roots()[0].found, 1);
    assert_eq!(other.roots()[1].found, 0);
}

#[test]
fn case_variants_are_separate_on_a_case_sensitive_filesystem() {
    let mut app = App::new(vec![s("/r")]);
    for p in ["/r/X/.git", "/r/X/.Git", "/r/X/subdir/.git"] {
        app.apply(found(0, p));
    }
    assert_eq!(app.all_matches().len(), 3);
}

#[test]
fn case_variants_collapse_when_they_resolve_alike() {
    // On a case-insensitive filesystem both names canonicalize to one path.
    let mut app = App::new(vec![s("/r")]);
    for p in ["/r/X/.git", "/r/X/.git", "/r/X/subdir/.git"] {
        app.apply(found(0, p));
    }
    assert_eq!(app.all_matches(), &vec![s("/r/X/.git"), s("/r/X/subdir/.git")]);
}

#[test]
fn root_without_matches_finishes_empty() {
    let mut app = App::new(vec![s("/empty")]);
    for e in visit_events(0, s("/empty/a"), false, None) {
        app.apply(e);
    }
    app.apply(ScanEvent::RootFinished { root_idx: 0 });
    assert!(app.all_matches().is_empty());
    assert!(app.all_done());
    assert_eq!(find_git_dirs::output::render_json(app.all_matches()), "[]\n");
}

#[test]
fn unreadable_entry_is_counted_and_root_finishes() {
    let mut app = App::new(vec![s("/r")]);
    for e in visit_events(0, s("/r/a"), true, None) {
        app.apply(e);
    }
    for e in error_events(0) {
        app.apply(e);
    }
    for e in visit_events(0, s("/r/b"), false, None) {
        app.apply(e);
    }
    app.apply(ScanEvent::RootFinished { root_idx: 0 });
    assert_eq!(app.roots()[0].scanned, 3);
    assert!(app.roots()[0].done);
    assert!(app.all_done());
}
