use find_git_dirs::state::{App, RootState};
use find_git_dirs::view::{
    current_label, lower_layout, overall_status, progress_marker, recent_window, root_panel_height,
    root_status, table_status, uses_detail_panel, LowerLayout,
};
use find_git_dirs::event::ScanEvent;

fn s(x: &str) -> String {
    x.to_string()
}

#[test]
fn root_panel_heights() {
    assert_eq!(root_panel_height(1, 40), 4);
    assert_eq!(root_panel_height(0, 40), 4);
    assert_eq!(root_panel_height(5, 40), 8);
    assert_eq!(root_panel_height(50, 40), 33);
    assert_eq!(root_panel_height(5, 8), 3);
    assert_eq!(root_panel_height(1, 0), 3);
    assert_eq!(root_panel_height(100_000, u16::MAX), u16::MAX - 7);
}

#[test]
fn detail_panel_only_for_one_root() {
    assert!(uses_detail_panel(1));
    assert!(!uses_detail_panel(0));
    assert!(!uses_detail_panel(3));
}

#[test]
fn lower_area_layouts() {
    assert_eq!(lower_layout(0, 80), LowerLayout::Hidden);
    assert_eq!(lower_layout(10, 0), LowerLayout::Hidden);
    assert_eq!(lower_layout(4, 80), LowerLayout::CurrentOnly);
    assert_eq!(lower_layout(5, 80), LowerLayout::CurrentOnly);
    assert_eq!(lower_layout(6, 80), LowerLayout::Split { current_height: 5 });
    assert_eq!(lower_layout(30, 80), LowerLayout::Split { current_height: 5 });
}

#[test]
fn recent_list_newest_first() {
    let recent: Vec<String> = (0..12).map(|i| format!("/r/{}", i)).collect();
    assert_eq!(recent_window(&recent, 2), None);
    assert_eq!(recent_window(&recent, 3), Some(vec![s("/r/11")]));
    assert_eq!(recent_window(&recent, 5), Some(vec![s("/r/11"), s("/r/10"), s("/r/9")]));
    let all = recent_window(&recent, 40).unwrap();
    assert_eq!(all.len(), 12);
    assert_eq!(all[0], "/r/11");
    assert_eq!(all[11], "/r/0");
    assert_eq!(recent_window(&vec![], 10), Some(vec![]));
}

#[test]
fn status_labels() {
    let mut app = App::new(vec![s("/a")]);
    assert_eq!(overall_status(&app), "scanning");
    app.apply(ScanEvent::RootFinished { root_idx: 0 });
    assert_eq!(overall_status(&app), "done");
    let mut root = RootState::new(s("/a"));
    assert_eq!(root_status(&root), "scanning");
    assert_eq!(table_status(&root), "…");
    assert_eq!(progress_marker(&root), "▶");
    root.done = true;
    assert_eq!(root_status(&root), "done");
    assert_eq!(table_status(&root), "done");
    assert_eq!(progress_marker(&root), "✓");
}

#[test]
fn current_labels() {
    let mut root = RootState::new(s("/a"));
    assert_eq!(current_label(&root, "starting…"), "starting…");
    root.current = Some(s("/a/x"));
    assert_eq!(current_label(&root, "starting…"), "/a/x");
    root.done = true;
    assert_eq!(current_label(&root, "starting…"), "complete");
}
