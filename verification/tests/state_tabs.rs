use simplecommander::state::{PaneState, TabState};

fn pane_with(n: usize) -> PaneState {
    let mut p = PaneState::new("C:\\a".to_string(), 1);
    for i in 1..n {
        p.add_tab(format!("C:\\t{i}"), 1 + i as u64);
    }
    p
}

#[test]
fn title_uses_custom_then_folder() {
    let mut t = TabState::new("C:\\Users\\docs".to_string(), 1);
    assert_eq!(t.folder_name(), "docs");
    assert_eq!(t.title(), "docs");
    t.custom_title = Some("Work".into());
    assert_eq!(t.title(), "Work");
    t.locked = true;
    assert!(t.title().contains("Work"));
}

#[test]
fn insert_tab_beside_keeps_focus() {
    let mut p = pane_with(3);
    p.active_tab = 0;
    let idx = p.insert_tab_beside("C:\\new".to_string(), 10);
    assert_eq!(idx, 1);
    assert_eq!(p.active_tab, 0);
    assert_eq!(p.tabs[1].path, "C:\\new");
    assert_eq!(p.tabs.len(), 4);

    p.active_tab = 3;
    let idx = p.insert_tab_beside("C:\\end".to_string(), 11);
    assert_eq!(idx, 4);
    assert_eq!(p.active_tab, 3);
    assert_eq!(p.tabs[4].path, "C:\\end");
}

#[test]
fn take_refuses_last_tab() {
    let mut p = pane_with(1);
    assert!(p.take_tab(0).is_none());
    assert_eq!(p.tabs.len(), 1);
}

#[test]
fn take_and_insert_moves_tab() {
    let mut a = pane_with(2);
    let mut b = pane_with(1);
    let uid = a.tabs[0].uid;
    let tab = a.take_tab(0).expect("can take when >1 tabs");
    assert_eq!(tab.uid, uid);
    assert_eq!(a.tabs.len(), 1);
    b.insert_tab(0, tab);
    assert_eq!(b.tabs.len(), 2);
    assert_eq!(b.active_tab, 0);
    assert_eq!(b.tabs[0].uid, uid);
}

#[test]
fn reorder_within_pane() {
    let mut p = pane_with(3);
    let uids: Vec<u64> = p.tabs.iter().map(|t| t.uid).collect();
    p.reorder_tab(0, 2);
    assert_eq!(p.tabs[0].uid, uids[1]);
    assert_eq!(p.tabs[1].uid, uids[0]);
    assert_eq!(p.tabs[2].uid, uids[2]);
    assert_eq!(p.active_tab, 1);
}

#[test]
fn back_undoes_navigate_and_forward_undoes_back() {
    let mut t = TabState::new("C:\\one".to_string(), 1);
    t.navigate("C:\\two".to_string());
    assert_eq!(t.path, "C:\\two");
    assert!(t.go_back());
    assert_eq!(t.path, "C:\\one");
    assert!(t.go_forward());
    assert_eq!(t.path, "C:\\two");
    assert!(!t.go_forward());
}

#[test]
fn go_up_stops_at_the_drive_root() {
    let mut t = TabState::new("C:\\a\\b".to_string(), 1);
    assert!(t.go_up());
    assert_eq!(t.path, "C:\\a");
    assert!(t.go_up());
    assert_eq!(t.path, "C:\\");
    assert!(!t.go_up());
    assert_eq!(t.path, "C:\\");
}
