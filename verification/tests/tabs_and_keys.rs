use simplecommander::activate::{entry_action, entry_action_with, EntryAction};
use simplecommander::address::{breadcrumb_parts, remember_unc};
use simplecommander::clock::{duration_text, format_unix_time};
use simplecommander::entry::FsEntry;
use simplecommander::listing::{
    accept_batch, accept_view, best_tab_uid_for_path, find_tab, is_favorite, refresh_all_matching, relocate_tab,
    select_created_items, toggle_favorite, try_select_pending, PendingSelect,
};
use simplecommander::navigate::{move_cursor, type_ahead_step};
use simplecommander::paths::strip_verbatim;
use simplecommander::state::{PaneState, TabState};
use std::sync::Arc;

fn file(name: &str, size: u64) -> FsEntry {
    FsEntry { name: name.to_string(), size, modified: 0, created: 0, attributes: 0x20 }
}

fn dir(name: &str) -> FsEntry {
    FsEntry { name: name.to_string(), size: 0, modified: 0, created: 0, attributes: 0x10 }
}

#[test]
fn unix_times_format_as_utc_dates() {
    assert_eq!(format_unix_time(0), "");
    assert_eq!(format_unix_time(-5), "");
    assert_eq!(format_unix_time(1), "1970-01-01 00:00");
    assert_eq!(format_unix_time(86_400 + 3_600 + 120), "1970-01-02 01:02");
    assert_eq!(format_unix_time(951_782_400), "2000-02-29 00:00");
    assert_eq!(format_unix_time(1_700_000_000), "2023-11-14 22:13");
    assert_eq!(format_unix_time(4_102_444_799), "2099-12-31 23:59");
    assert_eq!(format_unix_time(253_402_300_800), "10000-01-01 00:00");
}

#[test]
fn playing_times_format_as_clock_text() {
    assert_eq!(duration_text(0), "0:00");
    assert_eq!(duration_text(65), "1:05");
    assert_eq!(duration_text(3_599), "59:59");
    assert_eq!(duration_text(3_600), "1:00:00");
    assert_eq!(duration_text(37_230), "10:20:30");
}

#[test]
fn breadcrumbs_follow_the_components() {
    let parts = breadcrumb_parts("C:\\Users\\docs");
    let want: Vec<(String, String)> = vec![
        ("C:".into(), "C:".into()),
        ("\\".into(), "C:\\".into()),
        ("Users".into(), "C:\\Users".into()),
        ("docs".into(), "C:\\Users\\docs".into()),
    ];
    assert_eq!(parts, want);
    let rel = breadcrumb_parts("a/b");
    assert_eq!(rel, vec![("a".to_string(), "a".to_string()), ("b".to_string(), "a\\b".to_string())]);
    assert_eq!(breadcrumb_parts(""), vec![(String::new(), String::new())]);
    assert_eq!(breadcrumb_parts("recycle:\\"), vec![("Recycle Bin".to_string(), "recycle:\\".to_string())]);
}

#[test]
fn share_roots_are_remembered_once() {
    let mut roots: Vec<String> = Vec::new();
    remember_unc(&mut roots, "C:\\local");
    assert!(roots.is_empty());
    remember_unc(&mut roots, "\\\\server\\share\\deep\\dir");
    assert_eq!(roots, vec!["\\\\server\\share".to_string()]);
    remember_unc(&mut roots, "\\\\server\\share");
    assert_eq!(roots.len(), 1);
    remember_unc(&mut roots, "\\\\nas");
    assert_eq!(roots[1], "\\\\nas");
    for i in 0..30 {
        remember_unc(&mut roots, &format!("\\\\host{}\\s", i));
    }
    assert_eq!(roots.len(), 24);
    assert_eq!(roots[23], "\\\\host29\\s");
}

#[test]
fn verbatim_marker_is_stripped() {
    assert_eq!(strip_verbatim("\\\\?\\C:\\x.pdf"), "C:\\x.pdf");
    assert_eq!(strip_verbatim("C:\\x.pdf"), "C:\\x.pdf");
    assert_eq!(strip_verbatim("\\\\?"), "\\\\?");
}

#[test]
fn batches_stream_into_the_tab() {
    let mut tab = TabState::new("C:\\d".to_string(), 7);
    tab.loading = true;
    assert!(!accept_batch(&mut tab, 0, vec![file("a", 3), dir("sub")], false, None));
    assert_eq!(tab.snapshot.entries.len(), 2);
    assert_eq!(tab.pending.len(), 2);
    assert_eq!(*tab.view, vec![0, 1]);
    assert!(!tab.snapshot.complete);
    assert!(accept_batch(&mut tab, 0, vec![file("b", 4)], true, None));
    assert_eq!(tab.snapshot.entries.len(), 3);
    assert!(tab.snapshot.complete);
    assert_eq!((tab.snapshot.dir_count, tab.snapshot.file_count, tab.snapshot.file_bytes), (1, 2, 7));
    assert!(tab.pending.is_empty());
    assert!(!tab.loading);
    // A stale generation is dropped.
    assert!(!accept_batch(&mut tab, 5, vec![file("zzz", 1)], true, None));
    assert_eq!(tab.snapshot.entries.len(), 3);
}

#[test]
fn long_listings_wait_until_done() {
    let mut tab = TabState::new("C:\\big".to_string(), 1);
    let many: Vec<FsEntry> = (0..20_001).map(|i| file(&format!("f{}", i), 1)).collect();
    accept_batch(&mut tab, 0, many, false, None);
    assert_eq!(tab.snapshot.entries.len(), 0);
    assert_eq!(tab.pending.len(), 20_001);
    accept_batch(&mut tab, 0, Vec::new(), true, Some("partial".to_string()));
    assert_eq!(tab.snapshot.entries.len(), 20_001);
    assert_eq!(tab.snapshot.error.as_deref(), Some("partial"));
}

#[test]
fn views_restore_kept_selection_and_pending_names_select() {
    let mut tab = TabState::new("C:\\d".to_string(), 3);
    accept_batch(&mut tab, 0, vec![file("b", 1), file("a", 1), file("c", 1)], true, None);
    let keep = vec!["c".to_string(), "a".to_string()];
    assert!(accept_view(&mut tab, 0, vec![1, 0, 2], Some(&keep)));
    let mut sel: Vec<u32> = tab.selection.iter().copied().collect();
    sel.sort();
    assert_eq!(sel, vec![1, 2]);
    assert!(!accept_view(&mut tab, 9, vec![], None));
    assert_eq!(*tab.view, vec![1, 0, 2]);
    let r = try_select_pending(&mut tab, &vec!["c".to_string(), "b".to_string()]);
    assert_eq!(r, PendingSelect::Selected);
    // View order: a(1), b(0), c(2); the first selected row is b at position 1.
    assert_eq!(tab.cursor, Some(1));
    assert_eq!(try_select_pending(&mut tab, &vec!["nope".to_string()]), PendingSelect::GaveUp);
    tab.loading = true;
    assert_eq!(try_select_pending(&mut tab, &vec!["nope".to_string()]), PendingSelect::Waiting);
}

fn two_panes() -> Vec<PaneState> {
    let mut left = PaneState::new("C:\\a".to_string(), 1);
    left.add_tab("D:\\b".to_string(), 2);
    let mut right = PaneState::new("E:\\c".to_string(), 3);
    right.add_tab("C:\\a".to_string(), 4);
    vec![left, right]
}

#[test]
fn tabs_are_found_by_uid_and_by_folder() {
    let panes = two_panes();
    assert_eq!(find_tab(&panes, 0, 4), Some((1, 1)));
    assert_eq!(find_tab(&panes, 5, 2), Some((0, 1)));
    assert_eq!(find_tab(&panes, 0, 99), None);
    // The active pane's shown tab wins, then its other tabs, then other panes.
    assert_eq!(best_tab_uid_for_path(&panes, 1, "C:/a/"), Some(4));
    assert_eq!(best_tab_uid_for_path(&panes, 0, "C:\\a"), Some(1));
    assert_eq!(best_tab_uid_for_path(&panes, 0, "E:\\c"), Some(3));
    assert_eq!(best_tab_uid_for_path(&panes, 0, "F:\\"), None);
    assert_eq!(refresh_all_matching(&panes, &vec!["C:\\a".to_string(), "E:\\c\\".to_string()]), vec![(0, 0), (1, 0), (1, 1)]);
    let created = vec!["E:\\c\\new.txt".to_string(), "E:\\c\\two.txt".to_string()];
    assert_eq!(select_created_items(&panes, 0, &created), Some((3, vec!["new.txt".to_string(), "two.txt".to_string()])));
    assert_eq!(select_created_items(&panes, 0, &vec![]), None);
    assert_eq!(select_created_items(&panes, 0, &vec!["Z:\\q\\x".to_string()]), None);
}

#[test]
fn favorites_toggle() {
    let mut favs = vec!["C:\\a".to_string()];
    assert!(is_favorite(&favs, "C:/a/"));
    toggle_favorite(&mut favs, "D:\\b".to_string());
    assert_eq!(favs.len(), 2);
    toggle_favorite(&mut favs, "C:\\a\\".to_string());
    assert_eq!(favs, vec!["D:\\b".to_string()]);
    assert!(!is_favorite(&favs, "C:\\a"));
}

#[test]
fn tabs_move_between_panes() {
    let mut panes = two_panes();
    assert_eq!(relocate_tab(&mut panes, 0, 0, 1, 0), Some(1));
    assert_eq!(panes[0].tabs.len(), 1);
    assert_eq!(panes[1].tabs.iter().map(|t| t.uid).collect::<Vec<_>>(), vec![1, 3, 4]);
    assert_eq!(panes[1].active_tab, 0);
    // The last tab of a pane stays.
    assert_eq!(relocate_tab(&mut panes, 0, 0, 1, 0), None);
    assert_eq!(relocate_tab(&mut panes, 1, 0, 1, 3), Some(1));
    assert_eq!(panes[1].tabs.iter().map(|t| t.uid).collect::<Vec<_>>(), vec![3, 4, 1]);
    assert_eq!(relocate_tab(&mut panes, 0, 0, 7, 0), None);
}

fn listed(path: &str, entries: Vec<FsEntry>) -> TabState {
    let mut tab = TabState::new(path.to_string(), 1);
    accept_batch(&mut tab, 0, entries, true, None);
    tab
}

#[test]
fn opening_entries_picks_the_action() {
    let es = vec![dir("sub"), file("pack.ZIP", 9), file("doc.txt", 1), file("a/b.txt", 1)];
    match entry_action_with("C:\\w", &es, 0, None) {
        Some(EntryAction::Navigate(p)) => assert_eq!(p, "C:\\w\\sub"),
        _ => panic!("a folder is browsed into"),
    }
    match entry_action_with("C:\\w", &es, 1, None) {
        Some(EntryAction::Navigate(p)) => assert_eq!(p, "C:\\w\\pack.ZIP"),
        _ => panic!("a zip is browsed into"),
    }
    match entry_action_with("C:\\w", &es, 2, None) {
        Some(EntryAction::Open(p)) => assert_eq!(p, "C:\\w\\doc.txt"),
        _ => panic!("a file is opened"),
    }
    match entry_action_with("C:\\w", &es, 3, None) {
        Some(EntryAction::Open(p)) => assert_eq!(p, "C:\\w\\a\\b.txt"),
        _ => panic!("slashes become backslashes"),
    }
    let split = Some(("C:\\w\\pack.zip".to_string(), "inner".to_string()));
    match entry_action_with("C:\\w\\pack.zip\\inner", &es, 2, split) {
        Some(EntryAction::FromZip { zip, inner }) => {
            assert_eq!(zip, "C:\\w\\pack.zip");
            assert_eq!(inner, "inner/doc.txt");
        }
        _ => panic!("a file in a zip is extracted"),
    }
    let top = Some(("C:\\w\\pack.zip".to_string(), String::new()));
    match entry_action_with("C:\\w\\pack.zip", &es, 2, top) {
        Some(EntryAction::FromZip { inner, .. }) => assert_eq!(inner, "doc.txt"),
        _ => panic!("a file at the top of a zip is extracted"),
    }
    match entry_action_with("recycle:\\", &es, 2, None) {
        Some(EntryAction::Restore(n)) => assert_eq!(n, "doc.txt"),
        _ => panic!("the Recycle Bin restores"),
    }
    assert!(entry_action_with("C:\\w", &es, 9, None).is_none());
    // No zip on disk here: the plain path opens the file.
    match entry_action("C:\\no-such-dir-here", &es, 2) {
        Some(EntryAction::Open(p)) => assert_eq!(p, "C:\\no-such-dir-here\\doc.txt"),
        _ => panic!("a file is opened"),
    }
}

#[test]
fn arrow_keys_move_and_shift_selects_ranges() {
    let mut tab = listed("C:\\d", vec![file("a", 1), file("b", 1), file("c", 1), file("d", 1)]);
    tab.view = Arc::new(vec![3, 2, 1, 0]);
    assert!(move_cursor(&mut tab, Some(1), false, false, false));
    assert_eq!(tab.cursor, Some(1));
    assert_eq!(tab.selection.iter().copied().collect::<Vec<_>>(), vec![2]);
    assert!(move_cursor(&mut tab, Some(20), false, false, true));
    assert_eq!(tab.cursor, Some(3));
    let mut sel: Vec<u32> = tab.selection.iter().copied().collect();
    sel.sort();
    assert_eq!(sel, vec![0, 1, 2]);
    assert!(move_cursor(&mut tab, None, true, false, false));
    assert_eq!(tab.cursor, Some(0));
    assert!(move_cursor(&mut tab, Some(-20), false, false, false));
    assert_eq!(tab.cursor, Some(0));
    assert!(move_cursor(&mut tab, None, false, true, false));
    assert_eq!(tab.cursor, Some(3));
    assert!(!move_cursor(&mut tab, None, false, false, false));
    let mut empty = TabState::new("C:\\e".to_string(), 2);
    assert!(!move_cursor(&mut empty, Some(1), false, false, false));
}

#[test]
fn typing_jumps_to_matching_names() {
    let mut tab = listed("C:\\d", vec![file("Alpha", 1), file("beta", 1), file("Bravo", 1), file("carrot", 1)]);
    let mut buf = String::new();
    assert_eq!(type_ahead_step(&mut buf, "  ", false, &mut tab), None);
    assert_eq!(type_ahead_step(&mut buf, "b", true, &mut tab), Some(true));
    assert_eq!(buf, "b");
    assert_eq!(tab.cursor, Some(1));
    // The same letter again cycles to the next match.
    assert_eq!(type_ahead_step(&mut buf, "B", false, &mut tab), Some(true));
    assert_eq!(buf, "b");
    assert_eq!(tab.cursor, Some(2));
    assert_eq!(type_ahead_step(&mut buf, "b", false, &mut tab), Some(true));
    assert_eq!(tab.cursor, Some(1));
    // More letters narrow the search.
    assert_eq!(type_ahead_step(&mut buf, "r", false, &mut tab), Some(true));
    assert_eq!(buf, "br");
    assert_eq!(tab.cursor, Some(2));
    assert_eq!(tab.selection.iter().copied().collect::<Vec<_>>(), vec![2]);
    assert_eq!(type_ahead_step(&mut buf, "x", false, &mut tab), Some(false));
    assert_eq!(tab.cursor, Some(2));
    // After the delay the text starts over.
    assert_eq!(type_ahead_step(&mut buf, "c", true, &mut tab), Some(true));
    assert_eq!(buf, "c");
    assert_eq!(tab.cursor, Some(3));
}

use simplecommander::columns::{visible_columns, ColKind};
use simplecommander::commands::{
    begin_new_item, check_compare, enter_folder_target, new_item_request, select_all, terminal_parts, NewItemOutcome,
};
use simplecommander::config::ColumnPref;
use simplecommander::session::{restore_panes, session_panes};
use simplecommander::state::{PaneLayout, SplitDirection};

#[test]
fn terminal_command_gets_the_folder() {
    assert_eq!(
        terminal_parts("wt.exe -d \"{path}\"", "C:\\My Files"),
        vec!["wt.exe".to_string(), "-d".to_string(), "C:\\My Files".to_string()]
    );
    assert_eq!(terminal_parts("cmd", "C:\\x"), vec!["cmd".to_string()]);
    assert!(terminal_parts("   ", "C:\\x").is_empty());
}

#[test]
fn enter_opens_folders_and_zips_only() {
    let mut tab = listed("C:\\d", vec![dir("sub"), file("a.ZIP", 1), file("zip", 1), file("b.txt", 1)]);
    assert_eq!(enter_folder_target(&tab), None);
    for (pos, want) in [(0, Some(0)), (1, Some(1)), (2, Some(2)), (3, None), (9, None)] {
        tab.cursor = Some(pos);
        assert_eq!(enter_folder_target(&tab), want);
    }
    select_all(&mut tab);
    let mut sel: Vec<u32> = tab.selection.iter().copied().collect();
    sel.sort();
    assert_eq!(sel, vec![0, 1, 2, 3]);
}

#[test]
fn comparing_needs_two_ordinary_panes() {
    let dual = PaneLayout::Dual(SplitDirection::Vertical);
    assert_eq!(check_compare(PaneLayout::Single, "C:\\a", "C:\\b").as_deref(), Some("Compare folders needs a dual-pane layout"));
    assert_eq!(check_compare(dual, "recycle:\\", "C:\\b").as_deref(), Some("Cannot compare the Recycle Bin"));
    assert_eq!(check_compare(dual, "C:\\a", "C:\\b"), None);
}

#[test]
fn new_items_get_free_names() {
    assert_eq!(begin_new_item("recycle:\\", true), Err("Can't create items in the Recycle Bin".to_string()));
    let d = "Q:\\no-such-place";
    // The seed name is always numbered, from (2) on.
    assert_eq!(begin_new_item(d, true), Ok("New folder (2)".to_string()));
    assert_eq!(begin_new_item(d, false), Ok("New file (2).txt".to_string()));
    match new_item_request(d, "  bad|name ") {
        NewItemOutcome::Problem(m) => assert_eq!(m, "Name contains invalid characters: <>:\"/\\|?*"),
        _ => panic!("a bad name is refused"),
    }
    match new_item_request(d, "") {
        NewItemOutcome::Problem(m) => assert_eq!(m, "Enter a name"),
        _ => panic!("an empty name is refused"),
    }
    // `/` joined with `tmp` names a folder that exists here.
    assert!(matches!(new_item_request("/", "tmp"), NewItemOutcome::Exists));
    match new_item_request(d, " notes.txt ") {
        NewItemOutcome::Create { dest, name } => {
            assert_eq!(name, "notes.txt");
            assert_eq!(dest, "Q:\\no-such-place\\notes.txt");
        }
        _ => panic!("a free name is created"),
    }
}

fn pref(id: &str, visible: bool) -> ColumnPref {
    ColumnPref { id: id.to_string(), visible }
}

fn kind_names(cols: &[ColKind]) -> Vec<String> {
    cols.iter()
        .map(|c| match c {
            ColKind::Index => "index".to_string(),
            ColKind::Name => "name".to_string(),
            ColKind::Size => "size".to_string(),
            ColKind::Type => "type".to_string(),
            ColKind::Modified => "modified".to_string(),
            ColKind::Created => "created".to_string(),
            ColKind::Checksum => "sha256".to_string(),
            ColKind::Plugin(i, t) => format!("plugin{}:{}", i, t),
        })
        .collect()
}

#[test]
fn columns_follow_the_settings() {
    let prefs = vec![pref("size", true), pref("name", false), pref("index", true), pref("type", false), pref("plugin:Dims", true)];
    let plugins = vec![(0usize, "Dims".to_string()), (1usize, "Hash".to_string()), (2usize, "Hidden".to_string())];
    let mut with_hidden = prefs.clone();
    with_hidden.push(pref("plugin:Hidden", false));
    assert_eq!(
        kind_names(&visible_columns(&with_hidden, &plugins)),
        vec!["index", "size", "name", "plugin0:Dims", "plugin1:Hash"]
    );
    // Without a name setting the name column comes first.
    let cols = visible_columns(&vec![pref("modified", true), pref("sha256", true)], &vec![]);
    assert_eq!(kind_names(&cols), vec!["name", "modified", "sha256"]);
    // A plugin setting nobody offers shows nothing.
    let cols = visible_columns(&vec![pref("name", true), pref("plugin:Gone", true), pref("bogus", true)], &vec![]);
    assert_eq!(kind_names(&cols), vec!["name"]);
}

#[test]
fn sessions_round_trip() {
    let mut left = PaneState::new("C:\\a".to_string(), 1);
    left.add_tab("D:\\b".to_string(), 2);
    left.tabs[1].locked = true;
    left.tabs[1].custom_title = Some("Work".to_string());
    left.tabs[0].color = Some("e84a4a".to_string());
    left.active_tab = 1;
    let right = PaneState::new("E:\\c".to_string(), 3);
    let saved = session_panes(&vec![left, right]);
    assert_eq!(saved.len(), 2);
    assert_eq!(saved[0].active_tab, 1);
    assert_eq!(saved[0].tabs[1].custom_title.as_deref(), Some("Work"));
    let (back, next) = restore_panes(&saved, true, "C:\\Users\\me", 100);
    assert_eq!(back.len(), 2);
    assert_eq!(back[0].tabs.len(), 2);
    assert_eq!(back[0].active_tab, 1);
    assert!(back[0].tabs[1].locked);
    assert_eq!(back[0].tabs[0].color.as_deref(), Some("e84a4a"));
    assert_eq!(back[1].tabs[0].path, "E:\\c");
    assert_eq!(next, 103);
    let mut uids: Vec<u64> = back.iter().flat_map(|p| p.tabs.iter().map(|t| t.uid)).collect();
    uids.sort();
    uids.dedup();
    assert_eq!(uids.len(), 3);
    // An empty session gives two panes at home; an empty pane one home tab.
    let (fresh, _) = restore_panes(&vec![], true, "C:\\Users\\me", 1);
    assert_eq!(fresh.len(), 2);
    assert_eq!(fresh[1].tabs[0].path, "C:\\Users\\me");
    let mut odd = session_panes(&vec![PaneState::new("C:\\x".to_string(), 9)]);
    odd[0].tabs.clear();
    odd[0].active_tab = 5;
    let (b2, _) = restore_panes(&odd, true, "H:\\", 1);
    assert_eq!(b2[0].tabs.len(), 1);
    assert_eq!(b2[0].tabs[0].path, "H:\\");
    assert_eq!(b2[0].active_tab, 0);
}

use simplecommander::actions::{
    begin_listing, clipboard_text, commit_rename, copied_files_message, copied_paths_message, delete_plan,
    drop_plan, drop_plan_with, paste_plan, restore_recycle_names, DeletePlan, DropPlan,
};
use simplecommander::ops::Operation;
use simplecommander::shell::RecycleItem;

fn strings(v: &[&str]) -> Vec<String> {
    v.iter().map(|s| s.to_string()).collect()
}

#[test]
fn drops_keep_only_sources_that_can_land() {
    let srcs = strings(&["C:\\src\\a.txt", "C:\\dst\\b.txt", "C:\\dst", "C:\\"]);
    match drop_plan_with(srcs.clone(), "C:\\dst".to_string(), false, false) {
        DropPlan::Submit(Operation::Copy { sources, dest_dir }) => {
            assert_eq!(sources, strings(&["C:\\src\\a.txt"]));
            assert_eq!(dest_dir, "C:\\dst");
        }
        _ => panic!("the one source that can land is copied"),
    }
    assert!(matches!(
        drop_plan_with(srcs.clone(), "C:\\dst".to_string(), true, false),
        DropPlan::Submit(Operation::Move { .. })
    ));
    assert!(matches!(
        drop_plan_with(strings(&["C:\\dst\\b.txt"]), "C:\\dst".to_string(), true, false),
        DropPlan::Nothing
    ));
    match drop_plan_with(srcs.clone(), "C:\\dst".to_string(), false, true) {
        DropPlan::Refused(m) => assert_eq!(m, "Cannot drop into a zip archive"),
        _ => panic!("zip archives refuse drops"),
    }
    match drop_plan(srcs.clone(), "recycle:\\".to_string(), false) {
        DropPlan::Refused(m) => assert_eq!(m, "Cannot drop into the Recycle Bin"),
        _ => panic!("the Recycle Bin refuses drops"),
    }
    match paste_plan("recycle:\\", srcs.clone(), false) {
        DropPlan::Refused(m) => assert_eq!(m, "Can't paste into the Recycle Bin"),
        _ => panic!("the Recycle Bin refuses pastes"),
    }
    assert!(matches!(paste_plan("C:\\dst", Vec::new(), false), DropPlan::Nothing));
    assert!(matches!(paste_plan("C:\\dst", srcs, true), DropPlan::Submit(Operation::Move { .. })));
}

#[test]
fn deleting_follows_the_settings() {
    let mut tab = listed("C:\\d", vec![file("a", 1), file("b", 1)]);
    assert!(matches!(delete_plan(&tab, false, false, true, true), DeletePlan::Nothing));
    tab.selection.insert(1);
    match delete_plan(&tab, false, false, true, true) {
        DeletePlan::Confirm(paths, permanent) => {
            assert_eq!(paths, strings(&["C:\\d\\b"]));
            assert!(!permanent);
        }
        _ => panic!("recycling asks first"),
    }
    match delete_plan(&tab, false, false, true, false) {
        DeletePlan::Submit(Operation::Delete { paths, recycle }) => {
            assert_eq!(paths, strings(&["C:\\d\\b"]));
            assert!(recycle);
        }
        _ => panic!("recycling without asking"),
    }
    match delete_plan(&tab, true, false, false, true) {
        DeletePlan::Submit(Operation::Delete { recycle, .. }) => assert!(!recycle),
        _ => panic!("Shift deletes for good"),
    }
    assert!(matches!(delete_plan(&tab, false, true, true, false), DeletePlan::Confirm(_, true)));
    let mut bin = listed("recycle:\\", vec![file("old.txt", 1)]);
    bin.selection.insert(0);
    match delete_plan(&bin, false, false, true, true) {
        DeletePlan::FromRecycleBin(names) => assert_eq!(names, strings(&["old.txt"])),
        _ => panic!("the Recycle Bin deletes its items"),
    }
}

fn binned(name: &str, original: Option<&str>, parsing: &str) -> RecycleItem {
    RecycleItem {
        name: name.to_string(),
        original_path: original.map(|s| s.to_string()),
        size: 1,
        deleted: 0,
        is_dir: false,
        parsing_name: parsing.to_string(),
    }
}

#[test]
fn restoring_uses_the_listed_items() {
    let items = vec![
        binned("a.txt", Some("C:\\docs\\a.txt"), "::a1"),
        binned("b.txt", None, "::b"),
        binned("a.txt", Some("D:\\x\\a.txt"), "::a2"),
    ];
    match restore_recycle_names(&strings(&["a.txt", "zzz", "b.txt"]), &items) {
        Some(Operation::RecycleRestore { parsing_names, refresh }) => {
            assert_eq!(parsing_names, strings(&["::a2", "::b"]));
            assert_eq!(refresh, strings(&["D:\\x"]));
        }
        _ => panic!("listed items are restored"),
    }
    assert!(restore_recycle_names(&strings(&["zzz"]), &items).is_none());
}

#[test]
fn renames_commit_changed_names_only() {
    let tab = listed("C:\\d", vec![file("a.txt", 1)]);
    match commit_rename(&tab, 0, " b.txt ") {
        Some(Operation::Rename { from, to }) => {
            assert_eq!(from, "C:\\d\\a.txt");
            assert_eq!(to, "C:\\d\\b.txt");
        }
        _ => panic!("a new name renames"),
    }
    assert!(commit_rename(&tab, 0, "a.txt").is_none());
    assert!(commit_rename(&tab, 0, "   ").is_none());
    assert!(commit_rename(&tab, 4, "x").is_none());
}

#[test]
fn clipboard_text_and_messages() {
    assert_eq!(clipboard_text(&strings(&["C:\\a", "C:\\b c"])), "C:\\a\r\nC:\\b c");
    assert_eq!(clipboard_text(&Vec::new()), "");
    assert_eq!(copied_files_message(true, 3), "Cut 3 item(s)");
    assert_eq!(copied_files_message(false, 1), "Copied 1 item(s)");
    assert_eq!(copied_paths_message(12), "Copied 12 path(s)");
}

#[test]
fn listings_start_a_new_generation() {
    let mut tab = listed("C:\\d", vec![file("a", 1)]);
    tab.pending.push(file("stale", 1));
    let token = begin_listing(&mut tab, 1);
    assert_eq!(tab.generation, 1);
    assert!(tab.loading);
    assert!(tab.pending.is_empty());
    assert_eq!((token.pane, token.tab_uid, token.generation), (1, 1, 1));
    // Results of the old generation no longer land.
    assert!(!accept_batch(&mut tab, 0, vec![file("old", 1)], true, None));
}

use simplecommander::actions::{delete_recycle_names, transfer_plan, TransferPlan};
use simplecommander::commands::{open_search, palette_job, search_job, sort_by};
use simplecommander::jobs::Job;
use simplecommander::sort::SortKey;
use simplecommander::ui_state::{SearchMode, SearchState};

#[test]
fn sorting_by_a_column_toggles() {
    let mut tab = TabState::new("C:\\d".to_string(), 1);
    sort_by(&mut tab, SortKey::Name);
    assert!(!tab.sort.ascending);
    sort_by(&mut tab, SortKey::Name);
    assert!(tab.sort.ascending);
    sort_by(&mut tab, SortKey::Size);
    assert_eq!(tab.sort.key, SortKey::Size);
    assert!(tab.sort.ascending);
}

fn search_state(open: bool, query: &str) -> SearchState {
    SearchState {
        open,
        query: query.to_string(),
        mode: SearchMode::Content,
        results: Vec::new(),
        query_id: 0,
        running: false,
        focus_requested: false,
        selected: 0,
    }
}

#[test]
fn opening_search_resets_its_mode_once() {
    let mut s = search_state(false, " notes ");
    assert!(open_search(&mut s));
    assert!(s.open && s.focus_requested);
    assert_eq!(s.mode, SearchMode::NameHere);
    s.mode = SearchMode::Content;
    assert!(!open_search(&mut s));
    assert_eq!(s.mode, SearchMode::Content);
    let mut blank = search_state(false, "  ");
    assert!(!open_search(&mut blank));
}

#[test]
fn search_jobs_follow_the_mode() {
    assert!(search_job(SearchMode::NameHere, "   ", 10, 16, "C:\\d", 1).is_none());
    match search_job(SearchMode::NameHere, " *.txt ", 0, 16, "C:\\d", 7) {
        Some(Job::SearchNames { query_id, query, max, scope }) => {
            assert_eq!((query_id, query.as_str(), max), (7, "*.txt", 1));
            assert_eq!(scope.as_deref(), Some("C:\\d"));
        }
        _ => panic!("a name search under the folder"),
    }
    match search_job(SearchMode::NameGlobal, "x", 500, 16, "C:\\d", 2) {
        Some(Job::SearchNames { scope, max, .. }) => {
            assert!(scope.is_none());
            assert_eq!(max, 500);
        }
        _ => panic!("a name search everywhere"),
    }
    match search_job(SearchMode::Content, "needle", 50, 16, "C:\\d", 3) {
        Some(Job::ContentSearch { scope, needle, max_results, max_file_size, .. }) => {
            assert_eq!((scope.as_str(), needle.as_str(), max_results, max_file_size), ("C:\\d", "needle", 50, 16 * 1024 * 1024));
        }
        _ => panic!("a content search"),
    }
    match search_job(SearchMode::Content, "n", 1, u64::MAX, "C:\\d", 3) {
        Some(Job::ContentSearch { max_file_size, .. }) => assert_eq!(max_file_size, u64::MAX),
        _ => panic!("a content search"),
    }
    assert!(matches!(palette_job("docs", 5, 9), Some(Job::SearchNames { query_id: 9, scope: None, .. })));
    assert!(palette_job("", 5, 9).is_none());
}

#[test]
fn recycle_bin_deletes_listed_items() {
    let items = vec![binned("a.txt", None, "::a"), binned("b.txt", None, "::b")];
    match delete_recycle_names(&strings(&["b.txt", "nope", "a.txt"]), &items) {
        Some(Operation::RecycleDelete { parsing_names }) => assert_eq!(parsing_names, strings(&["::b", "::a"])),
        _ => panic!("listed items are deleted"),
    }
    assert!(delete_recycle_names(&strings(&["nope"]), &items).is_none());
}

#[test]
fn transfers_copy_or_extract() {
    let mut tab = listed("C:\\d", vec![file("a.txt", 1), dir("sub"), file("c.txt", 1)]);
    assert!(matches!(transfer_plan(&tab, "E:\\out", false, None), TransferPlan::Nothing));
    tab.selection.insert(2);
    tab.selection.insert(1);
    match transfer_plan(&tab, "E:\\out", true, None) {
        TransferPlan::Submit(Operation::Move { sources, dest_dir }) => {
            assert_eq!(sources, strings(&["C:\\d\\sub", "C:\\d\\c.txt"]));
            assert_eq!(dest_dir, "E:\\out");
        }
        _ => panic!("the selection moves"),
    }
    let split = Some(("C:\\w\\pack.zip".to_string(), "inner".to_string()));
    match transfer_plan(&tab, "E:\\out", false, split) {
        TransferPlan::Extract { zip, items, names } => {
            assert_eq!(zip, "C:\\w\\pack.zip");
            assert_eq!(items, vec![("inner/sub".to_string(), true), ("inner/c.txt".to_string(), false)]);
            assert_eq!(names, strings(&["sub", "c.txt"]));
        }
        _ => panic!("a zip's items are extracted"),
    }
}

use simplecommander::tree::{add_tree_dirs, flatten_batch, sort_natural};

#[test]
fn tree_lists_visible_folders_in_natural_order() {
    let mut dirs: Vec<String> = Vec::new();
    let hidden = FsEntry { name: ".git".to_string(), size: 0, modified: 0, created: 0, attributes: 0x10 | 0x2 };
    assert!(add_tree_dirs(&mut dirs, &[dir("dir10"), file("f", 1), hidden, dir("Dir2"), dir("abc")]));
    assert_eq!(dirs, strings(&["dir10", "Dir2", "abc"]));
    sort_natural(&mut dirs);
    assert_eq!(dirs, strings(&["abc", "Dir2", "dir10"]));
    let many: Vec<FsEntry> = (0..2000).map(|i| dir(&format!("d{}", i))).collect();
    assert!(!add_tree_dirs(&mut dirs, &many));
    let mut same = strings(&["b", "a", "B", "a"]);
    sort_natural(&mut same);
    assert_eq!(same, strings(&["a", "a", "B", "b"]));
}

#[test]
fn flattened_batches_carry_their_relative_folder() {
    let out = flatten_batch("sub\\deep", vec![file("x.txt", 5), dir("y")]);
    assert_eq!(out[0].name, "sub\\deep\\x.txt");
    assert_eq!(out[0].size, 5);
    assert_eq!(out[1].name, "sub\\deep\\y");
    assert_eq!(out[1].attributes, 0x10);
    let top = flatten_batch("", vec![file("x.txt", 5)]);
    assert_eq!(top[0].name, "x.txt");
}
