use simplecommander::navigate::{click_row, context_row};
use simplecommander::query::Query;
use simplecommander::sort::natural_cmp;
use std::cmp::Ordering;
use simplecommander::ui_state::{replace_cmdline_program, split_cmdline};
use simplecommander::checksum::checksum_text;
use simplecommander::entry::FsEntry;
use simplecommander::keymap::{Chord, Keymap, ModifierState, ShortcutId};
use simplecommander::ops::{first_free, Operation};
use simplecommander::plugins::{command_request, PluginRecord};
use simplecommander::compare::{compare_ops, CompareAction, CompareKind, CompareRow, FolderCompareState};
use simplecommander::shortcuts::{copy_signal_target, key_commands, pane_keys_held_back, KeyCommand, KeyContext, KeyInput};
use simplecommander::state::TabState;
use std::sync::Arc;

fn idle() -> KeyContext {
    KeyContext {
        capturing: false,
        typing: false,
        new_item_open: false,
        palette_open: false,
        search_open: false,
        in_recycle: false,
    }
}

fn input(fired: Vec<ShortcutId>) -> KeyInput {
    KeyInput {
        fired,
        ctrl_r: false,
        alt_up: false,
        redo_alias: false,
        copy_signal: false,
        cut_signal: false,
        paste_signal: false,
        mods: ModifierState { ctrl: false, command: false, alt: false, shift: false },
    }
}

#[test]
fn shortcuts_run_their_commands_in_order() {
    let km = Keymap::default();
    let i = input(vec![ShortcutId::Delete, ShortcutId::NewTab, ShortcutId::Settings]);
    assert_eq!(key_commands(&km, &i, idle()), vec![KeyCommand::ToggleSettings, KeyCommand::NewTab, KeyCommand::Delete]);
    let both = input(vec![ShortcutId::Delete, ShortcutId::DeletePermanent]);
    assert_eq!(key_commands(&km, &both, idle()), vec![KeyCommand::DeletePermanent]);
    let mut up = input(vec![]);
    up.alt_up = true;
    assert_eq!(key_commands(&km, &up, idle()), vec![KeyCommand::GoUp]);
    let mut bin = idle();
    bin.in_recycle = true;
    assert!(key_commands(&km, &up, bin).is_empty());
}

#[test]
fn typing_and_overlays_hold_pane_shortcuts_back() {
    let km = Keymap::default();
    let i = input(vec![ShortcutId::Search, ShortcutId::Rename]);
    // Opening the search holds the rename back.
    assert_eq!(key_commands(&km, &i, idle()), vec![KeyCommand::OpenSearch]);
    let mut typing = idle();
    typing.typing = true;
    let r = input(vec![ShortcutId::Rename, ShortcutId::Palette]);
    assert_eq!(key_commands(&km, &r, typing), vec![KeyCommand::TogglePalette]);
    // Closing the palette lets the rename through.
    let mut palette = idle();
    palette.palette_open = true;
    assert_eq!(key_commands(&km, &r, palette), vec![KeyCommand::TogglePalette, KeyCommand::Rename]);
    let mut capture = idle();
    capture.capturing = true;
    assert!(key_commands(&km, &r, capture).is_empty());
}

#[test]
fn the_copy_signal_goes_to_the_chord_with_the_held_modifiers() {
    let km = Keymap::default();
    let mut i = input(vec![]);
    i.copy_signal = true;
    assert_eq!(key_commands(&km, &i, idle()), vec![KeyCommand::Copy]);
    // Ctrl+Shift+C copies paths (the default chord for that).
    i.mods = ModifierState { ctrl: true, command: false, alt: false, shift: true };
    assert_eq!(key_commands(&km, &i, idle()), vec![KeyCommand::CopyPaths]);
}

#[test]
fn renames_take_the_first_free_candidate() {
    assert_eq!(first_free(r"C:\d\file.txt", &vec![false]), r"C:\d\file (2).txt");
    assert_eq!(first_free(r"C:\d\file.txt", &vec![true, true, false]), r"C:\d\file (4).txt");
    assert_eq!(first_free(r"C:\d\notes", &vec![true, false]), r"C:\d\notes (3)");
    assert_eq!(first_free(r"C:\d\file.txt", &vec![true, true]), r"C:\d\file.txt");
}

#[test]
fn checksums_are_lower_case_sha256() {
    assert_eq!(checksum_text(b""), "e3b0c44298fc1c149afbf4c8996fb92427ae41e4649b934ca495991b7852b855");
    assert_eq!(checksum_text(b"abc"), "ba7816bf8f01cfea414140de5dae2223b00361a396177a9cb410ff61f20015ad");
}

#[test]
fn going_up_clears_the_selection_and_copies_selected_paths() {
    let mut t = TabState::new(r"C:\a\b".to_string(), 1);
    t.snapshot.entries = Arc::new(vec![
        FsEntry { name: "x.txt".to_string(), size: 1, modified: 0, created: 0, attributes: 0 },
        FsEntry { name: "y.txt".to_string(), size: 1, modified: 0, created: 0, attributes: 0 },
    ]);
    t.view = Arc::new(vec![0, 1]);
    t.selection.insert(1);
    t.cursor = Some(0);
    assert_eq!(t.paths_for_clipboard(), vec![r"C:\a\b\y.txt".to_string()]);
    t.selection.clear();
    assert_eq!(t.paths_for_clipboard(), vec![r"C:\a\b\x.txt".to_string()]);
    t.selection.insert(0);
    let g = t.generation;
    assert!(t.go_up());
    assert!(t.selection.is_empty() && t.cursor.is_none());
    assert_eq!(t.generation, g + 1);
}

fn listed_tab() -> TabState {
    let mut t = TabState::new(r"C:\d".to_string(), 1);
    let e = |n: &str| FsEntry { name: n.to_string(), size: 1, modified: 0, created: 0, attributes: 0 };
    t.snapshot.entries = Arc::new(vec![e("a"), e("b"), e("c"), e("d")]);
    t.view = Arc::new(vec![3, 2, 1, 0]);
    t
}

#[test]
fn row_clicks_select_toggle_and_extend() {
    let mut t = listed_tab();
    click_row(&mut t, 2, 1, false, false);
    assert_eq!(t.cursor, Some(1));
    assert!(t.selection.len() == 1 && t.selection.contains(&2));
    click_row(&mut t, 0, 3, false, true);
    assert_eq!(t.cursor, Some(1));
    let mut got: Vec<u32> = t.selection.iter().copied().collect();
    got.sort();
    assert_eq!(got, vec![0, 1, 2]);
    click_row(&mut t, 1, 2, true, false);
    assert!(!t.selection.contains(&1) && t.cursor == Some(2));
    click_row(&mut t, 1, 2, true, false);
    assert!(t.selection.contains(&1));
    context_row(&mut t, 0);
    assert_eq!(t.selection.len(), 3);
    context_row(&mut t, 3);
    assert!(t.selection.len() == 1 && t.selection.contains(&3));
    // A span past the end of the view selects nothing.
    click_row(&mut t, 0, 9, false, true);
    assert!(t.selection.is_empty());
}

#[test]
fn case_breaks_ties_only_and_queries_ignore_case_and_slashes() {
    assert_eq!(natural_cmp("Beta", "alpha"), natural_cmp("beta", "alpha"));
    assert_eq!(natural_cmp("File10", "file9"), Ordering::Greater);
    assert_eq!(natural_cmp("File2", "file2"), Ordering::Less);
    let a = Query::parse(r"C:\Users\*.TXT");
    let b = Query::parse("c:/users/*.txt");
    for p in [r"c:\users\a.txt", r"C:\USERS\B.TXT", r"d:\x.txt"] {
        assert_eq!(a.matches(p), b.matches(p));
    }
    assert_eq!(a.required_name_suffix(), b.required_name_suffix());
}

#[test]
fn replacing_the_program_keeps_the_arguments() {
    let cmd = r#"wt.exe -d "{path}" --title "My Term""#;
    let r = replace_cmdline_program(cmd, r"C:\Program Files\term.exe");
    let mut want = vec![r"C:\Program Files\term.exe".to_string()];
    want.extend(split_cmdline(cmd).into_iter().skip(1));
    assert_eq!(split_cmdline(&r), want);
}

fn compare_rows() -> Vec<CompareRow> {
    vec![
        CompareRow { rel: "a.txt".to_string(), kind: CompareKind::NewerLeft, left: Some(r"L\a.txt".to_string()), right: Some(r"R\a.txt".to_string()), is_dir: false },
        CompareRow { rel: "b.txt".to_string(), kind: CompareKind::LeftOnly, left: Some(r"L\b.txt".to_string()), right: None, is_dir: false },
        CompareRow { rel: "sub".to_string(), kind: CompareKind::Same, left: Some(r"L\sub".to_string()), right: Some(r"R\sub".to_string()), is_dir: true },
        CompareRow { rel: "c.txt".to_string(), kind: CompareKind::RightOnly, left: None, right: Some(r"R\c.txt".to_string()), is_dir: false },
    ]
}

fn op_text(o: &Operation) -> String {
    match o {
        Operation::Copy { sources, dest_dir } => format!("copy {:?} -> {}", sources, dest_dir),
        Operation::Delete { paths, recycle } => format!("delete {:?} recycle={}", paths, recycle),
        _ => "other".to_string(),
    }
}

#[test]
fn compare_copy_right_skips_folders_and_missing_sides() {
    let rows = compare_rows();
    let ops = compare_ops(&rows, &vec![0, 1, 2, 3, 9], CompareAction::CopyToRight, "L", "R");
    let texts: Vec<String> = ops.iter().map(op_text).collect();
    assert_eq!(texts, vec![
        format!("copy {:?} -> R", vec![r"L\a.txt".to_string()]),
        format!("copy {:?} -> R", vec![r"L\b.txt".to_string()]),
    ]);
}

#[test]
fn compare_copy_left_and_delete() {
    let rows = compare_rows();
    let ops = compare_ops(&rows, &vec![3, 0], CompareAction::CopyToLeft, "L", "R");
    let texts: Vec<String> = ops.iter().map(op_text).collect();
    assert_eq!(texts, vec![
        format!("copy {:?} -> L", vec![r"R\c.txt".to_string()]),
        format!("copy {:?} -> L", vec![r"R\a.txt".to_string()]),
    ]);
    let ops = compare_ops(&rows, &vec![0, 2, 3], CompareAction::DeleteSelected, "L", "R");
    let texts: Vec<String> = ops.iter().map(op_text).collect();
    assert_eq!(texts, vec![
        format!("delete {:?} recycle=true", vec![r"L\a.txt".to_string(), r"R\a.txt".to_string()]),
        format!("delete {:?} recycle=true", vec![r"R\c.txt".to_string()]),
    ]);
}

#[test]
fn compare_selection_is_consumed() {
    let mut st = FolderCompareState::default();
    st.left = "L".to_string();
    st.right = "R".to_string();
    st.rows = compare_rows();
    st.selected.insert(1);
    st.selected.insert(2);
    let ops = st.take_selection_ops(CompareAction::CopyToRight);
    assert_eq!(ops.len(), 1);
    assert_eq!(op_text(&ops[0]), format!("copy {:?} -> R", vec![r"L\b.txt".to_string()]));
    assert!(st.selected.is_empty());
    assert_eq!(st.rows.len(), 4);
}

#[test]
fn command_request_encodes_paths_as_json() {
    let records = vec![
        PluginRecord { path: "a.wasm".to_string(), enabled: true, granted: vec![] },
        PluginRecord { path: "b.wasm".to_string(), enabled: true, granted: vec!["read-files".to_string()] },
    ];
    let paths = vec!["C:\\a\"b.txt".to_string(), "x\ny\u{1}\u{1f}\u{8}\u{c}\té".to_string()];
    let (read, bytes) = command_request(&records, 1, &paths).unwrap();
    assert!(read);
    assert_eq!(
        String::from_utf8(bytes).unwrap(),
        "[\"C:\\\\a\\\"b.txt\",\"x\\ny\\u0001\\u001f\\b\\f\\té\"]"
    );
    let (read, bytes) = command_request(&records, 0, &vec![]).unwrap();
    assert!(!read);
    assert_eq!(bytes, b"[]".to_vec());
    assert_eq!(command_request(&records, 2, &paths).unwrap_err(), "no such plugin");
}

#[test]
fn held_back_follows_overlays_and_typing() {
    assert!(!pane_keys_held_back(&vec![], idle()));
    let mut c = idle();
    c.typing = true;
    assert!(pane_keys_held_back(&vec![], c));
    assert!(pane_keys_held_back(&vec![ShortcutId::Palette], idle()));
    let mut c = idle();
    c.palette_open = true;
    assert!(!pane_keys_held_back(&vec![ShortcutId::Palette], c));
    assert!(pane_keys_held_back(&vec![ShortcutId::Search], idle()));
    let mut c = idle();
    c.search_open = true;
    assert!(!pane_keys_held_back(&vec![ShortcutId::Filter], c));
    assert!(pane_keys_held_back(&vec![], c));
}

#[test]
fn copy_signal_picks_by_modifiers() {
    let km = Keymap::default();
    let none = ModifierState { ctrl: false, command: false, alt: false, shift: false };
    let ctrl_shift = ModifierState { ctrl: true, command: false, alt: false, shift: true };
    let ctrl_alt = ModifierState { ctrl: true, command: false, alt: true, shift: false };
    let ctrl = ModifierState { ctrl: true, command: false, alt: false, shift: false };
    assert_eq!(copy_signal_target(&km, false, ctrl_shift), None);
    assert_eq!(copy_signal_target(&km, true, ctrl_shift), Some(ShortcutId::CopyPaths));
    assert_eq!(copy_signal_target(&km, true, ctrl_alt), Some(ShortcutId::CopyToOther));
    assert_eq!(copy_signal_target(&km, true, ctrl), Some(ShortcutId::Copy));
    assert_eq!(copy_signal_target(&km, true, none), Some(ShortcutId::Copy));
}

#[test]
fn chord_key_ignores_surrounding_spaces() {
    let c = Chord::new(true, false, false, " F7 ");
    assert!(c.key().is_some());
    assert_eq!(c.label(), "Ctrl+F7");
    let u = Chord::new(false, false, false, " zz ");
    assert!(u.key().is_none());
    assert_eq!(u.label(), " zz ");
}

#[test]
fn history_moves_without_history_need_no_counter_room() {
    let mut t = TabState::new(r"C:\".to_string(), 1);
    t.generation = u64::MAX;
    assert!(!t.go_back());
    assert!(!t.go_forward());
    assert!(!t.go_up());
    t.navigate(r"C:\".to_string());
    assert_eq!(t.generation, u64::MAX);
    assert_eq!(t.path, r"C:\");
}
