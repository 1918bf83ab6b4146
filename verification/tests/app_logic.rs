use simplecommander::compare::{compare_folders, CompareFilter, CompareKind, ListedItem};
use simplecommander::config::{
    default_columns, fix_columns, settings_path, tags_db_path, ColumnPref, DefaultLayout,
};
use simplecommander::interact::{dest_label, drag_badge_title, drop_allowed, DropEffect, DropHint};
use simplecommander::keymap::{Chord, Keymap, ModifierState, ShortcutId};
use simplecommander::preview::hex_row;
use simplecommander::state::{PaneLayout, SplitDirection};
use simplecommander::theme::{catalog, hex_of, is_amoled, parse_hex, theme_for_name, ThemeId};
use simplecommander::ui_state::{
    invalid_item_name, next_layout, other_pane, replace_cmdline_program, split_cmdline, SearchMode,
};

fn s(x: &str) -> String {
    x.to_string()
}

#[test]
fn drop_rejects_no_op_and_recursive_targets() {
    let dest = r"C:\dst";
    assert!(!drop_allowed(&[s(r"C:\dst\a.txt")], dest));
    assert!(!drop_allowed(&[s(r"C:\dst")], dest));
    assert!(!drop_allowed(&[s(r"C:\")], dest));
    assert!(drop_allowed(&[s(r"C:\src\a.txt")], dest));
    assert!(drop_allowed(&[s(r"C:\dst\a.txt"), s(r"C:\src\b.txt")], dest));
}

#[test]
fn drop_badges_and_effects() {
    assert_eq!(dest_label(r"C:\Users\Documents"), "Documents");
    assert_eq!(dest_label(r"D:\"), r"D:\");
    assert_eq!(DropEffect::from_modifiers(false, false, false), DropEffect::Copy);
    assert_eq!(DropEffect::from_modifiers(false, false, true), DropEffect::Move);
    assert!(DropEffect::Move.is_move());
    assert_eq!(DropEffect::Copy.verb(), "Copy");
    let hint = DropHint { dest: s("Docs"), allowed: true };
    assert_eq!(drag_badge_title(DropEffect::Move, 3, Some(&hint)), "Move 3 items to Docs");
    assert_eq!(drag_badge_title(DropEffect::Copy, 1, None), "Copy 1 item");
    let no = DropHint { dest: s("Docs"), allowed: false };
    assert_eq!(drag_badge_title(DropEffect::Copy, 2, Some(&no)), "Can't drop 2 items here");
}

#[test]
fn migrate_old_ctrl_f_search() {
    let mut km = Keymap::default();
    km.search = Chord::new(true, false, false, "F");
    km.filter = Chord::new(true, false, false, "F");
    km.migrate_filter_shortcut();
    assert_eq!(km.filter.to_storage(), "Ctrl+F");
    assert_eq!(km.search.to_storage(), "Ctrl+Shift+F");
}

#[test]
fn migrate_bare_arrow_nav() {
    let mut km = Keymap::default();
    km.parent_folder = Chord::new(false, false, false, "ArrowLeft");
    km.enter_folder = Chord::new(false, false, false, "ArrowRight");
    km.migrate_bare_arrow_nav();
    assert!(km.parent_folder.is_unbound());
    assert!(km.enter_folder.is_unbound());
}

#[test]
fn parse_labels() {
    let c = Chord::parse("Ctrl+Shift+C").unwrap();
    assert!(c.ctrl && c.shift && !c.alt);
    assert_eq!(c.key, "C");
    assert_eq!(c.label(), "Ctrl+Shift+C");
    assert!(Chord::parse("F7").unwrap().key().is_some());
    assert!(Chord::parse("Alt+ArrowLeft").is_some());
    assert!(Chord::parse("Ctrl+,").is_some());
    assert!(Chord::parse("").unwrap().is_unbound());
}

#[test]
fn defaults_all_resolve() {
    let km = Keymap::default();
    for (id, label) in simplecommander::keymap::shortcut_rows() {
        if km.get(id).is_unbound() {
            continue;
        }
        assert!(km.get(id).key().is_some(), "{label}: {}", km.get(id).to_storage());
    }
}

#[test]
fn copy_chords_match_modifiers() {
    let km = Keymap::default();
    let ctrl = ModifierState { ctrl: true, command: false, alt: false, shift: false };
    let ctrl_shift = ModifierState { shift: true, ..ctrl };
    let ctrl_alt = ModifierState { alt: true, ..ctrl };
    let command = ModifierState { ctrl: false, command: true, alt: false, shift: false };
    assert!(km.copy.matches_modifiers(ctrl));
    assert!(!km.copy.matches_modifiers(ctrl_shift));
    assert!(km.copy_paths.matches_modifiers(ctrl_shift));
    assert!(km.copy_to_other.matches_modifiers(ctrl_alt));
    assert!(km.paste.matches_modifiers(ctrl));
    assert!(km.cut.matches_modifiers(ctrl));
    assert!(km.copy.matches_modifiers(command));
}

#[test]
fn chord_parsing_details() {
    let c = Chord::parse(" control + comma ").unwrap();
    assert!(c.ctrl);
    assert_eq!(c.key, "Comma");
    assert_eq!(c.to_storage(), "Ctrl+Comma");
    assert_eq!(c.label(), "Ctrl+,");
    assert!(Chord::parse("Ctrl+NoSuchKey").is_none());
    assert!(Chord::parse("Ctrl").is_none());
    assert_eq!(Chord::parse("Alt+ArrowLeft").unwrap().label(), "Alt+⏴");
    assert_eq!(Chord::unbound().label(), "None");
}

#[test]
fn keymap_conflicts() {
    let mut km = Keymap::default();
    assert_eq!(km.conflicts_with(ShortcutId::Copy), None);
    *km.get_mut(ShortcutId::Rename) = Chord::new(true, false, false, "C");
    assert_eq!(km.conflicts_with(ShortcutId::Copy), Some("Rename"));
    assert_eq!(km.conflicts_with(ShortcutId::Rename), Some("Copy"));
    assert_eq!(km.rename.to_storage(), "Ctrl+C");
}

#[test]
fn hex_row_formats_offset_hex_and_ascii() {
    let line = hex_row(0, b"PNG\n");
    assert!(line.starts_with("00000000"));
    assert!(line.contains("50 4E 47"));
    assert!(line.contains("PNG"));
}

#[test]
fn hex_row_layout() {
    let line = hex_row(0x1A2B, &[0x41, 0x00, 0xFF]);
    let expected = format!("00001A2B  41 00 FF {} {} A..{}", "   ".repeat(5), "   ".repeat(8), " ".repeat(13));
    assert_eq!(line, expected);
    assert!(hex_row(0x1_0000_0000, &[]).starts_with("100000000  "));
}

#[test]
fn compare_merges_two_listings() {
    let item = |rel: &str, size: u64, mtime: u64, is_dir: bool, side: &str| ListedItem {
        rel: s(rel),
        path: format!("{side}\\{rel}"),
        size,
        mtime,
        is_dir,
    };
    let left = vec![
        item("a.txt", 1, 10, false, "L"),
        item("b.txt", 1, 10, false, "L"),
        item("d", 0, 5, true, "L"),
        item("e.txt", 2, 10, false, "L"),
    ];
    let right = vec![
        item("b.txt", 1, 10, false, "R"),
        item("c.txt", 1, 10, false, "R"),
        item("d", 0, 9, true, "R"),
        item("e.txt", 3, 20, false, "R"),
    ];
    let rows = compare_folders(&left, &right);
    let kinds: Vec<(String, CompareKind)> = rows.iter().map(|r| (r.rel.clone(), r.kind)).collect();
    assert_eq!(
        kinds,
        vec![
            (s("a.txt"), CompareKind::LeftOnly),
            (s("b.txt"), CompareKind::Same),
            (s("c.txt"), CompareKind::RightOnly),
            (s("d"), CompareKind::Same),
            (s("e.txt"), CompareKind::NewerRight),
        ]
    );
    assert_eq!(rows[0].left.as_deref(), Some(r"L\a.txt"));
    assert!(rows[0].right.is_none());
    assert!(CompareFilter::Different.matches(CompareKind::LeftOnly));
    assert!(!CompareFilter::Different.matches(CompareKind::Same));
    assert_eq!(CompareKind::NewerLeft.label(), "Newer left");
    assert_eq!(CompareFilter::All.label(), "All");
}

#[test]
fn configuration_rules() {
    assert_eq!(DefaultLayout::DualHorizontal.to_pane_layout(), PaneLayout::Dual(SplitDirection::Horizontal));
    assert_eq!(DefaultLayout::Single.label(), "Single pane");
    assert_eq!(settings_path(r"C:\cfg"), r"C:\cfg\settings.toml");
    assert_eq!(tags_db_path(r"C:\cfg\"), r"C:\cfg\sc-tags.db");
    let cols = fix_columns(vec![ColumnPref { id: s("name"), visible: true }]);
    let ids: Vec<&str> = cols.iter().map(|c| c.id.as_str()).collect();
    assert_eq!(ids, vec!["index", "name", "sha256"]);
    assert_eq!(fix_columns(vec![]).len(), default_columns().len());
}

#[test]
fn themes_and_accents() {
    assert_eq!(catalog()[3], ("light_warm", "Light Warm"));
    assert!(is_amoled("amoled_amber"));
    assert!(!is_amoled("dark"));
    assert_eq!(theme_for_name("light"), ThemeId::Light);
    assert_eq!(theme_for_name("nonsense"), ThemeId::Amoled);
    assert_eq!(parse_hex(" #2fb8ff "), Some((0x2f, 0xb8, 0xff)));
    assert_eq!(parse_hex("12345"), None);
    assert_eq!(parse_hex("xyzxyz"), None);
    assert_eq!(parse_hex("+abcde"), Some((0x0a, 0xbc, 0xde)));
    assert_eq!(hex_of(0x2f, 0xb8, 0xff), "2fb8ff");
}

#[test]
fn search_modes_cycle() {
    assert!(SearchMode::NameHere.next() == SearchMode::NameGlobal);
    assert!(SearchMode::Content.next() == SearchMode::NameHere);
    assert!(SearchMode::NameHere.prev() == SearchMode::Content);
    assert!(SearchMode::NameGlobal.next().prev() == SearchMode::NameGlobal);
}

#[test]
fn layouts_and_panes() {
    assert_eq!(other_pane(1, 0), 0);
    assert_eq!(other_pane(2, 0), 1);
    assert_eq!(other_pane(2, 5), 0);
    assert_eq!(next_layout(PaneLayout::Single), PaneLayout::Dual(SplitDirection::Vertical));
    assert_eq!(next_layout(PaneLayout::Dual(SplitDirection::Horizontal)), PaneLayout::Single);
}

#[test]
fn command_lines() {
    assert_eq!(split_cmdline(r#"wt.exe -d "{path}""#), vec![s("wt.exe"), s("-d"), s("{path}")]);
    assert_eq!(split_cmdline(r#"  "a b"  c"#), vec![s("a b"), s("c")]);
    assert_eq!(
        replace_cmdline_program(r#"wt.exe -d "{path}""#, r"C:\Program Files\x.exe"),
        r#""C:\Program Files\x.exe" -d {path}"#
    );
    assert_eq!(replace_cmdline_program("cmd", "pwsh"), r#"pwsh "{path}""#);
    assert_eq!(replace_cmdline_program("{path}", "pwsh"), "pwsh");
    assert_eq!(
        replace_cmdline_program(r#"old "two words""#, "new"),
        r#"new "two words""#
    );
}

#[test]
fn new_item_names() {
    assert_eq!(invalid_item_name("   "), Some("Enter a name"));
    assert_eq!(invalid_item_name(".."), Some("Invalid name"));
    assert_eq!(invalid_item_name("a<b"), Some("Name contains invalid characters: <>:\"/\\|?*"));
    assert_eq!(invalid_item_name("trail."), Some("Name can't end with a period or space"));
    assert_eq!(invalid_item_name("con.txt"), Some("That name is reserved by Windows"));
    assert_eq!(invalid_item_name("Lpt9"), Some("That name is reserved by Windows"));
    assert_eq!(invalid_item_name("console.txt"), None);
    assert_eq!(invalid_item_name(" ok name "), None);
}

fn floating(conflict: Option<u64>, queue: Vec<u64>) -> simplecommander::ui_state::FloatingUi {
    simplecommander::ui_state::FloatingUi {
        search_open: false,
        palette_open: false,
        preview_enabled: false,
        show_settings: false,
        show_columns: false,
        show_about: false,
        show_plugin_manager: false,
        show_everything_prompt: false,
        new_item_open: false,
        tag_edit_open: false,
        batch_rename_open: false,
        delete_pending: false,
        conflict,
        conflict_queue: queue,
        compare_open: false,
        row_menu_open: false,
        pane_menu_open: false,
    }
}

#[test]
fn escape_closes_everything_and_cancels_clash_prompts() {
    let mut ui = floating(None, vec![7]);
    let d = ui.dismiss_floating_ui();
    assert!(!d.any && !d.close_preview && d.cancel.is_empty());
    assert_eq!(ui.conflict_queue, vec![7]);

    let mut ui = floating(Some(3), vec![4, 5]);
    ui.preview_enabled = true;
    ui.palette_open = true;
    let d = ui.dismiss_floating_ui();
    assert!(d.any && d.close_preview);
    assert_eq!(d.cancel, vec![3, 4, 5]);
    assert!(ui.conflict.is_none() && ui.conflict_queue.is_empty());
    assert!(!ui.preview_enabled && !ui.palette_open);
    assert!(!ui.dismiss_floating_ui().any);
}
