use simplecommander::entry::FsEntry;
use simplecommander::ops::{OpOrigin, Operation};
use simplecommander::queue::{PauseState, QueueState, Request};
use simplecommander::usn::{apply_usn_record, next_start, parse_usn_records, UsnRecord};
use simplecommander::wire::{
    add_sizes, clipboard_text_units, drop_files_block, find_data_to_entry, pack_hdrop, wide_search_pattern,
    FindRecord, TreeWalk,
};
use std::collections::HashMap;

fn copy_op(src: &str, dest: &str) -> Operation {
    Operation::Copy { sources: vec![src.to_string()], dest_dir: dest.to_string() }
}

#[test]
fn queue_hands_out_ids_in_order() {
    let mut q = QueueState::new();
    assert_eq!(q.max_jobs, 2);
    let a = q.submit(copy_op("C:\\a\\x.txt", "D:\\out"), OpOrigin::User);
    let b = q.submit(copy_op("C:\\b\\y.txt", "E:\\out"), OpOrigin::Undo);
    assert_eq!((a, b), (1, 2));
    assert_eq!(q.next_id, 3);
    assert_eq!(q.pending.len(), 2);
}

#[test]
fn queue_keeps_overlapping_work_apart() {
    let mut q = QueueState::new();
    let a = q.submit(copy_op("C:\\a\\x.txt", "D:\\out"), OpOrigin::User);
    let b = q.submit(copy_op("C:\\other\\z.txt", "D:\\out"), OpOrigin::User);
    let first = q.pick_next().expect("the first operation runs");
    assert_eq!(first.id, a);
    // The second writes into the same folder: it waits.
    assert!(q.pick_next().is_none());
    assert_eq!(q.pending.len(), 1);
    q.finish(a);
    assert!(q.running_ids.is_empty());
    let second = q.pick_next().expect("the folder is free again");
    assert_eq!(second.id, b);
}

#[test]
fn queue_runs_disjoint_work_side_by_side_up_to_the_cap() {
    let mut q = QueueState::new();
    q.set_max_jobs(1);
    assert_eq!(q.max_jobs, 1);
    q.submit(copy_op("C:\\a\\x.txt", "D:\\one"), OpOrigin::User);
    q.submit(copy_op("C:\\b\\y.txt", "E:\\two"), OpOrigin::User);
    assert!(q.pick_next().is_some());
    assert!(q.pick_next().is_none());
    q.set_max_jobs(2);
    assert!(q.pick_next().is_some());
    q.set_max_jobs(99);
    assert_eq!(q.max_jobs, 4);
    q.set_max_jobs(0);
    assert_eq!(q.max_jobs, 1);
}

#[test]
fn queue_pause_resume_cancel() {
    let mut q = QueueState::new();
    let a = q.submit(copy_op("C:\\a\\x.txt", "D:\\out"), OpOrigin::User);
    let b = q.submit(copy_op("C:\\b\\y.txt", "E:\\out"), OpOrigin::Redo);
    q.request(Request::Pause, Some(a));
    assert!(q.is_paused(a));
    assert!(!q.is_paused(b));
    assert!(q.any_paused());
    q.request(Request::Resume, None);
    assert!(!q.is_paused(a));
    assert!(!q.any_paused());
    q.request(Request::Cancel, Some(b));
    assert!(q.states.contains(&(b, PauseState::Cancelled)));
    let gone = q.take_cancelled();
    assert_eq!(gone.len(), 1);
    assert_eq!(gone[0].0, b);
    assert_eq!(gone[0].1, OpOrigin::Redo);
    assert_eq!(q.pending.len(), 1);
    assert_eq!(q.pending[0].id, a);
    assert!(!q.states.iter().any(|(id, _)| *id == b));
}

fn usn_record_bytes(frn: u64, parent: u64, reason: u32, attributes: u32, name: &str) -> Vec<u8> {
    let units: Vec<u16> = name.encode_utf16().collect();
    let len = 64 + 2 * units.len();
    let len = (len + 7) / 8 * 8;
    let mut b = vec![0u8; len];
    b[0..4].copy_from_slice(&(len as u32).to_le_bytes());
    b[4..6].copy_from_slice(&2u16.to_le_bytes());
    b[8..16].copy_from_slice(&frn.to_le_bytes());
    b[16..24].copy_from_slice(&parent.to_le_bytes());
    b[40..44].copy_from_slice(&reason.to_le_bytes());
    b[52..56].copy_from_slice(&attributes.to_le_bytes());
    b[56..58].copy_from_slice(&((2 * units.len()) as u16).to_le_bytes());
    b[58..60].copy_from_slice(&60u16.to_le_bytes());
    for (k, u) in units.iter().enumerate() {
        b[60 + 2 * k..62 + 2 * k].copy_from_slice(&u.to_le_bytes());
    }
    b
}

#[test]
fn usn_buffer_parses_into_records() {
    let mut buf = usn_record_bytes(7, 5, 0x100, 0x10, "Docs");
    buf.extend(usn_record_bytes(9, 7, 0x200, 0x20, "a.txt"));
    let recs = parse_usn_records(&buf);
    assert_eq!(recs.len(), 2);
    assert_eq!((recs[0].frn, recs[0].parent, recs[0].reason, recs[0].attributes), (7, 5, 0x100, 0x10));
    assert_eq!(recs[0].name, "Docs");
    assert_eq!(recs[1].frn, 9);
    assert_eq!(recs[1].name, "a.txt");
}

#[test]
fn usn_buffer_stops_at_a_truncated_record() {
    let mut buf = usn_record_bytes(7, 5, 0x100, 0x10, "Docs");
    buf.extend_from_slice(&[200, 0, 0, 0, 2, 0]);
    assert_eq!(parse_usn_records(&buf).len(), 1);
    assert!(parse_usn_records(&[]).is_empty());
}

#[test]
fn usn_records_update_the_index() {
    let mut idx = HashMap::new();
    let create = UsnRecord { frn: 7, parent: 5, reason: 0x100, attributes: 0x10, name: "Docs".to_string() };
    apply_usn_record(&mut idx, &create);
    let e = idx.get(&7).expect("created");
    assert_eq!(e.name, "Docs");
    assert_eq!(e.name_lower, "docs");
    assert!(e.is_dir);
    let renamed = UsnRecord { frn: 7, parent: 5, reason: 0x1000 | 0x2000, attributes: 0x20, name: "Notes".to_string() };
    apply_usn_record(&mut idx, &renamed);
    assert_eq!(idx.get(&7).unwrap().name, "Notes");
    assert!(!idx.get(&7).unwrap().is_dir);
    let delete = UsnRecord { frn: 7, parent: 5, reason: 0x200, attributes: 0, name: "Notes".to_string() };
    apply_usn_record(&mut idx, &delete);
    assert!(idx.is_empty());
    let other = UsnRecord { frn: 8, parent: 5, reason: 0x2, attributes: 0, name: "x".to_string() };
    apply_usn_record(&mut idx, &other);
    assert!(idx.is_empty());
}

#[test]
fn usn_next_start_reads_the_first_word() {
    let b = [0x10u8, 0x32, 0, 0, 0, 0, 0, 1, 0xff];
    assert_eq!(next_start(&b), 0x0100_0000_0000_3210);
}

#[test]
fn drop_files_block_layout() {
    let b = drop_files_block(&vec!["C:\\a".to_string()]);
    let mut want = vec![20u8, 0, 0, 0, 0, 0, 0, 0, 0, 0, 0, 0, 0, 0, 0, 0, 1, 0, 0, 0];
    want.extend_from_slice(&[67, 0, 58, 0, 92, 0, 97, 0, 0, 0, 0, 0]);
    assert_eq!(b, want);
    let two = drop_files_block(&vec!["x".to_string(), "y".to_string()]);
    assert_eq!(&two[20..], &[120, 0, 0, 0, 121, 0, 0, 0, 0, 0]);
    assert!(pack_hdrop(&Vec::new()).is_none());
    assert_eq!(pack_hdrop(&vec!["C:\\a".to_string()]), Some(want));
}

#[test]
fn clipboard_text_is_zero_terminated_utf16() {
    assert_eq!(clipboard_text_units("hé"), vec![104, 233, 0]);
    assert_eq!(clipboard_text_units("𝄞"), vec![0xD834, 0xDD1E, 0]);
}

fn wide(s: &str) -> Vec<u16> {
    s.encode_utf16().chain(std::iter::once(0)).collect()
}

#[test]
fn search_patterns_use_extended_paths() {
    assert_eq!(wide_search_pattern("C:\\dir"), wide("\\\\?\\C:\\dir\\*"));
    assert_eq!(wide_search_pattern("C:\\"), wide("\\\\?\\C:\\*"));
    assert_eq!(wide_search_pattern("\\\\server\\share"), wide("\\\\?\\UNC\\server\\share\\*"));
    assert_eq!(wide_search_pattern("\\\\?\\D:\\x"), wide("\\\\?\\D:\\x\\*"));
}

fn record(name: &str) -> FindRecord {
    let mut file_name: Vec<u16> = name.encode_utf16().collect();
    file_name.push(0);
    file_name.extend_from_slice(&[120, 121]);
    FindRecord {
        file_name,
        size_high: 1,
        size_low: 2,
        write_high: 0,
        write_low: 99,
        create_high: 3,
        create_low: 0,
        attributes: 0x20,
    }
}

#[test]
fn directory_records_become_entries() {
    assert!(find_data_to_entry(&record(".")).is_none());
    assert!(find_data_to_entry(&record("..")).is_none());
    assert!(find_data_to_entry(&record("")).is_none());
    let e = find_data_to_entry(&record("...")).expect("a real name");
    assert_eq!(e.name, "...");
    let e = find_data_to_entry(&record("report.pdf")).expect("a file");
    assert_eq!(e.name, "report.pdf");
    assert_eq!(e.size, 4_294_967_298);
    assert_eq!(e.modified, 99);
    assert_eq!(e.created, 3 << 32);
    assert_eq!(e.attributes, 0x20);
}

fn entry(name: &str, attributes: u32, size: u64) -> FsEntry {
    FsEntry { name: name.to_string(), size, modified: 0, created: 0, attributes }
}

#[test]
fn tree_walk_visits_subfolders_but_not_reparse_points() {
    let mut w = TreeWalk::new();
    assert_eq!(w.next_dir(), Some(String::new()));
    w.add_batch("", &[entry("sub", 0x10, 0), entry("f.txt", 0x20, 5), entry("link", 0x10 | 0x400, 0)]);
    assert_eq!(w.next_dir(), Some("sub".to_string()));
    w.add_batch("sub", &[entry("deep", 0x10, 0), entry("other", 0x10, 0)]);
    assert_eq!(w.next_dir(), Some("sub\\other".to_string()));
    assert_eq!(w.next_dir(), Some("sub\\deep".to_string()));
    assert_eq!(w.next_dir(), None);
}

#[test]
fn sizes_add_up() {
    assert_eq!(add_sizes(10, &[entry("a", 0x20, 5), entry("b", 0x20, 7)]), 22);
    assert_eq!(add_sizes(3, &[]), 3);
}

use simplecommander::config::ConflictDefault;
use simplecommander::ops::{ConflictResolution, OpEvent, UndoAction};
use simplecommander::ui_state::{OpsPanel, PanelAction};

fn started(op_id: u64) -> OpEvent {
    OpEvent::Started { op_id, origin: OpOrigin::User, label: format!("Copy {}", op_id), total_bytes: 100, total_files: 2 }
}

#[test]
fn panel_tracks_progress_and_completion() {
    let now = std::time::Instant::now();
    let mut p = OpsPanel::new();
    p.pending.insert(1, copy_op("C:\\a\\x.txt", "D:\\out"));
    assert!(p.handle_op_event(started(1), ConflictDefault::Ask, now).is_empty());
    assert_eq!(p.views.len(), 1);
    assert_eq!(p.selected, Some(1));
    let progress = OpEvent::Progress {
        op_id: 1,
        done_bytes: 40,
        total_bytes: 100,
        done_files: 1,
        total_files: 2,
        current: "x.txt".to_string(),
    };
    assert!(p.handle_op_event(progress, ConflictDefault::Ask, now).is_empty());
    assert_eq!(p.views[0].done_bytes, 40);
    assert_eq!(p.views[0].current, "x.txt");
    let done = OpEvent::Done {
        op_id: 1,
        origin: OpOrigin::User,
        undo: Some(UndoAction::DeletePaths(vec!["D:\\out\\x.txt".to_string()])),
        refresh: vec!["D:\\out".to_string()],
        created: vec!["D:\\out\\x.txt".to_string()],
    };
    let actions = p.handle_op_event(done, ConflictDefault::Ask, now);
    assert_eq!(actions.len(), 2);
    assert!(matches!(&actions[0], PanelAction::SelectCreated(v) if v == &vec!["D:\\out\\x.txt".to_string()]));
    assert!(matches!(&actions[1], PanelAction::Refresh(v) if v == &vec!["D:\\out".to_string()]));
    assert!(p.views[0].finished);
    assert!(p.views[0].error.is_none());
    assert!(p.pending.is_empty());
    assert!(p.undo.can_undo());
}

#[test]
fn panel_answers_clashes_by_the_setting() {
    let now = std::time::Instant::now();
    let mut p = OpsPanel::new();
    let clash = |id: u64| OpEvent::Conflict { op_id: id, source: "C:\\a".to_string(), dest: "D:\\a".to_string() };
    let a = p.handle_op_event(clash(4), ConflictDefault::KeepBoth, now);
    assert!(matches!(a[0], PanelAction::Resolve { op_id: 4, res: ConflictResolution::AutoRename }));
    let a = p.handle_op_event(clash(4), ConflictDefault::Overwrite, now);
    assert!(matches!(a[0], PanelAction::Resolve { op_id: 4, res: ConflictResolution::Overwrite }));
    let a = p.handle_op_event(clash(4), ConflictDefault::Skip, now);
    assert!(matches!(a[0], PanelAction::Resolve { op_id: 4, res: ConflictResolution::Skip }));
    assert!(p.handle_op_event(clash(4), ConflictDefault::Ask, now).is_empty());
    assert_eq!(p.conflict.as_ref().map(|c| c.op_id), Some(4));
    assert!(p.handle_op_event(clash(5), ConflictDefault::Ask, now).is_empty());
    assert_eq!(p.conflict.as_ref().map(|c| c.op_id), Some(4));
    assert_eq!(p.conflict_queue.len(), 1);
}

#[test]
fn panel_reports_failures_and_cancellations() {
    let now = std::time::Instant::now();
    let mut p = OpsPanel::new();
    p.handle_op_event(started(1), ConflictDefault::Ask, now);
    p.handle_op_event(started(2), ConflictDefault::Ask, now);
    let failed = OpEvent::Failed { op_id: 1, origin: OpOrigin::User, error: "disk full".to_string() };
    let a = p.handle_op_event(failed, ConflictDefault::Ask, now);
    assert_eq!(a.len(), 1);
    assert!(matches!(&a[0], PanelAction::Toast { message, is_error: true } if message == "Operation failed: disk full"));
    assert_eq!(p.views[0].error.as_deref(), Some("disk full"));
    assert!(p.handle_op_event(OpEvent::Cancelled { op_id: 2, origin: OpOrigin::User }, ConflictDefault::Ask, now).is_empty());
    assert!(p.views[1].finished);
    assert_eq!(p.views[1].error.as_deref(), Some("cancelled"));
    assert!(!p.undo.can_undo());
}

#[test]
fn panel_drops_finished_rows_when_full() {
    let now = std::time::Instant::now();
    let mut p = OpsPanel::new();
    for id in 1..=12u64 {
        p.handle_op_event(started(id), ConflictDefault::Ask, now);
    }
    let done = OpEvent::Done { op_id: 3, origin: OpOrigin::Undo, undo: None, refresh: vec![], created: vec![] };
    p.handle_op_event(done, ConflictDefault::Ask, now);
    assert_eq!(p.views.len(), 12);
    p.handle_op_event(started(13), ConflictDefault::Ask, now);
    assert_eq!(p.views.len(), 12);
    assert!(p.views.iter().all(|v| v.op_id != 3));
    assert_eq!(p.views.last().unwrap().op_id, 13);
}

use simplecommander::names::{search_batch, NameTable};
use simplecommander::query::Query;
use simplecommander::usn::{index_search, resolve_dir, IndexEntry};

fn entry_of(parent: u64, name: &str, is_dir: bool) -> IndexEntry {
    IndexEntry { parent, name: name.to_string(), name_lower: name.to_lowercase(), is_dir }
}

fn volume() -> HashMap<u64, IndexEntry> {
    let mut m = HashMap::new();
    m.insert(10, entry_of(5, "Users", true));
    m.insert(11, entry_of(10, "me", true));
    m.insert(12, entry_of(11, "notes.txt", false));
    m.insert(13, entry_of(11, "Photo.JPG", false));
    m.insert(14, entry_of(99, "orphan.txt", false));
    m
}

#[test]
fn folder_paths_follow_parents() {
    let m = volume();
    let mut cache = HashMap::new();
    assert_eq!(resolve_dir(&m, 5, 5, 'C', &mut cache).as_deref(), Some("C:"));
    assert_eq!(resolve_dir(&m, 5, 11, 'C', &mut cache).as_deref(), Some("C:\\Users\\me"));
    // Remembered on the way.
    assert_eq!(cache.get(&10).map(|s| s.as_str()), Some("C:\\Users"));
    assert_eq!(resolve_dir(&m, 5, 12, 'C', &mut cache).as_deref(), Some("C:\\Users\\me\\notes.txt"));
    assert_eq!(resolve_dir(&m, 5, 99, 'C', &mut cache), None);
    // A loop in the parents ends without a path.
    let mut looped = HashMap::new();
    looped.insert(1, entry_of(2, "a", true));
    looped.insert(2, entry_of(1, "b", true));
    assert_eq!(resolve_dir(&looped, 5, 1, 'D', &mut HashMap::new()), None);
}

#[test]
fn volume_index_search_finds_every_hit_below_the_limit() {
    let m = volume();
    let q = Query::parse("*.txt");
    let mut out = Vec::new();
    index_search(&m, 5, 'C', &q, Some(".txt"), 10, false, &mut out);
    assert_eq!(out, vec![("C:\\Users\\me\\notes.txt".to_string(), false)]);
    let mut dirs = Vec::new();
    index_search(&m, 5, 'C', &Query::parse(""), None, 10, true, &mut dirs);
    dirs.sort();
    assert_eq!(dirs, vec![("C:\\Users".to_string(), true), ("C:\\Users\\me".to_string(), true)]);
    let mut capped = Vec::new();
    index_search(&m, 5, 'C', &Query::parse(""), None, 2, false, &mut capped);
    assert_eq!(capped.len(), 2);
}

#[test]
fn name_table_gathers_and_searches() {
    let mut t = NameTable::new();
    let root_id = t.dir_id("C:\\home", "");
    let sub_id = t.dir_id("C:\\home", "docs");
    assert_eq!(t.dir_id("C:\\home", "docs"), sub_id);
    assert_eq!(t.dirs, vec!["C:\\home\\".to_string(), "C:\\home\\docs".to_string()]);
    let mut staged = Vec::new();
    let mut shown = Vec::new();
    let fe = |n: &str, a: u32| FsEntry { name: n.to_string(), size: 1, modified: 0, created: 0, attributes: a };
    NameTable::stage(&mut staged, &mut shown, root_id, &[fe("Readme.TXT", 0x20), fe("docs", 0x10)]);
    NameTable::stage(&mut staged, &mut shown, sub_id, &[fe("plan.txt", 0x20), fe("image.png", 0x20)]);
    assert_eq!(staged[0].0, "readme.txt");
    assert!(!t.flush(&mut staged, &mut shown));
    assert!(staged.is_empty());
    assert_eq!(t.names.len(), 4);
    let mut out = Vec::new();
    t.search(&Query::parse("*.txt"), Some(".txt"), 10, &mut out);
    assert_eq!(
        out,
        vec![("C:\\home\\Readme.TXT".to_string(), false), ("C:\\home\\docs\\plan.txt".to_string(), false)]
    );
    let mut one = Vec::new();
    t.search(&Query::parse(""), None, 1, &mut one);
    assert_eq!(one.len(), 1);
    let mut full = vec![("x".to_string(), false)];
    t.search(&Query::parse(""), None, 1, &mut full);
    assert_eq!(full.len(), 1);
}

#[test]
fn tree_batches_stop_at_the_limit() {
    let fe = |n: &str, a: u32| FsEntry { name: n.to_string(), size: 1, modified: 0, created: 0, attributes: a };
    let q = Query::parse("report");
    let mut results = Vec::new();
    let batch = [fe("report.doc", 0x20), fe("other", 0x20), fe("reports", 0x10), fe("report2", 0x20)];
    assert!(search_batch(&mut results, &q, "C:\\w", "sub", &batch, false, 10));
    assert_eq!(
        results,
        vec![
            ("C:\\w\\sub\\report.doc".to_string(), false),
            ("C:\\w\\sub\\reports".to_string(), true),
            ("C:\\w\\sub\\report2".to_string(), false),
        ]
    );
    let mut dirs_only = Vec::new();
    assert!(search_batch(&mut dirs_only, &q, "C:\\w", "", &batch, true, 10));
    assert_eq!(dirs_only, vec![("C:\\w\\reports".to_string(), true)]);
    let mut capped = Vec::new();
    assert!(!search_batch(&mut capped, &q, "C:\\w", "", &batch, false, 2));
    assert_eq!(capped.len(), 2);
}

#[test]
fn record_names_decode_utf16_with_replacement() {
    let mut r = record("x");
    r.file_name = vec![0x61, 0xD83D, 0xDE00, 0xD800, 0x62, 0xDC00, 0];
    let e = find_data_to_entry(&r).expect("a real name");
    assert_eq!(e.name, "a\u{1F600}\u{FFFD}b\u{FFFD}");
    assert_eq!(e.name, String::from_utf16_lossy(&[0x61, 0xD83D, 0xDE00, 0xD800, 0x62, 0xDC00]));
}
