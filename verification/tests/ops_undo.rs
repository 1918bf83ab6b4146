use simplecommander::ops::{
    auto_rename, created_dests, finish_event, next_runnable, paths_overlap, refresh_targets,
    rename_candidate, running_overlap, start_label, touch_paths, transfer_plan, transfer_undo,
    OpEvent, OpOrigin, Operation, UndoAction,
};
use simplecommander::undo::{label_undo, undo_to_ops, UndoJournal};

fn s(x: &str) -> String {
    x.to_string()
}

#[test]
fn overlap_detects_nested_paths() {
    let a = r"C:\foo";
    let b = r"C:\foo\bar";
    assert!(paths_overlap(a, b));
    assert!(!paths_overlap(a, r"D:\foo"));
}

#[test]
fn overlap_is_component_wise() {
    assert!(!paths_overlap(r"C:\foo", r"C:\foobar"));
    assert!(paths_overlap(r"C:\foo\", r"C:/foo"));
}

#[test]
fn undo_then_redo_restores_forward_ops() {
    let mut j = UndoJournal::default();
    let forward = Operation::Copy {
        sources: vec![s(r"C:\a.txt")],
        dest_dir: s(r"D:\"),
    };
    j.record(UndoAction::DeletePaths(vec![s(r"D:\a.txt")]), vec![forward.clone()]);
    assert!(j.can_undo());
    assert!(!j.can_redo());
    let undo_ops = j.pop_undo();
    assert!(matches!(undo_ops[0], Operation::Delete { recycle: true, .. }));
    assert!(j.can_redo());
    let redo_ops = j.pop_redo();
    assert!(matches!(redo_ops[0], Operation::Copy { .. }));
    assert!(j.can_undo());
    assert!(!j.can_redo());
}

#[test]
fn user_record_clears_redo() {
    let mut j = UndoJournal::default();
    j.record(UndoAction::DeletePaths(vec![s(r"D:\a.txt")]), vec![]);
    let _ = j.pop_undo();
    assert!(j.can_redo());
    j.record(UndoAction::DeletePaths(vec![s(r"D:\b.txt")]), vec![]);
    assert!(!j.can_redo());
}

#[test]
fn journal_keeps_at_most_64_entries() {
    let mut j = UndoJournal::new();
    for i in 0..70 {
        j.record(UndoAction::DeletePaths(vec![format!(r"C:\f{i}")]), vec![]);
    }
    let mut n = 0;
    while j.can_undo() {
        let _ = j.pop_undo();
        n += 1;
    }
    assert_eq!(n, 64);
    // The oldest six were dropped: the last undo is entry 6.
    assert_eq!(j.redo_label().unwrap(), "Redo create/copy (1 items)");
}

#[test]
fn empty_journal_pops_nothing() {
    let mut j = UndoJournal::new();
    assert!(j.pop_undo().is_empty());
    assert!(j.pop_redo().is_empty());
    assert_eq!(j.undo_label(), None);
    assert_eq!(j.redo_label(), None);
}

#[test]
fn undo_labels() {
    assert_eq!(label_undo(&UndoAction::DeletePaths(vec![s("a"), s("b")])), "Undo create/copy (2 items)");
    assert_eq!(
        label_undo(&UndoAction::MoveBack { pairs: vec![(s("a"), s("b"))] }),
        "Undo move (1 items)"
    );
    assert_eq!(label_undo(&UndoAction::RenameBack { from: s("a"), to: s("b") }), "Undo rename");
    let mut j = UndoJournal::new();
    j.record(UndoAction::RenameBack { from: s(r"C:\b"), to: s(r"C:\a") }, vec![]);
    assert_eq!(j.undo_label().unwrap(), "Undo rename");
    j.pop_undo();
    assert_eq!(j.redo_label().unwrap(), "Redo rename");
}

#[test]
fn move_back_moves_each_item_to_its_old_folder() {
    let ops = undo_to_ops(&UndoAction::MoveBack {
        pairs: vec![(s(r"C:\src\a.txt"), s(r"D:\dst\a.txt")), (s("noparent"), s(r"D:\x"))],
    });
    // "noparent" has the empty parent, so it still moves back.
    assert_eq!(ops.len(), 2);
    match &ops[0] {
        Operation::Move { sources, dest_dir } => {
            assert_eq!(sources, &vec![s(r"D:\dst\a.txt")]);
            assert_eq!(dest_dir, r"C:\src");
        }
        _ => panic!("expected a move"),
    }
    let none = undo_to_ops(&UndoAction::MoveBack { pairs: vec![(s(r"C:\"), s(r"D:\x"))] });
    assert!(none.is_empty());
}

#[test]
fn operation_labels() {
    let op = Operation::Copy { sources: vec![s("a"), s("b"), s("c")], dest_dir: s(r"D:\dst") };
    assert_eq!(op.label(), r"Copy 3 item(s) to D:\dst");
    assert_eq!(Operation::Delete { paths: vec![s("a")], recycle: true }.label(), "Recycle 1 item(s)");
    assert_eq!(Operation::Delete { paths: vec![], recycle: false }.label(), "Delete 0 item(s)");
    assert_eq!(
        Operation::Rename { from: s(r"C:\x\old.txt"), to: s(r"C:\x\new.txt") }.label(),
        "Rename old.txt to new.txt"
    );
    assert_eq!(Operation::NewFolder { path: s(r"C:\n") }.label(), r"New folder C:\n");
    assert_eq!(
        Operation::RecycleDelete { parsing_names: vec![s("x"), s("y")] }.label(),
        "Delete permanently 2 item(s)"
    );
    assert_eq!(start_label(&op), "Copying 3 item(s)");
    assert_eq!(
        start_label(&Operation::Rename { from: s(r"C:\a"), to: s(r"C:\b\c.txt") }),
        "Rename to c.txt"
    );
}

#[test]
fn touch_and_refresh_targets() {
    let op = Operation::Move {
        sources: vec![s(r"C:\a\x"), s(r"C:\a\y"), s(r"C:\b\z")],
        dest_dir: s(r"D:\d"),
    };
    assert_eq!(touch_paths(&op), vec![s(r"C:\a\x"), s(r"C:\a\y"), s(r"C:\b\z"), s(r"D:\d")]);
    assert_eq!(refresh_targets(&op), vec![s(r"C:\a"), s(r"C:\b"), s(r"D:\d")]);
    let rd = Operation::RecycleDelete { parsing_names: vec![s("q")] };
    assert_eq!(touch_paths(&rd), vec![s(r"recycle:\")]);
    assert_eq!(refresh_targets(&rd), vec![s(r"recycle:\")]);
}

#[test]
fn scheduler_skips_overlapping_work() {
    let pending = vec![
        Operation::Delete { paths: vec![s(r"C:\busy\f")], recycle: true },
        Operation::Delete { paths: vec![s(r"C:\free")], recycle: true },
    ];
    let running = vec![vec![s(r"C:\busy")]];
    assert!(running_overlap(&running, &vec![s(r"C:\busy\f")]));
    assert_eq!(next_runnable(&pending, &running, 2), Some(1));
    assert_eq!(next_runnable(&pending, &running, 1), None);
    assert_eq!(next_runnable(&pending, &running, 0), None);
    assert_eq!(next_runnable(&pending, &vec![], 0), Some(0));
}

#[test]
fn rename_candidates() {
    assert_eq!(rename_candidate(r"C:\d\file.txt", 2), r"C:\d\file (2).txt");
    assert_eq!(rename_candidate(r"C:\d\archive.tar.gz", 3), r"C:\d\archive.tar (3).gz");
    assert_eq!(rename_candidate(r"C:\d\.bashrc", 2), r"C:\d\.bashrc (2)");
    assert_eq!(rename_candidate(r"C:\d\noext", 12), r"C:\d\noext (12)");
    // Nothing exists at these made-up paths, so the first candidate is free.
    assert_eq!(auto_rename(r"Z:\nowhere\file.txt"), r"Z:\nowhere\file (2).txt");
}

#[test]
fn transfer_plans_and_undo() {
    let (pairs, ok) = transfer_plan(&vec![s(r"C:\a\x.txt"), s(r"D:\d\y.txt")], r"D:\d");
    assert!(ok);
    assert_eq!(pairs, vec![(s(r"C:\a\x.txt"), s(r"D:\d\x.txt"))]);
    let (pairs, ok) = transfer_plan(&vec![s(r"C:\a\x.txt"), s(r"C:\"), s(r"C:\b")], r"D:\d");
    assert!(!ok);
    assert_eq!(pairs.len(), 1);
    assert!(transfer_undo(false, vec![], vec![]).is_none());
    assert!(matches!(transfer_undo(true, vec![], vec![]), Some(UndoAction::MoveBack { .. })));
    assert!(matches!(transfer_undo(false, vec![], vec![s("c")]), Some(UndoAction::DeletePaths(_))));
}

#[test]
fn finishing_events() {
    let done = finish_event(7, OpOrigin::User, Ok(Some(UndoAction::RenameBack { from: s("n"), to: s("o") })), vec![]);
    match done {
        OpEvent::Done { op_id, created, .. } => {
            assert_eq!(op_id, 7);
            assert_eq!(created, vec![s("n")]);
        }
        _ => panic!("expected done"),
    }
    assert!(matches!(
        finish_event(1, OpOrigin::Undo, Err(s("__cancelled__")), vec![]),
        OpEvent::Cancelled { op_id: 1, origin: OpOrigin::Undo }
    ));
    assert!(matches!(finish_event(1, OpOrigin::Redo, Err(s("disk full")), vec![]), OpEvent::Failed { .. }));
    assert_eq!(
        created_dests(&Some(UndoAction::MoveBack { pairs: vec![(s("a"), s("b")), (s("c"), s("d"))] })),
        vec![s("b"), s("d")]
    );
}
