//! Undo/redo journal for file operations. Undo and redo hand back operations
//! that run through the queue like any other.
use vstd::prelude::*;
use crate::ops::{Operation, OpV, UndoAction, UndoV, dup_strings, counted_spec};
use crate::paths::{parent, parent_spec};
use crate::text::{decimal, owned};

verus! {

/// How many actions the journal keeps.
pub const MAX_DEPTH: usize = 64;

struct HistoryEntry {
    undo: UndoAction,
    redo_ops: Vec<Operation>,
}

/// One journal entry: the inverse action and the operations that redo it.
pub struct EntryV {
    pub undo: UndoV,
    pub redo_ops: Seq<OpV>,
}

impl HistoryEntry {
    closed spec fn view(&self) -> EntryV {
        EntryV { undo: self.undo@, redo_ops: ops_view(self.redo_ops@) }
    }
}

/// The views of a list of operations.
pub open spec fn ops_view(s: Seq<Operation>) -> Seq<OpV> {
    s.map_values(|o: Operation| o@)
}

/// The two stacks of a journal, oldest first.
pub struct JournalV {
    pub undo: Seq<EntryV>,
    pub redo: Seq<EntryV>,
}

pub struct UndoJournal {
    undo_stack: Vec<HistoryEntry>,
    redo_stack: Vec<HistoryEntry>,
    max_depth: usize,
}

spec fn entries_view(s: Seq<HistoryEntry>) -> Seq<EntryV> {
    s.map_values(|e: HistoryEntry| e.view())
}

impl View for UndoJournal {
    type V = JournalV;

    closed spec fn view(&self) -> JournalV {
        JournalV { undo: entries_view(self.undo_stack@), redo: entries_view(self.redo_stack@) }
    }
}

/// The journal after recording `e`: pushed on the undo stack, the oldest
/// entry dropped past the depth limit, the redo stack emptied.
pub open spec fn record_spec(j: JournalV, e: EntryV) -> JournalV {
    let pushed = j.undo.push(e);
    JournalV {
        undo: if pushed.len() > MAX_DEPTH { pushed.drop_first() } else { pushed },
        redo: Seq::empty(),
    }
}

/// The journal after an undo: the newest undo entry moved onto the redo stack.
pub open spec fn after_undo(j: JournalV) -> JournalV {
    if j.undo.len() == 0 {
        j
    } else {
        JournalV { undo: j.undo.drop_last(), redo: j.redo.push(j.undo.last()) }
    }
}

/// The journal after a redo: the newest redo entry moved onto the undo stack.
pub open spec fn after_redo(j: JournalV) -> JournalV {
    if j.redo.len() == 0 {
        j
    } else {
        JournalV { undo: j.undo.push(j.redo.last()), redo: j.redo.drop_last() }
    }
}

/// The operations that undo an action: delete what was created (to the
/// recycle bin), move each moved item back to its original folder, or rename
/// back.
pub open spec fn undo_ops_spec(a: UndoV) -> Seq<OpV> {
    match a {
        UndoV::DeletePaths(paths) => seq![OpV::Delete { paths: paths, recycle: true }],
        UndoV::MoveBack { pairs } => move_back_ops(pairs),
        UndoV::RenameBack { from, to } => seq![OpV::Rename { from: from, to: to }],
    }
}

/// One move per pair whose original path has a parent, in order.
pub open spec fn move_back_ops(pairs: Seq<(Seq<char>, Seq<char>)>) -> Seq<OpV>
    decreases pairs.len(),
{
    if pairs.len() == 0 {
        Seq::empty()
    } else {
        let r = move_back_ops(pairs.drop_last());
        match parent_spec(pairs.last().0) {
            Some(dest) => r.push(OpV::Move { sources: seq![pairs.last().1], dest_dir: dest }),
            None => r,
        }
    }
}

/// The label of the undo of an action.
pub open spec fn undo_label_spec(a: UndoV) -> Seq<char> {
    match a {
        UndoV::DeletePaths(p) => counted_spec("Undo create/copy ("@, p.len(), " items)"@),
        UndoV::MoveBack { pairs } => counted_spec("Undo move ("@, pairs.len(), " items)"@),
        UndoV::RenameBack { .. } => "Undo rename"@,
    }
}

/// The label of the redo of an action.
pub open spec fn redo_label_spec(a: UndoV) -> Seq<char> {
    match a {
        UndoV::DeletePaths(p) => counted_spec("Redo create/copy ("@, p.len(), " items)"@),
        UndoV::MoveBack { pairs } => counted_spec("Redo move ("@, pairs.len(), " items)"@),
        UndoV::RenameBack { .. } => "Redo rename"@,
    }
}

fn counted(prefix: &str, n: usize, suffix: &str) -> (r: String)
    ensures
        r@ == counted_spec(prefix@, n as nat, suffix@),
{
    let mut s = owned(prefix);
    let d = decimal(n as u64);
    s.append(d.as_str());
    s.append(suffix);
    s
}

fn dup_ops(v: &Vec<Operation>) -> (r: Vec<Operation>)
    ensures
        ops_view(r@) == ops_view(v@),
{
    let mut r: Vec<Operation> = Vec::new();
    let mut i: usize = 0;
    while i < v.len()
        invariant
            i <= v.len(),
            ops_view(r@) =~= ops_view(v@).take(i as int),
        decreases v.len() - i,
    {
        let d = v[i].dup();
        let ghost before = r@;
        r.push(d);
        assert(r@ =~= before.push(d));
        assert(ops_view(r@) =~= ops_view(before).push(d@));
        i += 1;
        assert(ops_view(r@) =~= ops_view(v@).take(i as int));
    }
    assert(ops_view(v@).take(v.len() as int) =~= ops_view(v@));
    r
}

/// The label of the undo of an action.
pub fn label_undo(action: &UndoAction) -> (r: String)
    ensures
        r@ == undo_label_spec(action@),
{
    match action {
        UndoAction::DeletePaths(p) => counted("Undo create/copy (", p.len(), " items)"),
        UndoAction::MoveBack { pairs } => counted("Undo move (", pairs.len(), " items)"),
        UndoAction::RenameBack { .. } => owned("Undo rename"),
    }
}

/// The operations that undo `action`.
pub fn undo_to_ops(action: &UndoAction) -> (r: Vec<Operation>)
    ensures
        ops_view(r@) == undo_ops_spec(action@),
{
    match action {
        UndoAction::DeletePaths(paths) => {
            let v = vec![Operation::Delete { paths: dup_strings(paths), recycle: true }];
            assert(ops_view(v@) =~= undo_ops_spec(action@));
            v
        },
        UndoAction::MoveBack { pairs } => {
            let ghost pv = pairs.deep_view();
            let mut r: Vec<Operation> = Vec::new();
            let mut i: usize = 0;
            while i < pairs.len()
                invariant
                    i <= pairs.len(),
                    pv == pairs.deep_view(),
                    ops_view(r@) == move_back_ops(pv.take(i as int)),
                decreases pairs.len() - i,
            {
                assert(pv.take(i + 1).drop_last() =~= pv.take(i as int));
                assert(pv.take(i + 1).last() == pv[i as int]);
                match parent(pairs[i].0.as_str()) {
                    Some(dest) => {
                        let moved = pairs[i].1.clone();
                        let srcs = vec![moved];
                        assert(srcs.deep_view() =~= seq![pv[i as int].1]);
                        let ghost before = ops_view(r@);
                        r.push(Operation::Move { sources: srcs, dest_dir: dest });
                        assert(ops_view(r@) =~= before.push(
                            OpV::Move { sources: seq![pv[i as int].1], dest_dir: dest@ },
                        ));
                    },
                    None => {},
                }
                i += 1;
            }
            assert(pv.take(pairs.len() as int) =~= pv);
            r
        },
        UndoAction::RenameBack { from, to } => {
            let v = vec![Operation::Rename { from: from.clone(), to: to.clone() }];
            assert(ops_view(v@) =~= undo_ops_spec(action@));
            v
        },
    }
}

impl UndoJournal {
    #[verifier::type_invariant]
    spec fn well_formed(self) -> bool {
        &&& self.max_depth == MAX_DEPTH
        &&& self.undo_stack.len() + self.redo_stack.len() <= MAX_DEPTH
    }

    /// An empty journal.
    pub fn new() -> (r: UndoJournal)
        ensures
            r@.undo.len() == 0,
            r@.redo.len() == 0,
    {
        let r = UndoJournal { undo_stack: Vec::new(), redo_stack: Vec::new(), max_depth: MAX_DEPTH };
        assert(r@.undo =~= Seq::<EntryV>::empty());
        r
    }

    /// Every journal holds at most `MAX_DEPTH` entries over both stacks.
    pub fn depth_bound(&self)
        ensures
            self@.undo.len() + self@.redo.len() <= MAX_DEPTH,
    {
        proof {
            use_type_invariant(self);
        }
    }

    /// Records a user action and the operations that redo it. Clears the
    /// redo stack.
    pub fn record(&mut self, action: UndoAction, redo_ops: Vec<Operation>)
        ensures
            final(self)@ == record_spec(
                old(self)@,
                EntryV { undo: action@, redo_ops: ops_view(redo_ops@) },
            ),
            final(self)@.undo.len() + final(self)@.redo.len() <= MAX_DEPTH,
    {
        proof {
            use_type_invariant(&*self);
        }
        let ghost j0 = self@;
        let e = HistoryEntry { undo: action, redo_ops };
        let ghost ev = e.view();
        let mut undo_stack: Vec<HistoryEntry> = Vec::new();
        std::mem::swap(&mut undo_stack, &mut self.undo_stack);
        let mut redo_stack: Vec<HistoryEntry> = Vec::new();
        std::mem::swap(&mut redo_stack, &mut self.redo_stack);
        assert(entries_view(undo_stack@) == j0.undo);
        undo_stack.push(e);
        assert(entries_view(undo_stack@) =~= j0.undo.push(ev));
        if undo_stack.len() > self.max_depth {
            let _ = undo_stack.remove(0);
            assert(entries_view(undo_stack@) =~= j0.undo.push(ev).drop_first());
        }
        redo_stack.clear();
        self.undo_stack = undo_stack;
        self.redo_stack = redo_stack;
        assert(self@.redo =~= Seq::<EntryV>::empty());
    }

    /// Whether there is an action to undo.
    pub fn can_undo(&self) -> (r: bool)
        ensures
            r == (self@.undo.len() > 0),
    {
        self.undo_stack.len() > 0
    }

    /// Whether there is an action to redo.
    pub fn can_redo(&self) -> (r: bool)
        ensures
            r == (self@.redo.len() > 0),
    {
        self.redo_stack.len() > 0
    }

    /// The label of the next undo.
    pub fn undo_label(&self) -> (r: Option<String>)
        ensures
            self@.undo.len() == 0 ==> r is None,
            self@.undo.len() > 0 ==> (r matches Some(s) && s@ == undo_label_spec(
                self@.undo.last().undo,
            )),
    {
        let n = self.undo_stack.len();
        if n == 0 {
            None
        } else {
            Some(label_undo(&self.undo_stack[n - 1].undo))
        }
    }

    /// The label of the next redo.
    pub fn redo_label(&self) -> (r: Option<String>)
        ensures
            self@.redo.len() == 0 ==> r is None,
            self@.redo.len() > 0 ==> (r matches Some(s) && s@ == redo_label_spec(
                self@.redo.last().undo,
            )),
    {
        let n = self.redo_stack.len();
        if n == 0 {
            None
        } else {
            let s = match &self.redo_stack[n - 1].undo {
                UndoAction::DeletePaths(p) => counted("Redo create/copy (", p.len(), " items)"),
                UndoAction::MoveBack { pairs } => counted("Redo move (", pairs.len(), " items)"),
                UndoAction::RenameBack { .. } => owned("Redo rename"),
            };
            Some(s)
        }
    }

    /// Moves the newest undo entry onto the redo stack and returns the
    /// operations that undo it (none when there is nothing to undo).
    pub fn pop_undo(&mut self) -> (r: Vec<Operation>)
        ensures
            final(self)@ == after_undo(old(self)@),
            old(self)@.undo.len() == 0 ==> r@.len() == 0,
            old(self)@.undo.len() > 0 ==> ops_view(r@) == undo_ops_spec(old(self)@.undo.last().undo),
    {
        proof {
            use_type_invariant(&*self);
        }
        let ghost j0 = self@;
        let mut undo_stack: Vec<HistoryEntry> = Vec::new();
        std::mem::swap(&mut undo_stack, &mut self.undo_stack);
        let mut redo_stack: Vec<HistoryEntry> = Vec::new();
        std::mem::swap(&mut redo_stack, &mut self.redo_stack);
        match undo_stack.pop() {
            None => {
                self.undo_stack = undo_stack;
                self.redo_stack = redo_stack;
                Vec::new()
            },
            Some(entry) => {
                assert(entries_view(undo_stack@) =~= j0.undo.drop_last());
                let ops = undo_to_ops(&entry.undo);
                let ghost ev = entry.view();
                redo_stack.push(entry);
                assert(entries_view(redo_stack@) =~= j0.redo.push(ev));
                self.undo_stack = undo_stack;
                self.redo_stack = redo_stack;
                ops
            },
        }
    }

    /// Moves the newest redo entry onto the undo stack and returns the
    /// operations recorded with it (none when there is nothing to redo).
    pub fn pop_redo(&mut self) -> (r: Vec<Operation>)
        ensures
            final(self)@ == after_redo(old(self)@),
            old(self)@.redo.len() == 0 ==> r@.len() == 0,
            old(self)@.redo.len() > 0 ==> ops_view(r@) == old(self)@.redo.last().redo_ops,
    {
        proof {
            use_type_invariant(&*self);
        }
        let ghost j0 = self@;
        let mut undo_stack: Vec<HistoryEntry> = Vec::new();
        std::mem::swap(&mut undo_stack, &mut self.undo_stack);
        let mut redo_stack: Vec<HistoryEntry> = Vec::new();
        std::mem::swap(&mut redo_stack, &mut self.redo_stack);
        match redo_stack.pop() {
            None => {
                self.undo_stack = undo_stack;
                self.redo_stack = redo_stack;
                Vec::new()
            },
            Some(entry) => {
                assert(entries_view(redo_stack@) =~= j0.redo.drop_last());
                let ops = dup_ops(&entry.redo_ops);
                let ghost ev = entry.view();
                undo_stack.push(entry);
                assert(entries_view(undo_stack@) =~= j0.undo.push(ev));
                self.undo_stack = undo_stack;
                self.redo_stack = redo_stack;
                ops
            },
        }
    }
}

impl Default for UndoJournal {
    fn default() -> (r: UndoJournal)
        ensures
            r@.undo.len() == 0,
            r@.redo.len() == 0,
    {
        UndoJournal::new()
    }
}

/// A redo right after an undo puts the journal back as it was.
pub proof fn law_redo_after_undo(j: JournalV)
    requires
        j.undo.len() > 0,
    ensures
        after_redo(after_undo(j)) == j,
        after_undo(j).redo.last().redo_ops == j.undo.last().redo_ops,
{
    assert(after_redo(after_undo(j)).undo =~= j.undo);
    assert(after_redo(after_undo(j)).redo =~= j.redo);
}

/// An undo right after a redo puts the journal back as it was.
pub proof fn law_undo_after_redo(j: JournalV)
    requires
        j.redo.len() > 0,
    ensures
        after_undo(after_redo(j)) == j,
{
    assert(after_undo(after_redo(j)).undo =~= j.undo);
    assert(after_undo(after_redo(j)).redo =~= j.redo);
}

/// Recording leaves nothing to redo, and keeps the recorded entry as the
/// next one to undo.
pub proof fn law_record_clears_redo(j: JournalV, e: EntryV)
    requires
        j.undo.len() <= MAX_DEPTH,
    ensures
        record_spec(j, e).redo.len() == 0,
        record_spec(j, e).undo.len() > 0,
        record_spec(j, e).undo.last() == e,
        record_spec(j, e).undo.len() <= MAX_DEPTH,
{
}


/// The journal after recording `es` in order.
pub open spec fn record_all(j: JournalV, es: Seq<EntryV>) -> JournalV
    decreases es.len(),
{
    if es.len() == 0 {
        j
    } else {
        record_spec(record_all(j, es.drop_last()), es.last())
    }
}

/// Of the actions recorded on an empty journal, exactly the newest
/// `MAX_DEPTH` stay undoable, newest last, and nothing is left to redo.
pub proof fn law_newest_entries_stay(es: Seq<EntryV>)
    ensures
        record_all(JournalV { undo: Seq::empty(), redo: Seq::empty() }, es).undo
            == es.skip(if es.len() > MAX_DEPTH { es.len() - MAX_DEPTH } else { 0 }),
        es.len() > 0 ==> record_all(JournalV { undo: Seq::empty(), redo: Seq::empty() }, es).redo.len() == 0,
    decreases es.len(),
{
    let e0 = JournalV { undo: Seq::empty(), redo: Seq::empty() };
    if es.len() > 0 {
        let p = es.drop_last();
        law_newest_entries_stay(p);
        let k = if p.len() > MAX_DEPTH { p.len() - MAX_DEPTH } else { 0 };
        let u = p.skip(k);
        let pushed = u.push(es.last());
        if pushed.len() > MAX_DEPTH {
            assert(pushed.drop_first() =~= es.skip(es.len() - MAX_DEPTH));
        } else {
            assert(pushed =~= es.skip(0));
        }
    } else {
        assert(es.skip(0) =~= Seq::<EntryV>::empty());
    }
}

} // verus!
