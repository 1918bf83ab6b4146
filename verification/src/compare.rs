//! Folder compare between the two panes: two listings, each keyed by the
//! path relative to its folder and sorted by it, merged into one row per name.
use vstd::prelude::*;
use std::collections::HashSet;
use crate::order::{lex, lex_range, lemma_lex_zero};
use crate::text::chars_of;
use crate::ops::{Operation, OpV};

verus! {

#[derive(Clone, Copy, Debug, PartialEq, Eq, Structural)]
pub enum CompareKind {
    Same,
    LeftOnly,
    RightOnly,
    NewerLeft,
    NewerRight,
}

impl CompareKind {
    pub fn label(self) -> (r: &'static str)
        ensures
            r@ == kind_label(self),
    {
        match self {
            CompareKind::Same => "Same",
            CompareKind::LeftOnly => "Left only",
            CompareKind::RightOnly => "Right only",
            CompareKind::NewerLeft => "Newer left",
            CompareKind::NewerRight => "Newer right",
        }
    }
}

pub open spec fn kind_label(k: CompareKind) -> Seq<char> {
    match k {
        CompareKind::Same => "Same"@,
        CompareKind::LeftOnly => "Left only"@,
        CompareKind::RightOnly => "Right only"@,
        CompareKind::NewerLeft => "Newer left"@,
        CompareKind::NewerRight => "Newer right"@,
    }
}

/// One compared name.
#[derive(Clone, Debug)]
pub struct CompareRow {
    pub rel: String,
    pub kind: CompareKind,
    pub left: Option<String>,
    pub right: Option<String>,
    pub is_dir: bool,
}

/// A row with its strings taken as character sequences.
pub struct RowV {
    pub rel: Seq<char>,
    pub kind: CompareKind,
    pub left: Option<Seq<char>>,
    pub right: Option<Seq<char>>,
    pub is_dir: bool,
}

pub open spec fn opt_chars(o: Option<String>) -> Option<Seq<char>> {
    match o {
        Some(s) => Some(s@),
        None => None,
    }
}

impl View for CompareRow {
    type V = RowV;

    open spec fn view(&self) -> RowV {
        RowV {
            rel: self.rel@,
            kind: self.kind,
            left: opt_chars(self.left),
            right: opt_chars(self.right),
            is_dir: self.is_dir,
        }
    }
}

#[derive(Clone, Copy, Debug, PartialEq, Eq, Structural)]
pub enum CompareFilter {
    All,
    LeftOnly,
    RightOnly,
    Different,
    Same,
}

impl CompareFilter {
    pub fn label(self) -> (r: &'static str)
        ensures
            r@ == filter_label(self),
    {
        match self {
            CompareFilter::All => "All",
            CompareFilter::LeftOnly => "Left only",
            CompareFilter::RightOnly => "Right only",
            CompareFilter::Different => "Different",
            CompareFilter::Same => "Same",
        }
    }

    /// Whether rows of `kind` are shown under this filter.
    pub fn matches(self, kind: CompareKind) -> (r: bool)
        ensures
            r == filter_shows(self, kind),
    {
        match self {
            CompareFilter::All => true,
            CompareFilter::LeftOnly => kind == CompareKind::LeftOnly,
            CompareFilter::RightOnly => kind == CompareKind::RightOnly,
            CompareFilter::Same => kind == CompareKind::Same,
            CompareFilter::Different => match kind {
                CompareKind::NewerLeft | CompareKind::NewerRight | CompareKind::LeftOnly
                | CompareKind::RightOnly => true,
                CompareKind::Same => false,
            },
        }
    }
}

pub open spec fn filter_label(f: CompareFilter) -> Seq<char> {
    match f {
        CompareFilter::All => "All"@,
        CompareFilter::LeftOnly => "Left only"@,
        CompareFilter::RightOnly => "Right only"@,
        CompareFilter::Different => "Different"@,
        CompareFilter::Same => "Same"@,
    }
}

/// `All` shows everything, `Different` everything but `Same`, the others
/// exactly their own kind.
pub open spec fn filter_shows(f: CompareFilter, k: CompareKind) -> bool {
    match f {
        CompareFilter::All => true,
        CompareFilter::LeftOnly => k == CompareKind::LeftOnly,
        CompareFilter::RightOnly => k == CompareKind::RightOnly,
        CompareFilter::Same => k == CompareKind::Same,
        CompareFilter::Different => k != CompareKind::Same,
    }
}

/// State of the folder-compare window.
pub struct FolderCompareState {
    pub open: bool,
    pub left: String,
    pub right: String,
    pub include_subfolders: bool,
    pub filter: CompareFilter,
    pub rows: Vec<CompareRow>,
    pub running: bool,
    pub query_id: u64,
    pub selected: HashSet<usize>,
}

impl Default for FolderCompareState {
    fn default() -> (r: FolderCompareState)
        ensures
            !r.open && !r.running && !r.include_subfolders,
            r.left@.len() == 0 && r.right@.len() == 0,
            r.filter == CompareFilter::All,
            r.rows@.len() == 0,
            r.query_id == 0,
            r.selected@.len() == 0,
    {
        let selected: HashSet<usize> = HashSet::new();
        FolderCompareState {
            open: false,
            left: String::new(),
            right: String::new(),
            include_subfolders: false,
            filter: CompareFilter::All,
            rows: Vec::new(),
            running: false,
            query_id: 0,
            selected,
        }
    }
}

/// One listed item of a folder: its path relative to the compared folder,
/// its full path, size, modification time (Unix seconds) and kind.
#[derive(Clone, Debug)]
pub struct ListedItem {
    pub rel: String,
    pub path: String,
    pub size: u64,
    pub mtime: u64,
    pub is_dir: bool,
}

pub struct ItemV {
    pub rel: Seq<char>,
    pub path: Seq<char>,
    pub size: u64,
    pub mtime: u64,
    pub is_dir: bool,
}

impl View for ListedItem {
    type V = ItemV;

    open spec fn view(&self) -> ItemV {
        ItemV { rel: self.rel@, path: self.path@, size: self.size, mtime: self.mtime, is_dir: self.is_dir }
    }
}

pub open spec fn items_view(s: Seq<ListedItem>) -> Seq<ItemV> {
    s.map_values(|i: ListedItem| i@)
}

pub open spec fn rows_view(s: Seq<CompareRow>) -> Seq<RowV> {
    s.map_values(|r: CompareRow| r@)
}

/// How a name present on both sides compares: two folders are the same;
/// equal size and time are the same; otherwise the newer side wins, and a
/// size difference at equal times counts as newer on the left.
pub open spec fn both_kind(l: ItemV, r: ItemV) -> CompareKind {
    if l.is_dir && r.is_dir {
        CompareKind::Same
    } else if l.size == r.size && l.mtime == r.mtime {
        CompareKind::Same
    } else if l.mtime > r.mtime {
        CompareKind::NewerLeft
    } else if r.mtime > l.mtime {
        CompareKind::NewerRight
    } else {
        CompareKind::NewerLeft
    }
}

pub open spec fn left_row(l: ItemV) -> RowV {
    RowV { rel: l.rel, kind: CompareKind::LeftOnly, left: Some(l.path), right: None, is_dir: l.is_dir }
}

pub open spec fn right_row(r: ItemV) -> RowV {
    RowV { rel: r.rel, kind: CompareKind::RightOnly, left: None, right: Some(r.path), is_dir: r.is_dir }
}

pub open spec fn both_row(l: ItemV, r: ItemV) -> RowV {
    RowV {
        rel: l.rel,
        kind: both_kind(l, r),
        left: Some(l.path),
        right: Some(r.path),
        is_dir: l.is_dir || r.is_dir,
    }
}

/// The rows of two listings sorted by relative path: a merge that takes the
/// smaller name first and pairs up equal names.
pub open spec fn merge_rows(l: Seq<ItemV>, r: Seq<ItemV>) -> Seq<RowV>
    decreases l.len() + r.len(),
{
    if l.len() == 0 && r.len() == 0 {
        Seq::empty()
    } else if r.len() == 0 {
        seq![left_row(l[0])] + merge_rows(l.drop_first(), r)
    } else if l.len() == 0 {
        seq![right_row(r[0])] + merge_rows(l, r.drop_first())
    } else if lex(l[0].rel, r[0].rel) < 0 {
        seq![left_row(l[0])] + merge_rows(l.drop_first(), r)
    } else if lex(l[0].rel, r[0].rel) > 0 {
        seq![right_row(r[0])] + merge_rows(l, r.drop_first())
    } else {
        seq![both_row(l[0], r[0])] + merge_rows(l.drop_first(), r.drop_first())
    }
}

/// A name listed on both sides, not a folder on both, with different
/// modification times, gives one row that pairs the two paths and says the
/// side modified later is newer.
pub proof fn law_later_side_is_newer(l: ItemV, r: ItemV)
    requires
        l.rel == r.rel,
        !(l.is_dir && r.is_dir),
        l.mtime != r.mtime,
    ensures
        merge_rows(seq![l], seq![r]).len() == 1,
        merge_rows(seq![l], seq![r])[0].left == Some(l.path),
        merge_rows(seq![l], seq![r])[0].right == Some(r.path),
        (merge_rows(seq![l], seq![r])[0].kind == CompareKind::NewerLeft) == (l.mtime > r.mtime),
        (merge_rows(seq![l], seq![r])[0].kind == CompareKind::NewerRight) == (r.mtime > l.mtime),
{
    lemma_lex_zero(l.rel, r.rel);
    let rest = merge_rows(seq![l].drop_first(), seq![r].drop_first());
    assert(seq![l].drop_first() =~= Seq::<ItemV>::empty());
    assert(seq![r].drop_first() =~= Seq::<ItemV>::empty());
    assert(rest =~= Seq::<RowV>::empty());
    assert(merge_rows(seq![l], seq![r]) =~= seq![both_row(l, r)]);
}

/// A name listed on one side only gives one row for that side alone.
pub proof fn law_one_sided_names(l: ItemV, r: ItemV)
    ensures
        merge_rows(seq![l], Seq::empty()) == seq![RowV { rel: l.rel, kind: CompareKind::LeftOnly, left: Some(l.path), right: None, is_dir: l.is_dir }],
        merge_rows(Seq::empty(), seq![r]) == seq![RowV { rel: r.rel, kind: CompareKind::RightOnly, left: None, right: Some(r.path), is_dir: r.is_dir }],
        lex(l.rel, r.rel) < 0 ==> merge_rows(seq![l], seq![r]) == seq![left_row(l), right_row(r)],
        lex(l.rel, r.rel) > 0 ==> merge_rows(seq![l], seq![r]) == seq![right_row(r), left_row(l)],
{
    let e = Seq::<ItemV>::empty();
    assert(seq![l].drop_first() =~= e);
    assert(seq![r].drop_first() =~= e);
    assert(merge_rows(e, e) =~= Seq::<RowV>::empty());
    assert(merge_rows(seq![l], e) =~= seq![left_row(l)]);
    assert(merge_rows(e, seq![r]) =~= seq![right_row(r)]);
    assert(seq![left_row(l)] + seq![right_row(r)] =~= seq![left_row(l), right_row(r)]);
    assert(seq![right_row(r)] + seq![left_row(l)] =~= seq![right_row(r), left_row(l)]);
}

/// A name on both sides with the same size and modification time, or a
/// folder on both, is the same.
pub proof fn law_equal_items_are_same(l: ItemV, r: ItemV)
    requires
        (l.size == r.size && l.mtime == r.mtime) || (l.is_dir && r.is_dir),
    ensures
        both_row(l, r).kind == CompareKind::Same,
{
}

fn lex_strings(a: &str, b: &str) -> (r: i8)
    ensures
        r as int == lex(a@, b@),
{
    let av = chars_of(a);
    let bv = chars_of(b);
    let r = lex_range(&av, 0, av.len(), &bv, 0, bv.len());
    assert(av@.subrange(0, av@.len() as int) =~= av@);
    assert(bv@.subrange(0, bv@.len() as int) =~= bv@);
    r
}

fn row_of(rel: &String, kind: CompareKind, left: Option<&String>, right: Option<&String>, is_dir: bool) -> (r: CompareRow)
    ensures
        r.rel@ == rel@,
        r.kind == kind,
        r.is_dir == is_dir,
        r.left matches Some(s) ==> left matches Some(t) && s@ == t@,
        r.left is None ==> left is None,
        r.right matches Some(s) ==> right matches Some(t) && s@ == t@,
        r.right is None ==> right is None,
{
    CompareRow {
        rel: rel.clone(),
        kind,
        left: match left { Some(s) => Some(s.clone()), None => None },
        right: match right { Some(s) => Some(s.clone()), None => None },
        is_dir,
    }
}

/// Compares two folder listings, each sorted by relative path with no name
/// twice (as a directory walk keyed by name gives them): one row per name,
/// in name order.
pub fn compare_folders(left: &Vec<ListedItem>, right: &Vec<ListedItem>) -> (rows: Vec<CompareRow>)
    ensures
        rows_view(rows@) == merge_rows(items_view(left@), items_view(right@)),
{
    let ghost lv = items_view(left@);
    let ghost rv = items_view(right@);
    let mut rows: Vec<CompareRow> = Vec::new();
    let mut i: usize = 0;
    let mut j: usize = 0;
    assert(lv.skip(0) =~= lv);
    assert(rv.skip(0) =~= rv);
    assert(rows_view(rows@) =~= Seq::<RowV>::empty());
    assert(Seq::<RowV>::empty() + merge_rows(lv, rv) =~= merge_rows(lv, rv));
    while i < left.len() || j < right.len()
        invariant
            i <= left.len(),
            j <= right.len(),
            lv == items_view(left@),
            rv == items_view(right@),
            rows_view(rows@) + merge_rows(lv.skip(i as int), rv.skip(j as int)) == merge_rows(lv, rv),
        decreases left.len() + right.len() - i - j,
    {
        let ghost ls = lv.skip(i as int);
        let ghost rs = rv.skip(j as int);
        let ghost before = rows_view(rows@);
        let step: i8 = if j >= right.len() {
            -1
        } else if i >= left.len() {
            1
        } else {
            lex_strings(left[i].rel.as_str(), right[j].rel.as_str())
        };
        if step < 0 {
            let l = &left[i];
            let row = row_of(&l.rel, CompareKind::LeftOnly, Some(&l.path), None, l.is_dir);
            assert(row@ == left_row(ls[0]));
            rows.push(row);
            assert(ls.drop_first() =~= lv.skip(i + 1));
            assert(rows_view(rows@) =~= before + seq![left_row(ls[0])]);
            i += 1;
        } else if step > 0 {
            let r = &right[j];
            let row = row_of(&r.rel, CompareKind::RightOnly, None, Some(&r.path), r.is_dir);
            assert(row@ == right_row(rs[0]));
            rows.push(row);
            assert(rs.drop_first() =~= rv.skip(j + 1));
            assert(rows_view(rows@) =~= before + seq![right_row(rs[0])]);
            j += 1;
        } else {
            let l = &left[i];
            let r = &right[j];
            let kind = if l.is_dir && r.is_dir {
                CompareKind::Same
            } else if l.size == r.size && l.mtime == r.mtime {
                CompareKind::Same
            } else if l.mtime > r.mtime {
                CompareKind::NewerLeft
            } else if r.mtime > l.mtime {
                CompareKind::NewerRight
            } else {
                CompareKind::NewerLeft
            };
            let row = row_of(&l.rel, kind, Some(&l.path), Some(&r.path), l.is_dir || r.is_dir);
            assert(row@ == both_row(ls[0], rs[0]));
            rows.push(row);
            assert(ls.drop_first() =~= lv.skip(i + 1));
            assert(rs.drop_first() =~= rv.skip(j + 1));
            assert(rows_view(rows@) =~= before + seq![both_row(ls[0], rs[0])]);
            i += 1;
            j += 1;
        }
        assert(rows_view(rows@) + merge_rows(lv.skip(i as int), rv.skip(j as int)) =~= before
            + merge_rows(ls, rs));
    }
    assert(lv.skip(i as int) =~= Seq::<ItemV>::empty());
    assert(rv.skip(j as int) =~= Seq::<ItemV>::empty());
    assert(rows_view(rows@) =~= rows_view(rows@) + Seq::<RowV>::empty());
    rows
}


/// A button under the compare list.
#[derive(Clone, Copy, Debug, PartialEq, Eq, Structural)]
pub enum CompareAction {
    CopyToRight,
    CopyToLeft,
    DeleteSelected,
}

/// What one selected row asks for: folders are skipped; a copy takes the
/// row's file on the source side into the other compared folder; a delete
/// sends the row's files on both sides to the recycle bin.
pub open spec fn row_op(row: RowV, action: CompareAction, left: Seq<char>, right: Seq<char>) -> Option<OpV> {
    if row.is_dir {
        None
    } else {
        match action {
            CompareAction::CopyToRight => match row.left {
                Some(p) => Some(OpV::Copy { sources: seq![p], dest_dir: right }),
                None => None,
            },
            CompareAction::CopyToLeft => match row.right {
                Some(p) => Some(OpV::Copy { sources: seq![p], dest_dir: left }),
                None => None,
            },
            CompareAction::DeleteSelected => {
                let paths = opt_seq(row.left) + opt_seq(row.right);
                if paths.len() == 0 { None } else { Some(OpV::Delete { paths, recycle: true }) }
            },
        }
    }
}

pub open spec fn opt_seq(o: Option<Seq<char>>) -> Seq<Seq<char>> {
    match o {
        Some(p) => seq![p],
        None => Seq::empty(),
    }
}

/// The operations for the rows at `picked`, in that order (an index past
/// the rows is skipped).
pub open spec fn compare_ops_spec(rows: Seq<RowV>, picked: Seq<usize>, action: CompareAction, left: Seq<char>, right: Seq<char>) -> Seq<OpV>
    decreases picked.len(),
{
    if picked.len() == 0 {
        Seq::empty()
    } else {
        let prev = compare_ops_spec(rows, picked.drop_last(), action, left, right);
        let i = picked.last() as int;
        if i < rows.len() {
            match row_op(rows[i], action, left, right) {
                Some(o) => prev.push(o),
                None => prev,
            }
        } else {
            prev
        }
    }
}

fn one_row_op(row: &CompareRow, action: CompareAction, left: &str, right: &str) -> (r: Option<Operation>)
    ensures
        match r {
            Some(o) => row_op(row@, action, left@, right@) == Some(o@),
            None => row_op(row@, action, left@, right@) is None,
        },
{
    if row.is_dir {
        return None;
    }
    match action {
        CompareAction::CopyToRight => match &row.left {
            Some(p) => {
                let sources = vec![p.clone()];
                let op = Operation::Copy { sources, dest_dir: crate::text::owned(right) };
                assert(op@ == OpV::Copy { sources: seq![p@], dest_dir: right@ }) by {
                    assert(sources.deep_view() =~= seq![p@]);
                }
                Some(op)
            },
            None => None,
        },
        CompareAction::CopyToLeft => match &row.right {
            Some(p) => {
                let sources = vec![p.clone()];
                let op = Operation::Copy { sources, dest_dir: crate::text::owned(left) };
                assert(op@ == OpV::Copy { sources: seq![p@], dest_dir: left@ }) by {
                    assert(sources.deep_view() =~= seq![p@]);
                }
                Some(op)
            },
            None => None,
        },
        CompareAction::DeleteSelected => {
            let mut paths: Vec<String> = Vec::new();
            if let Some(p) = &row.left {
                paths.push(p.clone());
            }
            assert(paths.deep_view() =~= opt_seq(opt_chars(row.left)));
            if let Some(p) = &row.right {
                paths.push(p.clone());
            }
            assert(paths.deep_view() =~= opt_seq(opt_chars(row.left)) + opt_seq(opt_chars(row.right)));
            if paths.len() == 0 {
                None
            } else {
                Some(Operation::Delete { paths, recycle: true })
            }
        },
    }
}

/// The operations that a compare button submits for the rows at `picked`.
pub fn compare_ops(rows: &Vec<CompareRow>, picked: &Vec<usize>, action: CompareAction, left: &str, right: &str) -> (r: Vec<Operation>)
    ensures
        r@.map_values(|o: Operation| o@) == compare_ops_spec(rows_view(rows@), picked@, action, left@, right@),
{
    let mut out: Vec<Operation> = Vec::new();
    let mut k: usize = 0;
    while k < picked.len()
        invariant
            k <= picked@.len(),
            out@.map_values(|o: Operation| o@) == compare_ops_spec(rows_view(rows@), picked@.take(k as int), action, left@, right@),
        decreases picked@.len() - k,
    {
        assert(picked@.take(k + 1).drop_last() =~= picked@.take(k as int));
        assert(picked@.take(k + 1).last() == picked@[k as int]);
        let i = picked[k];
        let ghost before = out@;
        if i < rows.len() {
            assert(rows_view(rows@)[i as int] == rows@[i as int]@);
            match one_row_op(&rows[i], action, left, right) {
                Some(o) => {
                    out.push(o);
                    assert(out@.map_values(|o: Operation| o@) =~= before.map_values(|o: Operation| o@).push(o@));
                },
                None => {},
            }
        }
        k += 1;
    }
    assert(picked@.take(picked@.len() as int) =~= picked@);
    out
}

impl FolderCompareState {
    /// Builds the operations for the selected rows, in the order in which
    /// the selection is walked, and clears the selection.
    pub fn take_selection_ops(&mut self, action: CompareAction) -> (r: Vec<Operation>)
        ensures
            final(self).selected@ == Set::<usize>::empty(),
            final(self).rows@ == old(self).rows@,
            final(self).left@ == old(self).left@,
            final(self).right@ == old(self).right@,
            final(self).open == old(self).open,
            final(self).filter == old(self).filter,
            final(self).include_subfolders == old(self).include_subfolders,
            final(self).running == old(self).running,
            final(self).query_id == old(self).query_id,
            exists|picked: Seq<usize>| #![trigger compare_ops_spec(rows_view(old(self).rows@), picked, action, old(self).left@, old(self).right@)]
                picked.no_duplicates() && picked.to_set() == old(self).selected@
                && r@.map_values(|o: Operation| o@) == compare_ops_spec(rows_view(old(self).rows@), picked, action, old(self).left@, old(self).right@),
    {
        broadcast use vstd::std_specs::hash::group_hash_axioms;
        let ghost sel = self.selected@;
        let ghost mut complete = sel.len() == 0;
        let mut picked: Vec<usize> = Vec::new();
        proof {
            let rs = vstd::std_specs::iter::IteratorSpec::remaining(&vstd::std_specs::hash::spec_hash_keys_iter(&self.selected)).unref();
            if sel.len() == 0 {
                assert(rs =~= Seq::<usize>::empty());
                assert(picked@.to_set() =~= sel);
            }
        }
        for x in it: self.selected.iter()
            invariant
                sel == self.selected@,
                picked@ == it.seq().unref().take(it.index() as int),
                it.seq().unref().to_set() == sel,
                it.seq().unref().no_duplicates(),
                it.seq().len() == sel.len(),
                it.index() == sel.len() ==> complete,
                complete ==> picked@.to_set() == sel && picked@.no_duplicates(),
        {
            picked.push(*x);
            proof {
                assert(picked@ =~= it.seq().unref().take(it.index() + 1));
                if it.index() + 1 == sel.len() {
                    assert(picked@ =~= it.seq().unref());
                    complete = true;
                }
            }
        }
        let r = compare_ops(&self.rows, &picked, action, self.left.as_str(), self.right.as_str());
        self.selected.clear();
        r
    }
}

} // verus!
