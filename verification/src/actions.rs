//! What the file commands come to once the application has gathered their
//! inputs: dropping or pasting files into a folder, deleting the selection,
//! restoring from the Recycle Bin, committing a rename, the text and the
//! message of a clipboard copy, and starting a listing.
use vstd::prelude::*;
use crate::ops::{Operation, OpV};
use crate::interact::can_land;
use crate::shell::{is_recycle_path, RecycleItem};
use crate::address::is_recycle_spec;
use crate::state::{TabState, strs};
use crate::jobs::ListingToken;
use crate::paths::{join, join_spec, parent, parent_spec};
use crate::text::{chars_of, decimal, decimal_spec, owned, trim, trim_bounds, string_of};
use crate::vfs::split_zip_path;

verus! {

/// What a drop or a paste into a folder comes to.
pub enum DropPlan {
    /// Refused, with the message to show.
    Refused(String),
    /// Every source is already there or is the target itself: nothing to do.
    Nothing,
    /// Copy or move the sources that can land.
    Submit(Operation),
}

/// The sources that can land in `dest`, in order.
pub open spec fn landing(sources: Seq<Seq<char>>, dest: Seq<char>) -> Seq<Seq<char>>
    decreases sources.len(),
{
    if sources.len() == 0 {
        Seq::empty()
    } else if can_land(sources.last(), dest) {
        landing(sources.drop_last(), dest).push(sources.last())
    } else {
        landing(sources.drop_last(), dest)
    }
}

/// What dropping `sources` into `dest` comes to, given whether `dest` runs
/// through a zip file.
pub open spec fn drop_spec(sources: Seq<Seq<char>>, dest: Seq<char>, is_move: bool, in_zip: bool) -> Result<Option<OpV>, Seq<char>> {
    if in_zip {
        Err("Cannot drop into a zip archive"@)
    } else if is_recycle_spec(dest) {
        Err("Cannot drop into the Recycle Bin"@)
    } else {
        let ok = landing(sources, dest);
        if ok.len() == 0 {
            Ok(None)
        } else if is_move {
            Ok(Some(OpV::Move { sources: ok, dest_dir: dest }))
        } else {
            Ok(Some(OpV::Copy { sources: ok, dest_dir: dest }))
        }
    }
}

pub open spec fn plan_view(p: DropPlan) -> Result<Option<OpV>, Seq<char>> {
    match p {
        DropPlan::Refused(m) => Err(m@),
        DropPlan::Nothing => Ok(None),
        DropPlan::Submit(op) => Ok(Some(op@)),
    }
}

/// What dropping `sources` into `dest` comes to when the caller knows
/// whether `dest` runs through a zip file (see `drop_spec`).
pub fn drop_plan_with(sources: Vec<String>, dest: String, is_move: bool, in_zip: bool) -> (r: DropPlan)
    ensures
        plan_view(r) == drop_spec(strs(sources@), dest@, is_move, in_zip),
{
    if in_zip {
        return DropPlan::Refused(owned("Cannot drop into a zip archive"));
    }
    if is_recycle_path(dest.as_str()) {
        return DropPlan::Refused(owned("Cannot drop into the Recycle Bin"));
    }
    let ghost sv = strs(sources@);
    let mut ok: Vec<String> = Vec::new();
    let mut i: usize = 0;
    assert(sv.take(0) =~= Seq::<Seq<char>>::empty());
    while i < sources.len()
        invariant
            i <= sources.len(),
            sv == strs(sources@),
            strs(ok@) == landing(sv.take(i as int), dest@),
        decreases sources.len() - i,
    {
        assert(sv.take(i + 1).drop_last() =~= sv.take(i as int));
        assert(sv.take(i + 1).last() == sources@[i as int]@);
        let one = [sources[i].clone()];
        if crate::interact::drop_allowed(&one, dest.as_str()) {
            let ghost before = strs(ok@);
            ok.push(sources[i].clone());
            assert(strs(ok@) =~= before.push(sources@[i as int]@));
        } else {
            assert(!can_land(one@[0]@, dest@));
        }
        i += 1;
    }
    assert(sv.take(sources.len() as int) =~= sv);
    assert(ok.deep_view() =~= strs(ok@));
    if ok.len() == 0 {
        DropPlan::Nothing
    } else if is_move {
        DropPlan::Submit(Operation::Move { sources: ok, dest_dir: dest })
    } else {
        DropPlan::Submit(Operation::Copy { sources: ok, dest_dir: dest })
    }
}

/// What dropping `sources` into `dest` comes to, `dest` checked for a zip
/// file on disk: the zip refusal, or what `drop_spec` gives for a folder
/// outside any zip.
pub fn drop_plan(sources: Vec<String>, dest: String, is_move: bool) -> (r: DropPlan)
    ensures
        plan_view(r) == drop_spec(strs(sources@), dest@, is_move, false)
            || plan_view(r) == drop_spec(strs(sources@), dest@, is_move, true),
{
    let in_zip = split_zip_path(dest.as_str()).is_some();
    drop_plan_with(sources, dest, is_move, in_zip)
}

/// What pasting files into a tab's folder comes to: refused in the
/// Recycle Bin, else a drop of the pasted files there.
pub fn paste_plan(tab_path: &str, files: Vec<String>, is_cut: bool) -> (r: DropPlan)
    ensures
        is_recycle_spec(tab_path@) ==> plan_view(r) == Err::<Option<OpV>, Seq<char>>("Can't paste into the Recycle Bin"@),
        !is_recycle_spec(tab_path@) && files@.len() == 0 ==> plan_view(r) == Ok::<Option<OpV>, Seq<char>>(None),
        !is_recycle_spec(tab_path@) && files@.len() > 0 ==> (plan_view(r) == drop_spec(strs(files@), tab_path@, is_cut, false)
            || plan_view(r) == drop_spec(strs(files@), tab_path@, is_cut, true)),
{
    if is_recycle_path(tab_path) {
        return DropPlan::Refused(owned("Can't paste into the Recycle Bin"));
    }
    if files.len() == 0 {
        return DropPlan::Nothing;
    }
    drop_plan(files, owned(tab_path), is_cut)
}

/// What sending the selection to the other pane comes to.
pub enum TransferPlan {
    /// Nothing is selected.
    Nothing,
    /// The tab shows a folder of a zip file: extract each selected item
    /// (its path inside the archive, whether a folder) into the other
    /// pane's folder, then select `names` there.
    Extract { zip: String, items: Vec<(String, bool)>, names: Vec<String> },
    /// Copy or move the selected paths into the other pane's folder.
    Submit(Operation),
}

/// An item's path inside an archive folder.
pub open spec fn inner_path(dir: Seq<char>, name: Seq<char>) -> Seq<char> {
    if dir.len() == 0 { name } else { dir + seq!['/'] + name }
}

/// `idx` are, ascending, exactly the selected entries of `tab`.
pub open spec fn picked_order(tab: TabState, idx: Seq<int>) -> bool {
    &&& (forall|a: int, b: int| 0 <= a < b < idx.len() ==> idx[a] < idx[b])
    &&& (forall|k: int| 0 <= k < idx.len() ==> tab.picked(#[trigger] idx[k]))
    &&& (forall|i: int| tab.picked(i) ==> idx.contains(i))
}

/// Sends a tab's selection to the folder `dest` of the other pane, given
/// how the tab's folder splits at a zip archive (`split`).
pub fn transfer_plan(tab: &TabState, dest: &str, is_move: bool, split: Option<(String, String)>) -> (r: TransferPlan)
    ensures
        match r {
            TransferPlan::Nothing => !exists|i: int| tab.picked(i),
            TransferPlan::Extract { zip, items, names } => match split {
                Some((z, dir)) => zip@ == z@ && items@.len() == names@.len() && names@.len() > 0
                    && exists|idx: Seq<int>| #[trigger] picked_order(*tab, idx) && idx.len() == names@.len()
                        && forall|k: int| 0 <= k < idx.len() ==> {
                            let e = tab.snapshot.entries@[idx[k]];
                            &&& (#[trigger] names@[k])@ == e.name@
                            &&& items@[k].0@ == inner_path(dir@, e.name@)
                            &&& items@[k].1 == e.dir()
                        },
                None => false,
            },
            TransferPlan::Submit(op) => split is None && match op@ {
                OpV::Copy { sources, dest_dir } => !is_move && dest_dir == dest@ && selected_list(*tab, sources, true),
                OpV::Move { sources, dest_dir } => is_move && dest_dir == dest@ && selected_list(*tab, sources, true),
                _ => false,
            },
        },
{
    let entries = &*tab.snapshot.entries;
    match split {
        Some((zip, dir)) => {
            let dv = chars_of(dir.as_str());
            let mut items: Vec<(String, bool)> = Vec::new();
            let mut names: Vec<String> = Vec::new();
            let ghost mut idx: Seq<int> = Seq::empty();
            let n = entries.len();
            let mut i: usize = 0;
            while i < n && i <= 0xFFFF_FFFFusize
                invariant
                    n == entries@.len(),
                    entries@ == tab.snapshot.entries@,
                    dv@ == dir@,
                    i <= n,
                    idx.len() == names@.len(),
                    items@.len() == names@.len(),
                    forall|a: int, b: int| 0 <= a < b < idx.len() ==> idx[a] < idx[b],
                    forall|k: int| 0 <= k < idx.len() ==> idx[k] < i && tab.picked(#[trigger] idx[k]),
                    forall|k: int| 0 <= k < idx.len() ==> {
                        let e = tab.snapshot.entries@[idx[k]];
                        &&& (#[trigger] names@[k])@ == e.name@
                        &&& items@[k].0@ == inner_path(dir@, e.name@)
                        &&& items@[k].1 == e.dir()
                    },
                    forall|j: int| 0 <= j < i && tab.picked(j) ==> idx.contains(j),
                decreases n - i,
            {
                if tab.selection.contains(&(i as u32)) {
                    let e = &entries[i];
                    let inner = if dv.len() == 0 {
                        e.name.clone()
                    } else {
                        let mut t = dir.clone();
                        crate::text::push_char(&mut t, '/');
                        t.append(e.name.as_str());
                        t
                    };
                    items.push((inner, e.is_dir()));
                    names.push(e.name.clone());
                    proof {
                        let old_idx = idx;
                        idx = idx.push(i as int);
                        assert forall|j: int| 0 <= j < i + 1 && tab.picked(j) implies idx.contains(j) by {
                            if j < i {
                                let k = choose|k: int| 0 <= k < old_idx.len() && old_idx[k] == j;
                                assert(idx[k] == j);
                            } else {
                                assert(idx[idx.len() - 1] == j);
                            }
                        }
                    }
                } else {
                    proof {
                        assert forall|j: int| 0 <= j < i + 1 && tab.picked(j) implies idx.contains(j) by {
                            if j == i {
                                assert(tab.selection@.contains(i as u32));
                            }
                        }
                    }
                }
                i += 1;
            }
            proof {
                assert forall|j: int| tab.picked(j) implies idx.contains(j) by {
                    assert(j < i);
                }
                assert(picked_order(*tab, idx));
            }
            if names.len() == 0 {
                proof {
                    assert forall|j: int| !tab.picked(j) by {
                        if tab.picked(j) {
                            assert(idx.contains(j));
                        }
                    }
                }
                return TransferPlan::Nothing;
            }
            TransferPlan::Extract { zip, items, names }
        },
        None => {
            let paths = tab.selected_paths();
            let ghost idx = choose|idx: Seq<int>| #[trigger] tab.lists_picked(strs(paths@), idx, true);
            assert(tab.lists_picked(strs(paths@), idx, true));
            if paths.len() == 0 {
                proof {
                    assert forall|j: int| !tab.picked(j) by {
                        if tab.picked(j) {
                            assert(idx.contains(j));
                        }
                    }
                }
                return TransferPlan::Nothing;
            }
            assert(paths.deep_view() =~= strs(paths@));
            assert(selected_list(*tab, strs(paths@), true));
            if is_move {
                TransferPlan::Submit(Operation::Move { sources: paths, dest_dir: owned(dest) })
            } else {
                TransferPlan::Submit(Operation::Copy { sources: paths, dest_dir: owned(dest) })
            }
        },
    }
}

/// What deleting the selection comes to.
pub enum DeletePlan {
    /// Nothing is selected.
    Nothing,
    /// In the Recycle Bin: delete these items from it for good.
    FromRecycleBin(Vec<String>),
    /// Ask first: these paths, and whether for good.
    Confirm(Vec<String>, bool),
    /// Delete at once: to the Recycle Bin unless for good.
    Submit(Operation),
}

/// `names` are the names of the selected entries of `tab`, in order, and
/// there is at least one.
pub open spec fn selected_list(tab: TabState, names: Seq<Seq<char>>, paths: bool) -> bool {
    names.len() > 0 && exists|idx: Seq<int>| #[trigger] tab.lists_picked(names, idx, paths)
}

/// Deletes a tab's selection: in the Recycle Bin its selected items; else
/// its selected paths, for good when Shift was held or the settings say
/// so, after a confirmation when the settings ask for one.
pub fn delete_plan(tab: &TabState, shift_permanent: bool, permanent_default: bool, confirm_permanent: bool, confirm_recycle: bool) -> (r: DeletePlan)
    ensures
        is_recycle_spec(tab.path@) ==> match r {
            DeletePlan::Nothing => !exists|i: int| tab.picked(i),
            DeletePlan::FromRecycleBin(names) => selected_list(*tab, strs(names@), false),
            _ => false,
        },
        !is_recycle_spec(tab.path@) ==> {
            let permanent = shift_permanent || permanent_default;
            let confirm = if permanent { confirm_permanent } else { confirm_recycle };
            match r {
                DeletePlan::Nothing => !exists|i: int| tab.picked(i),
                DeletePlan::Confirm(paths, p) => confirm && p == permanent && selected_list(*tab, strs(paths@), true),
                DeletePlan::Submit(op) => !confirm && match op@ {
                    OpV::Delete { paths, recycle } => recycle == !permanent && selected_list(*tab, paths, true),
                    _ => false,
                },
                _ => false,
            }
        },
{
    if is_recycle_path(tab.path.as_str()) {
        let names = tab.selected_names();
        if names.len() == 0 {
            proof {
                let idx = choose|idx: Seq<int>| #[trigger] tab.lists_picked(strs(names@), idx, false);
                assert forall|i: int| !tab.picked(i) by {
                    if tab.picked(i) {
                        assert(idx.contains(i));
                    }
                }
            }
            return DeletePlan::Nothing;
        }
        proof {
            let idx = choose|idx: Seq<int>| #[trigger] tab.lists_picked(strs(names@), idx, false);
            assert(tab.lists_picked(strs(names@), idx, false));
        }
        assert(selected_list(*tab, strs(names@), false));
        return DeletePlan::FromRecycleBin(names);
    }
    let paths = tab.selected_paths();
    if paths.len() == 0 {
        proof {
            let idx = choose|idx: Seq<int>| #[trigger] tab.lists_picked(strs(paths@), idx, true);
            assert forall|i: int| !tab.picked(i) by {
                if tab.picked(i) {
                    assert(idx.contains(i));
                }
            }
        }
        return DeletePlan::Nothing;
    }
    let permanent = shift_permanent || permanent_default;
    let confirm = if permanent { confirm_permanent } else { confirm_recycle };
    let ghost idx = choose|idx: Seq<int>| #[trigger] tab.lists_picked(strs(paths@), idx, true);
    assert(tab.lists_picked(strs(paths@), idx, true));
    assert(paths.deep_view() =~= strs(paths@));
    assert(selected_list(*tab, strs(paths@), true));
    if confirm {
        DeletePlan::Confirm(paths, permanent)
    } else {
        let ghost pv = strs(paths@);
        let op = Operation::Delete { paths, recycle: !permanent };
        assert(op@ == OpV::Delete { paths: pv, recycle: !permanent });
        DeletePlan::Submit(op)
    }
}

/// The Recycle Bin item a name stands for: the last one listed with it.
pub open spec fn item_named(items: Seq<RecycleItem>, name: Seq<char>) -> Option<RecycleItem>
    decreases items.len(),
{
    if items.len() == 0 {
        None
    } else if items.last().name@ == name {
        Some(items.last())
    } else {
        item_named(items.drop_last(), name)
    }
}

/// What restoring the named items needs: the shell names of those listed,
/// and the folders they go back to (each one's original parent).
pub open spec fn restore_lists(names: Seq<Seq<char>>, items: Seq<RecycleItem>) -> (Seq<Seq<char>>, Seq<Seq<char>>)
    decreases names.len(),
{
    if names.len() == 0 {
        (Seq::empty(), Seq::empty())
    } else {
        let (ps, rs) = restore_lists(names.drop_last(), items);
        match item_named(items, names.last()) {
            Some(it) => (ps.push(it.parsing_name@), match it.original_path {
                Some(o) => match parent_spec(o@) {
                    Some(p) => rs.push(p),
                    None => rs,
                },
                None => rs,
            }),
            None => (ps, rs),
        }
    }
}

fn find_item(items: &Vec<RecycleItem>, name: &str) -> (r: Option<usize>)
    ensures
        match r {
            Some(k) => k < items@.len() && item_named(items@, name@) == Some(items@[k as int]),
            None => item_named(items@, name@) is None,
        },
{
    let nv = chars_of(name);
    let mut k: usize = items.len();
    assert(items@.take(items@.len() as int) =~= items@);
    while k > 0
        invariant
            k <= items.len(),
            nv@ == name@,
            item_named(items@, name@) == item_named(items@.take(k as int), name@),
        decreases k,
    {
        assert(items@.take(k as int).drop_last() =~= items@.take(k - 1));
        assert(items@.take(k as int).last() == items@[k - 1]);
        if crate::paths::chars_eq(&chars_of(items[k - 1].name.as_str()), &nv) {
            return Some(k - 1);
        }
        k -= 1;
    }
    None
}

/// The operation that restores the named Recycle Bin items (see
/// `restore_lists`); none when none of them is listed.
pub fn restore_recycle_names(names: &Vec<String>, items: &Vec<RecycleItem>) -> (r: Option<Operation>)
    ensures
        ({
            let (ps, rs) = restore_lists(strs(names@), items@);
            match r {
                Some(op) => ps.len() > 0 && op@ == OpV::RecycleRestore { parsing_names: ps, refresh: rs },
                None => ps.len() == 0,
            }
        }),
{
    let ghost nv = strs(names@);
    let mut parsing: Vec<String> = Vec::new();
    let mut refresh: Vec<String> = Vec::new();
    let mut i: usize = 0;
    assert(nv.take(0) =~= Seq::<Seq<char>>::empty());
    while i < names.len()
        invariant
            i <= names.len(),
            nv == strs(names@),
            (strs(parsing@), strs(refresh@)) == restore_lists(nv.take(i as int), items@),
        decreases names.len() - i,
    {
        assert(nv.take(i + 1).drop_last() =~= nv.take(i as int));
        assert(nv.take(i + 1).last() == names@[i as int]@);
        match find_item(items, names[i].as_str()) {
            Some(k) => {
                let it = &items[k];
                let ghost p0 = strs(parsing@);
                let ghost r0 = strs(refresh@);
                parsing.push(it.parsing_name.clone());
                assert(strs(parsing@) =~= p0.push(it.parsing_name@));
                match &it.original_path {
                    Some(o) => match parent(o.as_str()) {
                        Some(p) => {
                            refresh.push(p);
                            assert(strs(refresh@) =~= r0.push(parent_spec(o@).unwrap()));
                        },
                        None => {},
                    },
                    None => {},
                }
            },
            None => {},
        }
        i += 1;
    }
    assert(nv.take(names.len() as int) =~= nv);
    if parsing.len() == 0 {
        None
    } else {
        let ghost ps = strs(parsing@);
        let ghost rs = strs(refresh@);
        assert(parsing.deep_view() =~= ps);
        assert(refresh.deep_view() =~= rs);
        let op = Operation::RecycleRestore { parsing_names: parsing, refresh };
        assert(op@ == OpV::RecycleRestore { parsing_names: ps, refresh: rs });
        Some(op)
    }
}

/// The shell names of the named Recycle Bin items that are listed.
pub open spec fn parsing_of(names: Seq<Seq<char>>, items: Seq<RecycleItem>) -> Seq<Seq<char>>
    decreases names.len(),
{
    if names.len() == 0 {
        Seq::empty()
    } else {
        match item_named(items, names.last()) {
            Some(it) => parsing_of(names.drop_last(), items).push(it.parsing_name@),
            None => parsing_of(names.drop_last(), items),
        }
    }
}

/// The operation that deletes the named Recycle Bin items for good; none
/// when none of them is listed.
pub fn delete_recycle_names(names: &Vec<String>, items: &Vec<RecycleItem>) -> (r: Option<Operation>)
    ensures
        match r {
            Some(op) => parsing_of(strs(names@), items@).len() > 0
                && op@ == OpV::RecycleDelete { parsing_names: parsing_of(strs(names@), items@) },
            None => parsing_of(strs(names@), items@).len() == 0,
        },
{
    let ghost nv = strs(names@);
    let mut parsing: Vec<String> = Vec::new();
    let mut i: usize = 0;
    assert(nv.take(0) =~= Seq::<Seq<char>>::empty());
    while i < names.len()
        invariant
            i <= names.len(),
            nv == strs(names@),
            strs(parsing@) == parsing_of(nv.take(i as int), items@),
        decreases names.len() - i,
    {
        assert(nv.take(i + 1).drop_last() =~= nv.take(i as int));
        assert(nv.take(i + 1).last() == names@[i as int]@);
        match find_item(items, names[i].as_str()) {
            Some(k) => {
                let ghost p0 = strs(parsing@);
                parsing.push(items[k].parsing_name.clone());
                assert(strs(parsing@) =~= p0.push(items@[k as int].parsing_name@));
            },
            None => {},
        }
        i += 1;
    }
    assert(nv.take(names.len() as int) =~= nv);
    if parsing.len() == 0 {
        None
    } else {
        let ghost ps = strs(parsing@);
        assert(parsing.deep_view() =~= ps);
        Some(Operation::RecycleDelete { parsing_names: parsing })
    }
}

/// The rename an inline edit commits: none for a missing entry, an empty
/// name or the name unchanged; else from the entry's path to the trimmed
/// name in the same folder.
pub open spec fn rename_spec(tab: TabState, entry_index: u32, buffer: Seq<char>) -> Option<OpV> {
    if (entry_index as int) < tab.snapshot.entries@.len() {
        let old_name = tab.snapshot.entries@[entry_index as int].name@;
        let n = trim(buffer);
        if n.len() == 0 || n == old_name {
            None
        } else {
            Some(OpV::Rename { from: join_spec(tab.path@, old_name), to: join_spec(tab.path@, n) })
        }
    } else {
        None
    }
}

/// The rename an inline edit of entry `entry_index` commits (see
/// `rename_spec`).
pub fn commit_rename(tab: &TabState, entry_index: u32, buffer: &str) -> (r: Option<Operation>)
    ensures
        match r {
            Some(op) => rename_spec(*tab, entry_index, buffer@) == Some(op@),
            None => rename_spec(*tab, entry_index, buffer@) is None,
        },
{
    if entry_index as usize >= tab.snapshot.entries.len() {
        return None;
    }
    let entry = &tab.snapshot.entries[entry_index as usize];
    let v = chars_of(buffer);
    let (lo, hi) = trim_bounds(&v);
    let n = string_of(&v, lo, hi);
    if lo == hi || crate::paths::chars_eq(&chars_of(n.as_str()), &chars_of(entry.name.as_str())) {
        return None;
    }
    let from = join(tab.path.as_str(), entry.name.as_str());
    let to = join(tab.path.as_str(), n.as_str());
    Some(Operation::Rename { from, to })
}

/// Paths joined with CR LF, as text for the clipboard.
pub open spec fn lines_text(paths: Seq<Seq<char>>) -> Seq<char>
    decreases paths.len(),
{
    if paths.len() == 0 {
        Seq::empty()
    } else if paths.len() == 1 {
        paths[0]
    } else {
        lines_text(paths.drop_last()) + seq!['\r', '\n'] + paths.last()
    }
}

/// The clipboard text of a list of paths, one per line.
pub fn clipboard_text(paths: &Vec<String>) -> (r: String)
    ensures
        r@ == lines_text(strs(paths@)),
{
    let ghost pv = strs(paths@);
    let mut out = String::new();
    let mut i: usize = 0;
    assert(pv.take(0) =~= Seq::<Seq<char>>::empty());
    while i < paths.len()
        invariant
            i <= paths.len(),
            pv == strs(paths@),
            out@ == lines_text(pv.take(i as int)),
        decreases paths.len() - i,
    {
        assert(pv.take(i + 1).drop_last() =~= pv.take(i as int));
        let ghost before = out@;
        if i > 0 {
            crate::text::push_char(&mut out, '\r');
            crate::text::push_char(&mut out, '\n');
        }
        out.append(paths[i].as_str());
        i += 1;
        assert(out@ =~= lines_text(pv.take(i as int)));
    }
    assert(pv.take(paths.len() as int) =~= pv);
    out
}

/// The message after files went to the clipboard.
pub open spec fn copied_message(cut: bool, n: nat) -> Seq<char> {
    (if cut { "Cut "@ } else { "Copied "@ }) + decimal_spec(n) + " item(s)"@
}

/// The message after paths went to the clipboard as text.
pub open spec fn paths_message(n: nat) -> Seq<char> {
    "Copied "@ + decimal_spec(n) + " path(s)"@
}

pub fn copied_files_message(cut: bool, n: usize) -> (r: String)
    ensures
        r@ == copied_message(cut, n as nat),
{
    let mut s = if cut { owned("Cut ") } else { owned("Copied ") };
    s.append(decimal(n as u64).as_str());
    s.append(" item(s)");
    s
}

pub fn copied_paths_message(n: usize) -> (r: String)
    ensures
        r@ == paths_message(n as nat),
{
    let mut s = owned("Copied ");
    s.append(decimal(n as u64).as_str());
    s.append(" path(s)");
    s
}

/// Starts a new listing of a tab: a new generation, no pending entries,
/// loading. Returns the token its results will carry.
pub fn begin_listing(tab: &mut TabState, pane: usize) -> (r: ListingToken)
    requires
        old(tab).generation < u64::MAX,
    ensures
        final(tab).generation == old(tab).generation + 1,
        final(tab).pending@.len() == 0,
        final(tab).loading,
        r == (ListingToken { pane, tab_uid: old(tab).uid, generation: final(tab).generation }),
        final(tab).uid == old(tab).uid,
        final(tab).path == old(tab).path,
        final(tab).snapshot == old(tab).snapshot,
        final(tab).view == old(tab).view,
        final(tab).selection == old(tab).selection,
        final(tab).cursor == old(tab).cursor,
        final(tab).flatten == old(tab).flatten,
{
    tab.generation = tab.generation + 1;
    tab.pending = Vec::new();
    tab.loading = true;
    ListingToken { pane, tab_uid: tab.uid, generation: tab.generation }
}

} // verus!
