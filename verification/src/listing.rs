//! What the interface does with the results a listing job sends back:
//! batches of entries as they stream in, the sorted view, and the selection
//! a tab is waiting to give to named entries. Results carry the tab's uid
//! and generation; those for another generation are stale and dropped.
//! Also which tabs a change reaches: the tab a result belongs to, the tabs
//! to reload after an operation, the tab that shows new items, a tab moved
//! between panes, and the favourite folders.
use vstd::prelude::*;
use std::collections::HashSet;
use std::sync::Arc;
use crate::entry::FsEntry;
use crate::snapshot::{DirSnapshot, count_dirs, file_bytes_of};
use crate::state::{PaneState, TabState};
use crate::paths::{chars_eq, components, file_name, file_name_spec, parent, parent_spec, same_path};
use crate::text::chars_of;

verus! {

broadcast use vstd::std_specs::hash::group_hash_axioms;

/// Most entries a listing shows while it is still streaming in.
pub const PROGRESSIVE_LIMIT: usize = 20_000;

/// The identity view `0, 1, .., n - 1`.
pub open spec fn index_seq(n: nat) -> Seq<u32> {
    Seq::new(n, |i: int| i as u32)
}

/// The fields of a tab that a listing result never touches.
pub open spec fn same_setup(a: TabState, b: TabState) -> bool {
    &&& a.uid == b.uid
    &&& a.path == b.path
    &&& a.sort == b.sort
    &&& a.filter == b.filter
    &&& a.locked == b.locked
    &&& a.history_back == b.history_back
    &&& a.history_fwd == b.history_fwd
    &&& a.generation == b.generation
    &&& a.flatten == b.flatten
    &&& a.custom_title == b.custom_title
    &&& a.color == b.color
}

fn copy_entries(v: &Vec<FsEntry>) -> (r: Vec<FsEntry>)
    ensures
        r@ == v@,
{
    let mut out: Vec<FsEntry> = Vec::new();
    let mut i: usize = 0;
    while i < v.len()
        invariant
            i <= v.len(),
            out@ == v@.take(i as int),
        decreases v.len() - i,
    {
        out.push(v[i].dup());
        i += 1;
        assert(out@ =~= v@.take(i as int));
    }
    assert(v@.take(v.len() as int) =~= v@);
    out
}

fn index_vec(n: usize) -> (r: Vec<u32>)
    requires
        n <= u32::MAX,
    ensures
        r@ == index_seq(n as nat),
{
    let mut out: Vec<u32> = Vec::new();
    let mut i: usize = 0;
    while i < n
        invariant
            i <= n <= u32::MAX,
            out@ == index_seq(i as nat),
        decreases n - i,
    {
        out.push(i as u32);
        i += 1;
        assert(out@ =~= index_seq(i as nat));
    }
    out
}

/// Takes a batch of a listing into its tab. Entries gather in the tab's
/// pending list; the listing is shown (a new snapshot, with the identity
/// view) when it is done, or while it is still no longer than
/// `PROGRESSIVE_LIMIT`. Returns whether the listing is done, so that the
/// view must be sorted.
pub fn accept_batch(tab: &mut TabState, generation: u64, entries: Vec<FsEntry>, done: bool, error: Option<String>) -> (rebuild: bool)
    requires
        old(tab).pending@.len() + entries@.len() <= u32::MAX,
        file_bytes_of(old(tab).pending@ + entries@) <= u64::MAX,
    ensures
        generation != old(tab).generation ==> *final(tab) == *old(tab) && !rebuild,
        generation == old(tab).generation ==> {
            let all = old(tab).pending@ + entries@;
            let publish = done || all.len() <= PROGRESSIVE_LIMIT;
            &&& rebuild == done
            &&& same_setup(*final(tab), *old(tab))
            &&& final(tab).selection == old(tab).selection
            &&& final(tab).cursor == old(tab).cursor
            &&& final(tab).pending@ == (if done { Seq::empty() } else { all })
            &&& final(tab).loading == (if done { false } else { old(tab).loading })
            &&& publish ==> {
                &&& final(tab).snapshot.path == old(tab).path
                &&& final(tab).snapshot.entries@ == all
                &&& final(tab).snapshot.generation == old(tab).generation
                &&& final(tab).snapshot.complete == done
                &&& final(tab).snapshot.error == error
                &&& final(tab).snapshot.dir_count == count_dirs(all)
                &&& final(tab).snapshot.file_count == all.len() - count_dirs(all)
                &&& final(tab).snapshot.file_bytes == file_bytes_of(all)
                &&& final(tab).view@ == index_seq(all.len())
            }
            &&& !publish ==> final(tab).snapshot == old(tab).snapshot && final(tab).view == old(tab).view
        },
{
    if generation != tab.generation {
        return false;
    }
    let ghost all = tab.pending@ + entries@;
    let mut more = entries;
    tab.pending.append(&mut more);
    assert(tab.pending@ == all);
    let show = !done && tab.pending.len() <= PROGRESSIVE_LIMIT;
    if done || show {
        let mut list: Vec<FsEntry> = Vec::new();
        if done {
            std::mem::swap(&mut list, &mut tab.pending);
        } else {
            list = copy_entries(&tab.pending);
        }
        let n = list.len();
        let mut snap = DirSnapshot {
            path: tab.path.clone(),
            entries: Arc::new(list),
            generation: tab.generation,
            complete: done,
            error,
            dir_count: 0,
            file_count: 0,
            file_bytes: 0,
        };
        snap.recompute_counts();
        tab.snapshot = snap;
        tab.view = Arc::new(index_vec(n));
        if done {
            tab.loading = false;
        }
    }
    done
}

/// Whether `name` is one of `names`.
pub fn names_contain(names: &Vec<String>, name: &str) -> (r: bool)
    ensures
        r == exists|k: int| 0 <= k < names@.len() && (#[trigger] names@[k])@ == name@,
{
    let nv = chars_of(name);
    let mut k: usize = 0;
    while k < names.len()
        invariant
            k <= names.len(),
            nv@ == name@,
            forall|j: int| 0 <= j < k ==> (#[trigger] names@[j])@ != name@,
        decreases names.len() - k,
    {
        let cv = chars_of(names[k].as_str());
        if chars_eq(&cv, &nv) {
            return true;
        }
        k += 1;
    }
    false
}

/// The entries of a listing whose names are among `names`, as indices.
pub open spec fn named_set(es: Seq<FsEntry>, names: Seq<String>) -> Set<u32> {
    Set::new(|i: u32| (i as int) < es.len() && exists|k: int| 0 <= k < names.len() && (#[trigger] names[k])@ == es[i as int].name@)
}

fn named_indices(es: &Vec<FsEntry>, names: &Vec<String>) -> (r: (HashSet<u32>, bool))
    requires
        es@.len() <= u32::MAX + 1,
    ensures
        r.0@ == named_set(es@, names@),
        r.1 == !named_set(es@, names@).is_empty(),
{
    let mut out: HashSet<u32> = HashSet::new();
    let mut any = false;
    let mut i: usize = 0;
    while i < es.len()
        invariant
            i <= es.len() <= u32::MAX + 1,
            forall|x: u32| out@.contains(x) <==> (x as int) < i && named_set(es@, names@).contains(x),
            any == exists|x: u32| out@.contains(x),
        decreases es.len() - i,
    {
        if names_contain(names, es[i].name.as_str()) {
            out.insert(i as u32);
            any = true;
            assert(out@.contains(i as u32));
        }
        i += 1;
    }
    assert(out@ =~= named_set(es@, names@));
    proof {
        if !any {
            assert(out@ =~= Set::<u32>::empty());
        } else {
            let x = choose|x: u32| out@.contains(x);
            assert(named_set(es@, names@).contains(x));
        }
    }
    (out, any)
}

/// Takes a sorted view into its tab (when still current), and gives the
/// selection back to the entries named in `keep`, if any.
pub fn accept_view(tab: &mut TabState, generation: u64, view: Vec<u32>, keep: Option<&Vec<String>>) -> (taken: bool)
    requires
        old(tab).snapshot.entries@.len() <= u32::MAX + 1,
    ensures
        taken == (generation == old(tab).generation),
        !taken ==> *final(tab) == *old(tab),
        taken ==> {
            &&& final(tab).view@ == view@
            &&& same_setup(*final(tab), *old(tab))
            &&& final(tab).snapshot == old(tab).snapshot
            &&& final(tab).pending == old(tab).pending
            &&& final(tab).loading == old(tab).loading
            &&& final(tab).cursor == old(tab).cursor
            &&& final(tab).selection@ == match keep {
                Some(names) => named_set(old(tab).snapshot.entries@, names@),
                None => old(tab).selection@,
            }
        },
{
    if generation != tab.generation {
        return false;
    }
    tab.view = Arc::new(view);
    match keep {
        Some(names) => {
            let (s, _) = named_indices(&*tab.snapshot.entries, names);
            tab.selection = s;
        },
        None => {},
    }
    true
}

/// What became of a selection a tab waits to give.
#[derive(Clone, Copy, Debug, PartialEq, Eq, Structural)]
pub enum PendingSelect {
    /// The named entries are selected; the wait is over.
    Selected,
    /// None of the names is listed yet, and the listing is still loading.
    Waiting,
    /// None of the names is listed, and the listing is complete.
    GaveUp,
}


/// Selects the entries named in `names`, with the cursor on the first of
/// them in view order. Nothing changes when none is listed.
pub fn try_select_pending(tab: &mut TabState, names: &Vec<String>) -> (r: PendingSelect)
    requires
        old(tab).snapshot.entries@.len() <= u32::MAX + 1,
    ensures
        ({
            let sel = named_set(old(tab).snapshot.entries@, names@);
            &&& sel.is_empty() ==> *final(tab) == *old(tab)
                && r == (if old(tab).loading { PendingSelect::Waiting } else { PendingSelect::GaveUp })
            &&& !sel.is_empty() ==> {
                &&& r == PendingSelect::Selected
                &&& final(tab).selection@ == sel
                &&& match final(tab).cursor {
                    Some(p) => p < old(tab).view@.len() && sel.contains(old(tab).view@[p as int])
                        && forall|q: int| 0 <= q < p ==> !sel.contains(#[trigger] old(tab).view@[q]),
                    None => forall|q: int| 0 <= q < old(tab).view@.len() ==> !sel.contains(#[trigger] old(tab).view@[q]),
                }
                &&& same_setup(*final(tab), *old(tab))
                &&& final(tab).snapshot == old(tab).snapshot
                &&& final(tab).view == old(tab).view
                &&& final(tab).pending == old(tab).pending
                &&& final(tab).loading == old(tab).loading
            }
        }),
{
    let ghost sel = named_set(tab.snapshot.entries@, names@);
    let (s, any) = named_indices(&*tab.snapshot.entries, names);
    if !any {
        return if tab.loading { PendingSelect::Waiting } else { PendingSelect::GaveUp };
    }
    let view = &*tab.view;
    let mut p: usize = 0;
    let mut cursor: Option<usize> = None;
    while cursor.is_none() && p < view.len()
        invariant
            p <= view.len(),
            view@ == tab.view@,
            s@ == sel,
            cursor is None ==> forall|q: int| 0 <= q < p ==> !sel.contains(#[trigger] view@[q]),
            cursor matches Some(c) ==> c < view@.len() && sel.contains(view@[c as int])
                && forall|q: int| 0 <= q < c ==> !sel.contains(#[trigger] view@[q]),
        decreases view.len() - p,
    {
        if s.contains(&view[p]) {
            cursor = Some(p);
        }
        p += 1;
    }
    tab.selection = s;
    tab.cursor = cursor;
    PendingSelect::Selected
}

/// The pane and index of the tab with `uid`: looked for in `pane` first
/// (where it was asked from), then in every pane in order.
pub fn find_tab(panes: &Vec<PaneState>, pane: usize, uid: u64) -> (r: Option<(usize, usize)>)
    ensures
        match r {
            Some((p, i)) => p < panes@.len() && i < panes@[p as int].tabs@.len()
                && panes@[p as int].tabs@[i as int].uid == uid
                && forall|j: int| 0 <= j < i ==> (#[trigger] panes@[p as int].tabs@[j]).uid != uid,
            None => forall|p: int, i: int| 0 <= p < panes@.len() && 0 <= i < panes@[p].tabs@.len()
                ==> (#[trigger] panes@[p].tabs@[i]).uid != uid,
        },
        r matches Some((p, i)) ==> (pane < panes@.len() && exists|j: int| 0 <= j < panes@[pane as int].tabs@.len()
            && (#[trigger] panes@[pane as int].tabs@[j]).uid == uid) ==> p == pane,
        r matches Some((p, i)) ==> p != pane ==> forall|q: int, j: int|
            0 <= q < p && 0 <= j < panes@[q].tabs@.len() ==> (#[trigger] panes@[q].tabs@[j]).uid != uid,
{
    if pane < panes.len() {
        match tab_index(&panes[pane], uid) {
            Some(i) => return Some((pane, i)),
            None => {},
        }
    }
    let mut p: usize = 0;
    while p < panes.len()
        invariant
            p <= panes.len(),
            forall|q: int, j: int| 0 <= q < p && 0 <= j < panes@[q].tabs@.len()
                ==> (#[trigger] panes@[q].tabs@[j]).uid != uid,
            pane < panes@.len() ==> forall|j: int| 0 <= j < panes@[pane as int].tabs@.len()
                ==> (#[trigger] panes@[pane as int].tabs@[j]).uid != uid,
        decreases panes.len() - p,
    {
        match tab_index(&panes[p], uid) {
            Some(i) => return Some((p, i)),
            None => {},
        }
        p += 1;
    }
    None
}

/// The index of the first tab of `pane` with `uid`.
fn tab_index(pane: &PaneState, uid: u64) -> (r: Option<usize>)
    ensures
        match r {
            Some(i) => i < pane.tabs@.len() && pane.tabs@[i as int].uid == uid
                && forall|j: int| 0 <= j < i ==> (#[trigger] pane.tabs@[j]).uid != uid,
            None => forall|j: int| 0 <= j < pane.tabs@.len() ==> (#[trigger] pane.tabs@[j]).uid != uid,
        },
{
    let mut i: usize = 0;
    while i < pane.tabs.len()
        invariant
            i <= pane.tabs.len(),
            forall|j: int| 0 <= j < i ==> (#[trigger] pane.tabs@[j]).uid != uid,
        decreases pane.tabs.len() - i,
    {
        if pane.tabs[i].uid == uid {
            return Some(i);
        }
        i += 1;
    }
    None
}

/// Two paths that name the same place (equal components).
pub open spec fn same_place(a: Seq<char>, b: Seq<char>) -> bool {
    components(a) == components(b)
}

/// The uid of the first of `tabs` that shows `dest`.
pub open spec fn first_tab_at(tabs: Seq<TabState>, dest: Seq<char>) -> Option<u64>
    decreases tabs.len(),
{
    if tabs.len() == 0 {
        None
    } else if same_place(tabs[0].path@, dest) {
        Some(tabs[0].uid)
    } else {
        first_tab_at(tabs.drop_first(), dest)
    }
}

/// The tab of a pane that shows `dest`: the shown tab first, then the
/// first tab that does.
pub open spec fn pane_tab_at(p: PaneState, dest: Seq<char>) -> Option<u64> {
    if same_place(p.tabs@[p.shown()].path@, dest) {
        Some(p.tabs@[p.shown()].uid)
    } else {
        first_tab_at(p.tabs@, dest)
    }
}

/// The first pane from `from` on, other than `skip`, with a tab at `dest`.
pub open spec fn other_panes_at(panes: Seq<PaneState>, skip: int, from: int, dest: Seq<char>) -> Option<u64>
    decreases panes.len() - from,
{
    if from < 0 || from >= panes.len() {
        None
    } else if from != skip && pane_tab_at(panes[from], dest) is Some {
        pane_tab_at(panes[from], dest)
    } else {
        other_panes_at(panes, skip, from + 1, dest)
    }
}

/// The tab to select new items in after an operation wrote into `dest`:
/// one in the active pane if it has one, else one in another pane.
pub open spec fn best_tab_spec(panes: Seq<PaneState>, active: int, dest: Seq<char>) -> Option<u64> {
    if panes.len() == 0 {
        None
    } else {
        let k = if active < panes.len() - 1 { active } else { panes.len() - 1 };
        match pane_tab_at(panes[k], dest) {
            Some(u) => Some(u),
            None => other_panes_at(panes, k, 0, dest),
        }
    }
}

fn first_tab_exec(tabs: &Vec<TabState>, dest: &str) -> (r: Option<u64>)
    ensures
        r == first_tab_at(tabs@, dest@),
{
    let mut i: usize = tabs.len();
    let mut found: Option<u64> = None;
    while i > 0
        invariant
            i <= tabs.len(),
            found == first_tab_at(tabs@.skip(i as int), dest@),
        decreases i,
    {
        i -= 1;
        assert(tabs@.skip(i as int).drop_first() =~= tabs@.skip(i + 1));
        if same_path(tabs[i].path.as_str(), dest) {
            found = Some(tabs[i].uid);
        }
    }
    assert(tabs@.skip(0) =~= tabs@);
    found
}

fn pane_tab_exec(p: &PaneState, dest: &str) -> (r: Option<u64>)
    requires
        p.tabs@.len() > 0,
    ensures
        r == pane_tab_at(*p, dest@),
{
    let t = p.tab();
    if same_path(t.path.as_str(), dest) {
        Some(t.uid)
    } else {
        first_tab_exec(&p.tabs, dest)
    }
}

/// The uid of the tab that should show what was just created in `dest`
/// (see `best_tab_spec`). Every pane has a tab.
pub fn best_tab_uid_for_path(panes: &Vec<PaneState>, active_pane: usize, dest: &str) -> (r: Option<u64>)
    requires
        forall|i: int| 0 <= i < panes@.len() ==> (#[trigger] panes@[i]).tabs@.len() > 0,
    ensures
        r == best_tab_spec(panes@, active_pane as int, dest@),
{
    if panes.len() == 0 {
        return None;
    }
    let last = panes.len() - 1;
    let k = if active_pane < last { active_pane } else { last };
    match pane_tab_exec(&panes[k], dest) {
        Some(u) => return Some(u),
        None => {},
    }
    let mut i: usize = panes.len();
    let mut found: Option<u64> = None;
    while i > 0
        invariant
            i <= panes.len(),
            k < panes@.len(),
            forall|j: int| 0 <= j < panes@.len() ==> (#[trigger] panes@[j]).tabs@.len() > 0,
            found == other_panes_at(panes@, k as int, i as int, dest@),
        decreases i,
    {
        i -= 1;
        if i != k {
            match pane_tab_exec(&panes[i], dest) {
                Some(u) => {
                    found = Some(u);
                },
                None => {},
            }
        }
    }
    found
}

/// The tabs, as (pane, index) in pane order, whose folder is one of `dirs`.
pub open spec fn shows_one_of(t: TabState, dirs: Seq<String>) -> bool {
    exists|k: int| 0 <= k < dirs.len() && same_place((#[trigger] dirs[k])@, t.path@)
}

fn place_among(dirs: &Vec<String>, path: &str) -> (r: bool)
    ensures
        r == exists|k: int| 0 <= k < dirs@.len() && same_place((#[trigger] dirs@[k])@, path@),
{
    let mut k: usize = 0;
    while k < dirs.len()
        invariant
            k <= dirs.len(),
            forall|j: int| 0 <= j < k ==> !same_place((#[trigger] dirs@[j])@, path@),
        decreases dirs.len() - k,
    {
        if same_path(dirs[k].as_str(), path) {
            return true;
        }
        k += 1;
    }
    false
}

/// The tabs to reload after `dirs` changed: every tab showing one of them,
/// by pane and then by tab.
pub fn refresh_all_matching(panes: &Vec<PaneState>, dirs: &Vec<String>) -> (r: Vec<(usize, usize)>)
    ensures
        forall|k: int| 0 <= k < r@.len() ==> {
            let (p, i) = #[trigger] r@[k];
            p < panes@.len() && i < panes@[p as int].tabs@.len() && shows_one_of(panes@[p as int].tabs@[i as int], dirs@)
        },
        forall|p: int, i: int| 0 <= p < panes@.len() && 0 <= i < panes@[p].tabs@.len()
            && shows_one_of(#[trigger] panes@[p].tabs@[i], dirs@) ==> r@.contains((p as usize, i as usize)),
        forall|a: int, b: int| 0 <= a < b < r@.len() ==> (r@[a].0 < r@[b].0 || (r@[a].0 == r@[b].0 && r@[a].1 < r@[b].1)),
{
    let mut out: Vec<(usize, usize)> = Vec::new();
    let mut p: usize = 0;
    while p < panes.len()
        invariant
            p <= panes.len(),
            forall|k: int| 0 <= k < out@.len() ==> {
                let (q, i) = #[trigger] out@[k];
                q < p && i < panes@[q as int].tabs@.len() && shows_one_of(panes@[q as int].tabs@[i as int], dirs@)
            },
            forall|q: int, i: int| 0 <= q < p && 0 <= i < panes@[q].tabs@.len()
                && shows_one_of(#[trigger] panes@[q].tabs@[i], dirs@) ==> out@.contains((q as usize, i as usize)),
            forall|a: int, b: int| 0 <= a < b < out@.len() ==> (out@[a].0 < out@[b].0 || (out@[a].0 == out@[b].0 && out@[a].1 < out@[b].1)),
        decreases panes.len() - p,
    {
        let tabs = &panes[p].tabs;
        let mut i: usize = 0;
        let ghost start = out@;
        while i < tabs.len()
            invariant
                p < panes.len(),
                tabs@ == panes@[p as int].tabs@,
                i <= tabs.len(),
                start.len() <= out@.len(),
                out@.take(start.len() as int) == start,
                forall|k: int| 0 <= k < start.len() ==> {
                    let (q, j) = #[trigger] start[k];
                    q < p && j < panes@[q as int].tabs@.len() && shows_one_of(panes@[q as int].tabs@[j as int], dirs@)
                },
                forall|k: int| start.len() <= k < out@.len() ==> {
                    let (q, j) = #[trigger] out@[k];
                    q == p && j < i && shows_one_of(panes@[q as int].tabs@[j as int], dirs@)
                },
                forall|q: int, j: int| 0 <= q < p && 0 <= j < panes@[q].tabs@.len()
                    && shows_one_of(#[trigger] panes@[q].tabs@[j], dirs@) ==> start.contains((q as usize, j as usize)),
                forall|j: int| 0 <= j < i && shows_one_of(#[trigger] tabs@[j], dirs@) ==> out@.contains((p, j as usize)),
                forall|a: int, b: int| 0 <= a < b < out@.len() ==> (out@[a].0 < out@[b].0 || (out@[a].0 == out@[b].0 && out@[a].1 < out@[b].1)),
            decreases tabs.len() - i,
        {
            if place_among(dirs, tabs[i].path.as_str()) {
                let ghost before = out@;
                out.push((p, i));
                proof {
                    assert forall|a: int, b: int| 0 <= a < b < out@.len() implies (out@[a].0 < out@[b].0
                        || (out@[a].0 == out@[b].0 && out@[a].1 < out@[b].1)) by {
                        if b == out@.len() - 1 {
                            if a < start.len() {
                                assert(before.take(start.len() as int)[a] == before[a]);
                                assert(start[a] == out@[a]);
                            } else {
                                assert(before[a] == out@[a]);
                            }
                        } else {
                            assert(before[a] == out@[a] && before[b] == out@[b]);
                        }
                    }
                    assert(out@.take(start.len() as int) =~= before.take(start.len() as int));
                    assert forall|j: int| 0 <= j < i + 1 && shows_one_of(#[trigger] tabs@[j], dirs@) implies out@.contains((p, j as usize)) by {
                        if j < i {
                            let k = choose|k: int| 0 <= k < before.len() && before[k] == (p, j as usize);
                            assert(out@[k] == (p, j as usize));
                        } else {
                            assert(out@[out@.len() - 1] == (p, j as usize));
                        }
                    }
                    assert forall|q: int, j: int| 0 <= q < p && 0 <= j < panes@[q].tabs@.len()
                        && shows_one_of(#[trigger] panes@[q].tabs@[j], dirs@) implies out@.contains((q as usize, j as usize)) by {
                        let k = choose|k: int| 0 <= k < start.len() && start[k] == (q as usize, j as usize);
                        assert(out@[k] == before[k]);
                    }
                }
            }
            i += 1;
        }
        proof {
            assert forall|q: int, j: int| 0 <= q < p + 1 && 0 <= j < panes@[q].tabs@.len()
                && shows_one_of(#[trigger] panes@[q].tabs@[j], dirs@) implies out@.contains((q as usize, j as usize)) by {
                if q < p {
                    let k = choose|k: int| 0 <= k < start.len() && start[k] == (q as usize, j as usize);
                    assert(out@.take(start.len() as int)[k] == out@[k]);
                } else {
                    assert(tabs@[j] == panes@[q].tabs@[j]);
                }
            }
            assert forall|k: int| 0 <= k < out@.len() implies {
                let (q, j) = #[trigger] out@[k];
                q < p + 1 && j < panes@[q as int].tabs@.len() && shows_one_of(panes@[q as int].tabs@[j as int], dirs@)
            } by {
                if k < start.len() {
                    assert(out@.take(start.len() as int)[k] == out@[k]);
                }
            }
        }
        p += 1;
    }
    out
}

/// The names of paths that have one, in order.
pub open spec fn names_of(paths: Seq<String>) -> Seq<Seq<char>>
    decreases paths.len(),
{
    if paths.len() == 0 {
        Seq::empty()
    } else {
        match file_name_spec(paths.last()@) {
            Some(n) => names_of(paths.drop_last()).push(n),
            None => names_of(paths.drop_last()),
        }
    }
}

/// Where the items an operation created should be selected: the tab (see
/// `best_tab_spec`) that shows the folder of the first of them, with the
/// names of all of them; nothing when there is no such folder, name or tab.
pub open spec fn created_target(panes: Seq<PaneState>, active: int, created: Seq<String>) -> Option<(u64, Seq<Seq<char>>)> {
    if created.len() == 0 {
        None
    } else {
        match parent_spec(created[0]@) {
            None => None,
            Some(dest) => {
                let names = names_of(created);
                if names.len() == 0 {
                    None
                } else {
                    match best_tab_spec(panes, active, dest) {
                        Some(uid) => Some((uid, names)),
                        None => None,
                    }
                }
            },
        }
    }
}

/// The tab and the names to select after an operation created `created`
/// (see `created_target`). Every pane has a tab.
pub fn select_created_items(panes: &Vec<PaneState>, active_pane: usize, created: &Vec<String>) -> (r: Option<(u64, Vec<String>)>)
    requires
        forall|i: int| 0 <= i < panes@.len() ==> (#[trigger] panes@[i]).tabs@.len() > 0,
    ensures
        match r {
            Some((uid, names)) => created_target(panes@, active_pane as int, created@)
                == Some((uid, names@.map_values(|s: String| s@))),
            None => created_target(panes@, active_pane as int, created@) is None,
        },
{
    if created.len() == 0 {
        return None;
    }
    let dest = match parent(created[0].as_str()) {
        Some(d) => d,
        None => return None,
    };
    let mut names: Vec<String> = Vec::new();
    let mut i: usize = 0;
    assert(created@.take(0) =~= Seq::<String>::empty());
    while i < created.len()
        invariant
            i <= created.len(),
            names@.map_values(|s: String| s@) == names_of(created@.take(i as int)),
        decreases created.len() - i,
    {
        assert(created@.take(i + 1).drop_last() =~= created@.take(i as int));
        match file_name(created[i].as_str()) {
            Some(n) => {
                let ghost before = names@.map_values(|s: String| s@);
                names.push(n);
                assert(names@.map_values(|s: String| s@) =~= before.push(file_name_spec(created@[i as int]@).unwrap()));
            },
            None => {},
        }
        i += 1;
    }
    assert(created@.take(created.len() as int) =~= created@);
    if names.len() == 0 {
        return None;
    }
    match best_tab_uid_for_path(panes, active_pane, dest.as_str()) {
        Some(uid) => Some((uid, names)),
        None => None,
    }
}

/// Whether `path` is among the favourite folders.
pub fn is_favorite(favorites: &Vec<String>, path: &str) -> (r: bool)
    ensures
        r == exists|k: int| 0 <= k < favorites@.len() && same_place((#[trigger] favorites@[k])@, path@),
{
    place_among(favorites, path)
}

/// Adds `path` to the favourite folders, or removes the first favourite
/// naming the same folder.
pub fn toggle_favorite(favorites: &mut Vec<String>, path: String)
    ensures
        ({
            let f = old(favorites)@;
            if exists|k: int| 0 <= k < f.len() && same_place((#[trigger] f[k])@, path@) {
                exists|k: int| 0 <= k < f.len() && same_place(f[k]@, path@)
                    && (forall|j: int| 0 <= j < k ==> !same_place((#[trigger] f[j])@, path@))
                    && final(favorites)@ == f.remove(k)
            } else {
                final(favorites)@ == f.push(path)
            }
        }),
{
    let mut k: usize = 0;
    while k < favorites.len()
        invariant
            k <= favorites.len(),
            favorites@ == old(favorites)@,
            forall|j: int| 0 <= j < k ==> !same_place((#[trigger] favorites@[j])@, path@),
        decreases favorites.len() - k,
    {
        if same_path(favorites[k].as_str(), path.as_str()) {
            let _ = favorites.remove(k);
            return;
        }
        k += 1;
    }
    favorites.push(path);
}

/// Moves a tab: within a pane it is reordered, between panes it is taken
/// from one (never its last tab) and inserted into the other. Returns the
/// pane that becomes active, or none when nothing moved for want of a pane
/// or a tab.
pub fn relocate_tab(panes: &mut Vec<PaneState>, from_pane: usize, from_index: usize, to_pane: usize, to_index: usize) -> (r: Option<usize>)
    ensures
        from_pane >= old(panes)@.len() || to_pane >= old(panes)@.len() ==> r is None && final(panes)@ == old(panes)@,
        from_pane < old(panes)@.len() && to_pane < old(panes)@.len() && from_pane == to_pane ==> {
            let p = old(panes)@[from_pane as int];
            let n = p.tabs@.len() as int;
            let t1 = if (to_index as int) < n { to_index as int } else { n };
            let t2 = if (from_index as int) < t1 { t1 - 1 } else { t1 };
            &&& r == Some(from_pane)
            &&& final(panes)@.len() == old(panes)@.len()
            &&& forall|j: int| 0 <= j < old(panes)@.len() && j != from_pane ==> #[trigger] final(panes)@[j] == old(panes)@[j]
            &&& if from_index as int >= n || from_index == to_index {
                final(panes)@[from_pane as int].tabs@ == p.tabs@ && final(panes)@[from_pane as int].active_tab == p.active_tab
            } else {
                &&& final(panes)@[from_pane as int].tabs@ == p.tabs@.remove(from_index as int).insert(t2, p.tabs@[from_index as int])
                &&& final(panes)@[from_pane as int].active_tab == t2
            }
        },
        from_pane < old(panes)@.len() && to_pane < old(panes)@.len() && from_pane != to_pane ==> {
            let src = old(panes)@[from_pane as int];
            let dst = old(panes)@[to_pane as int];
            let moved = src.tabs@.len() > 1 && from_index < src.tabs@.len();
            let at = if (to_index as int) < dst.tabs@.len() { to_index as int } else { dst.tabs@.len() as int };
            &&& final(panes)@.len() == old(panes)@.len()
            &&& forall|j: int| 0 <= j < old(panes)@.len() && j != from_pane && j != to_pane ==> #[trigger] final(panes)@[j] == old(panes)@[j]
            &&& !moved ==> r is None && forall|j: int| 0 <= j < old(panes)@.len() ==>
                (#[trigger] final(panes)@[j]).tabs@ == old(panes)@[j].tabs@ && final(panes)@[j].active_tab == old(panes)@[j].active_tab
            &&& moved ==> {
                &&& r == Some(to_pane)
                &&& final(panes)@[from_pane as int].tabs@ == src.tabs@.remove(from_index as int)
                &&& final(panes)@[to_pane as int].tabs@ == dst.tabs@.insert(at, src.tabs@[from_index as int])
                &&& final(panes)@[to_pane as int].active_tab == at
                &&& final(panes)@[from_pane as int].active_tab == if src.active_tab >= src.tabs@.len() - 1 {
                    (src.tabs@.len() - 2) as usize
                } else if src.active_tab > from_index {
                    (src.active_tab - 1) as usize
                } else {
                    src.active_tab
                }
            }
        },
{
    if from_pane >= panes.len() || to_pane >= panes.len() {
        return None;
    }
    if from_pane == to_pane {
        panes[from_pane].reorder_tab(from_index, to_index);
        return Some(from_pane);
    }
    match panes[from_pane].take_tab(from_index) {
        None => None,
        Some(tab) => {
            panes[to_pane].insert_tab(to_index, tab);
            Some(to_pane)
        },
    }
}

} // verus!
