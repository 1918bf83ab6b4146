//! Pane and tab state: the folder a tab shows, its history, selection and
//! view, and the tabs of a pane.
use vstd::prelude::*;
use std::collections::HashSet;
use std::sync::Arc;
use crate::entry::FsEntry;
use crate::snapshot::DirSnapshot;
use crate::sort::SortSpec;
use crate::paths::{components, join_spec, name_or_whole, parent_spec};

verus! {

broadcast use vstd::std_specs::hash::group_hash_axioms;

#[derive(Clone, Copy, Debug, PartialEq, Eq, Structural)]
pub enum SplitDirection {
    /// Panes side by side.
    Vertical,
    /// Panes stacked.
    Horizontal,
}

#[derive(Clone, Copy, Debug, PartialEq, Eq, Structural)]
pub enum PaneLayout {
    Single,
    Dual(SplitDirection),
}

/// One browsing tab. Owns its snapshot, view, history, and selection.
pub struct TabState {
    /// Stable identity used to route async results to this tab.
    pub uid: u64,
    pub path: String,
    /// Entries accumulated while a listing is streaming in.
    pub pending: Vec<FsEntry>,
    /// True while a listing is being loaded.
    pub loading: bool,
    pub snapshot: DirSnapshot,
    /// Sorted + filtered indices into `snapshot.entries`.
    pub view: Arc<Vec<u32>>,
    pub sort: SortSpec,
    pub filter: String,
    pub locked: bool,
    /// Selected entry indices (into `snapshot.entries`, not the view).
    pub selection: HashSet<u32>,
    /// Anchor for shift-selection, as a view position.
    pub cursor: Option<usize>,
    pub history_back: Vec<String>,
    pub history_fwd: Vec<String>,
    pub generation: u64,
    /// Show all files under this folder recursively (flatten branch view).
    pub flatten: bool,
    /// Optional user-assigned tab name. `None` uses the folder name.
    pub custom_title: Option<String>,
    /// Optional tab color as RGB hex (e.g. "e84a4a"). `None` = default.
    pub color: Option<String>,
}

/// A tab's place in its history: the current folder, the folders behind it
/// (most recent last) and the folders ahead of it (next one last).
pub struct Hist {
    pub path: Seq<char>,
    pub back: Seq<Seq<char>>,
    pub fwd: Seq<Seq<char>>,
}

/// Navigating to a folder other than the current one pushes the current
/// one onto the back history and forgets the forward history.
pub open spec fn hist_navigate(h: Hist, to: Seq<char>) -> Hist {
    if components(to) == components(h.path) {
        h
    } else {
        Hist { path: to, back: h.back.push(h.path), fwd: Seq::empty() }
    }
}

pub open spec fn hist_back(h: Hist) -> Hist {
    if h.back.len() == 0 {
        h
    } else {
        Hist { path: h.back.last(), back: h.back.drop_last(), fwd: h.fwd.push(h.path) }
    }
}

pub open spec fn hist_forward(h: Hist) -> Hist {
    if h.fwd.len() == 0 {
        h
    } else {
        Hist { path: h.fwd.last(), back: h.back.push(h.path), fwd: h.fwd.drop_last() }
    }
}

/// Going back after navigating returns to where the tab was, with the
/// folder it had navigated to next in line for "forward".
pub proof fn law_back_undoes_navigate(h: Hist, to: Seq<char>)
    requires
        components(to) != components(h.path),
    ensures
        hist_back(hist_navigate(h, to)) == (Hist { path: h.path, back: h.back, fwd: seq![to] }),
{
    assert(h.back.push(h.path).drop_last() =~= h.back);
    assert(Seq::<Seq<char>>::empty().push(to) =~= seq![to]);
}

/// Forward after back restores the history exactly.
pub proof fn law_forward_undoes_back(h: Hist)
    requires
        h.back.len() > 0,
    ensures
        hist_forward(hist_back(h)) == h,
{
    assert(h.back.drop_last().push(h.back.last()) =~= h.back);
    assert(h.fwd.push(h.path).drop_last() =~= h.fwd);
}

/// Back after forward restores the history exactly.
pub proof fn law_back_undoes_forward(h: Hist)
    requires
        h.fwd.len() > 0,
    ensures
        hist_back(hist_forward(h)) == h,
{
    assert(h.fwd.drop_last().push(h.fwd.last()) =~= h.fwd);
    assert(h.back.push(h.path).drop_last() =~= h.back);
}

pub open spec fn strs(v: Seq<String>) -> Seq<Seq<char>> {
    v.map_values(|s: String| s@)
}

impl TabState {
    pub open spec fn hist(&self) -> Hist {
        Hist { path: self.path@, back: strs(self.history_back@), fwd: strs(self.history_fwd@) }
    }

    /// The fields that a change of folder leaves alone.
    pub open spec fn keeps_contents(&self, other: &TabState) -> bool {
        &&& self.uid == other.uid
        &&& self.pending == other.pending
        &&& self.loading == other.loading
        &&& self.snapshot == other.snapshot
        &&& self.view == other.view
        &&& self.sort == other.sort
        &&& self.locked == other.locked
        &&& self.custom_title == other.custom_title
        &&& self.color == other.color
    }

    /// What a change of folder resets: selection, cursor, filter, flatten,
    /// and a new generation.
    pub open spec fn reset_from(&self, old: &TabState) -> bool {
        &&& self.selection@ == Set::<u32>::empty()
        &&& self.cursor is None
        &&& self.filter@.len() == 0
        &&& !self.flatten
        &&& self.generation == old.generation + 1
    }

    pub fn new(path: String, uid: u64) -> (r: TabState)
        ensures
            r.uid == uid,
            r.path == path,
            r.pending@.len() == 0,
            !r.loading,
            r.snapshot.path == path,
            r.snapshot.entries@.len() == 0,
            r.snapshot.generation == 0,
            !r.snapshot.complete,
            r.snapshot.error is None,
            r.snapshot.dir_count == 0 && r.snapshot.file_count == 0 && r.snapshot.file_bytes == 0,
            r.view@.len() == 0,
            r.sort == (SortSpec { key: crate::sort::SortKey::Name, ascending: true }),
            r.filter@.len() == 0,
            !r.locked,
            r.selection@ == Set::<u32>::empty(),
            r.cursor is None,
            r.history_back@.len() == 0,
            r.history_fwd@.len() == 0,
            r.generation == 0,
            !r.flatten,
            r.custom_title is None,
            r.color is None,
    {
        TabState {
            uid,
            snapshot: DirSnapshot::empty(path.clone(), 0),
            path,
            pending: Vec::new(),
            loading: false,
            view: Arc::new(Vec::new()),
            sort: SortSpec::default(),
            filter: String::new(),
            locked: false,
            selection: HashSet::new(),
            cursor: None,
            history_back: Vec::new(),
            history_fwd: Vec::new(),
            generation: 0,
            flatten: false,
            custom_title: None,
            color: None,
        }
    }

    /// The folder's own name, or the whole path for a drive root.
    pub fn folder_name(&self) -> (r: String)
        ensures
            r@ == name_or_whole(self.path@),
    {
        crate::paths::name_or_whole_path(self.path.as_str())
    }

    /// The custom title when set and non-empty, else the folder name; a
    /// locked tab gets a padlock and a space in front.
    pub fn title(&self) -> (r: String)
        ensures
            ({
                let name = match self.custom_title {
                    Some(t) => if t@.len() > 0 { t@ } else { name_or_whole(self.path@) },
                    None => name_or_whole(self.path@),
                };
                r@ == if self.locked { seq!['\u{1F512}', ' '] + name } else { name }
            }),
    {
        let name = match &self.custom_title {
            Some(t) => if !t.as_str().is_empty() { t.clone() } else { self.folder_name() },
            None => self.folder_name(),
        };
        if self.locked {
            let mut s = String::new();
            crate::text::push_char(&mut s, '\u{1F512}');
            crate::text::push_char(&mut s, ' ');
            s.append(name.as_str());
            assert(s@ =~= seq!['\u{1F512}', ' '] + name@);
            s
        } else {
            name
        }
    }

    fn on_path_changed(&mut self)
        requires
            old(self).generation < u64::MAX,
        ensures
            final(self).reset_from(old(self)),
            final(self).keeps_contents(old(self)),
            final(self).hist() == old(self).hist(),
    {
        self.selection.clear();
        self.cursor = None;
        self.filter = String::new();
        self.flatten = false;
        self.generation += 1;
    }

    /// Record navigation to a new path (pushes the current path to the back
    /// history and clears the forward history). Navigating to the same path
    /// does nothing.
    pub fn navigate(&mut self, to: String)
        requires
            components(to@) != components(old(self).path@) ==> old(self).generation < u64::MAX,
        ensures
            final(self).hist() == hist_navigate(old(self).hist(), to@),
            components(to@) == components(old(self).path@) ==> *final(self) == *old(self),
            components(to@) != components(old(self).path@) ==> final(self).reset_from(old(self)),
            final(self).keeps_contents(old(self)),
    {
        if crate::paths::same_path(to.as_str(), self.path.as_str()) {
            return;
        }
        let mut old_path = to;
        std::mem::swap(&mut self.path, &mut old_path);
        let ghost b0 = self.history_back@;
        self.history_back.push(old_path);
        assert(strs(self.history_back@) =~= strs(b0).push(old_path@));
        self.history_fwd = Vec::new();
        assert(strs(self.history_fwd@) =~= Seq::<Seq<char>>::empty());
        self.on_path_changed();
    }

    /// Go to the previous folder; false when there is none.
    pub fn go_back(&mut self) -> (r: bool)
        requires
            old(self).history_back@.len() > 0 ==> old(self).generation < u64::MAX,
        ensures
            r == (old(self).history_back@.len() > 0),
            final(self).hist() == hist_back(old(self).hist()),
            r ==> final(self).reset_from(old(self)),
            !r ==> *final(self) == *old(self),
            final(self).keeps_contents(old(self)),
    {
        if self.history_back.len() == 0 {
            return false;
        }
        if let Some(prev) = self.history_back.pop() {
            let mut old_path = prev;
            std::mem::swap(&mut self.path, &mut old_path);
            let ghost f0 = self.history_fwd@;
            self.history_fwd.push(old_path);
            assert(strs(self.history_fwd@) =~= strs(f0).push(old_path@));
            assert(strs(old(self).history_back@).drop_last() =~= strs(self.history_back@));
            self.on_path_changed();
            true
        } else {
            false
        }
    }

    /// Go to the next folder; false when there is none.
    pub fn go_forward(&mut self) -> (r: bool)
        requires
            old(self).history_fwd@.len() > 0 ==> old(self).generation < u64::MAX,
        ensures
            r == (old(self).history_fwd@.len() > 0),
            final(self).hist() == hist_forward(old(self).hist()),
            r ==> final(self).reset_from(old(self)),
            !r ==> *final(self) == *old(self),
            final(self).keeps_contents(old(self)),
    {
        if self.history_fwd.len() == 0 {
            return false;
        }
        if let Some(next) = self.history_fwd.pop() {
            let mut old_path = next;
            std::mem::swap(&mut self.path, &mut old_path);
            let ghost b0 = self.history_back@;
            self.history_back.push(old_path);
            assert(strs(self.history_back@) =~= strs(b0).push(old_path@));
            assert(strs(old(self).history_fwd@).drop_last() =~= strs(self.history_fwd@));
            self.on_path_changed();
            true
        } else {
            false
        }
    }

    /// Navigate to the parent folder; false when there is none.
    pub fn go_up(&mut self) -> (r: bool)
        requires
            parent_spec(old(self).path@) is Some ==> old(self).generation < u64::MAX,
        ensures
            r == (parent_spec(old(self).path@) is Some),
            r ==> final(self).hist() == hist_navigate(old(self).hist(), parent_spec(old(self).path@)->0),
            r ==> final(self).reset_from(old(self)),
            !r ==> *final(self) == *old(self),
            final(self).keeps_contents(old(self)),
    {
        match crate::paths::parent(self.path.as_str()) {
            Some(parent) => {
                proof {
                    crate::paths::lemma_parent_differs(self.path@);
                }
                self.navigate(parent);
                true
            },
            None => false,
        }
    }

    /// Whether entry `i` is selected and exists.
    pub open spec fn picked(&self, i: int) -> bool {
        0 <= i < self.snapshot.entries@.len() && i <= u32::MAX && self.selection@.contains(i as u32)
    }

    /// `out` lists, for the ascending indices `idx` of exactly the selected
    /// entries, each entry's name (or its full path).
    pub open spec fn lists_picked(&self, out: Seq<Seq<char>>, idx: Seq<int>, paths: bool) -> bool {
        &&& idx.len() == out.len()
        &&& (forall|a: int, b: int| 0 <= a < b < idx.len() ==> idx[a] < idx[b])
        &&& (forall|k: int| 0 <= k < idx.len() ==> self.picked(#[trigger] idx[k]) && out[k] == if paths {
            join_spec(self.path@, self.snapshot.entries@[idx[k]].name@)
        } else {
            self.snapshot.entries@[idx[k]].name@
        })
        &&& (forall|i: int| self.picked(i) ==> idx.contains(i))
    }

    /// Names of the selected entries, in listing order.
    pub fn selected_names(&self) -> (r: Vec<String>)
        ensures
            exists|idx: Seq<int>| #[trigger] self.lists_picked(strs(r@), idx, false),
    {
        let entries = &*self.snapshot.entries;
        let n = entries.len();
        let mut out: Vec<String> = Vec::new();
        let ghost mut idx: Seq<int> = Seq::empty();
        let mut i: usize = 0;
        while i < n && i <= 0xFFFF_FFFFusize
            invariant
                n == entries@.len(),
                entries@ == self.snapshot.entries@,
                i <= n,
                idx.len() == out@.len(),
                forall|a: int, b: int| 0 <= a < b < idx.len() ==> idx[a] < idx[b],
                forall|k: int| 0 <= k < idx.len() ==> idx[k] < i && self.picked(#[trigger] idx[k]) && out@[k]@ == entries@[idx[k]].name@,
                forall|j: int| 0 <= j < i && self.picked(j) ==> idx.contains(j),
            decreases n - i,
        {
            if self.selection.contains(&(i as u32)) {
                out.push(entries[i].name.clone());
                proof {
                    let old_idx = idx;
                    idx = idx.push(i as int);
                    assert forall|j: int| 0 <= j < i + 1 && self.picked(j) implies idx.contains(j) by {
                        if j < i {
                            let k = choose|k: int| 0 <= k < old_idx.len() && old_idx[k] == j;
                            assert(idx[k] == j);
                        } else {
                            assert(idx[idx.len() - 1] == j);
                        }
                    }
                }
            } else {
                proof {
                    assert forall|j: int| 0 <= j < i + 1 && self.picked(j) implies idx.contains(j) by {
                        if j == i {
                            assert(self.selection@.contains(i as u32));
                        }
                    }
                }
            }
            i += 1;
        }
        proof {
            assert forall|j: int| self.picked(j) implies idx.contains(j) by {
                assert(j < i);
            }
            assert(self.lists_picked(strs(out@), idx, false));
        }
        out
    }

    /// Full paths of the selected entries, in listing order.
    pub fn selected_paths(&self) -> (r: Vec<String>)
        ensures
            exists|idx: Seq<int>| #[trigger] self.lists_picked(strs(r@), idx, true),
    {
        let names = self.selected_names();
        let ghost idx = choose|idx: Seq<int>| #[trigger] self.lists_picked(strs(names@), idx, false);
        let mut out: Vec<String> = Vec::new();
        let mut k: usize = 0;
        while k < names.len()
            invariant
                k <= names.len(),
                out@.len() == k,
                forall|j: int| 0 <= j < k ==> out@[j]@ == join_spec(self.path@, names@[j]@),
            decreases names.len() - k,
        {
            out.push(crate::paths::join(self.path.as_str(), names[k].as_str()));
            k += 1;
        }
        assert(self.lists_picked(strs(out@), idx, true));
        out
    }

    /// The path of the entry under the cursor, if the cursor is on a row.
    pub fn cursor_path(&self) -> (r: Option<String>)
        ensures
            ({
                let v = self.view@;
                let es = self.snapshot.entries@;
                match self.cursor {
                    Some(pos) => if pos < v.len() && (v[pos as int] as int) < es.len() {
                        r matches Some(p) && p@ == join_spec(self.path@, es[v[pos as int] as int].name@)
                    } else {
                        r is None
                    },
                    None => r is None,
                }
            }),
    {
        let pos = match self.cursor {
            Some(p) => p,
            None => return None,
        };
        let view = &*self.view;
        if pos >= view.len() {
            return None;
        }
        let ei = view[pos] as usize;
        let entries = &*self.snapshot.entries;
        if ei >= entries.len() {
            return None;
        }
        Some(crate::paths::join(self.path.as_str(), entries[ei].name.as_str()))
    }

    /// Selected items, or the cursor row when nothing is selected.
    pub fn paths_for_clipboard(&self) -> (r: Vec<String>)
        ensures
            ({
                let selected_any = exists|i: int| self.picked(i);
                &&& selected_any ==> r@.len() > 0
                &&& selected_any ==> exists|idx: Seq<int>| #[trigger] self.lists_picked(strs(r@), idx, true)
                &&& !selected_any ==> match self.cursor_path_spec() {
                    Some(p) => r@.len() == 1 && r@[0]@ == p,
                    None => r@.len() == 0,
                }
            }),
    {
        let paths = self.selected_paths();
        if paths.len() > 0 {
            proof {
                let idx = choose|idx: Seq<int>| #[trigger] self.lists_picked(strs(paths@), idx, true);
                assert(self.picked(idx[0]));
            }
            return paths;
        }
        proof {
            if exists|i: int| self.picked(i) {
                let i = choose|i: int| self.picked(i);
                let idx = choose|idx: Seq<int>| #[trigger] self.lists_picked(strs(paths@), idx, true);
                assert(idx.contains(i));
            }
        }
        let mut out: Vec<String> = Vec::new();
        match self.cursor_path() {
            Some(p) => {
                out.push(p);
            },
            None => {},
        }
        out
    }

    /// The cursor row's path (see `cursor_path`).
    pub open spec fn cursor_path_spec(&self) -> Option<Seq<char>> {
        let v = self.view@;
        let es = self.snapshot.entries@;
        match self.cursor {
            Some(pos) => if pos < v.len() && (v[pos as int] as int) < es.len() {
                Some(join_spec(self.path@, es[v[pos as int] as int].name@))
            } else {
                None
            },
            None => None,
        }
    }
}


/// One pane holds a set of tabs.
pub struct PaneState {
    pub tabs: Vec<TabState>,
    pub active_tab: usize,
}

pub open spec fn min_usize(a: int, b: int) -> int {
    if a < b { a } else { b }
}

impl PaneState {
    /// The tab shown: the active one, clamped to the last tab.
    pub open spec fn shown(&self) -> int {
        min_usize(self.active_tab as int, self.tabs@.len() - 1)
    }

    pub fn new(path: String, uid: u64) -> (r: PaneState)
        ensures
            r.tabs@.len() == 1,
            r.tabs@[0].uid == uid,
            r.tabs@[0].path == path,
            r.tabs@[0].history_back@.len() == 0,
            r.active_tab == 0,
    {
        let mut tabs: Vec<TabState> = Vec::new();
        tabs.push(TabState::new(path, uid));
        PaneState { tabs, active_tab: 0 }
    }

    /// The active tab (clamped to the last one).
    pub fn tab(&self) -> (r: &TabState)
        requires
            self.tabs@.len() > 0,
        ensures
            *r == self.tabs@[self.shown()],
    {
        let last = self.tabs.len() - 1;
        let i = if self.active_tab < last { self.active_tab } else { last };
        &self.tabs[i]
    }

    /// Mutable access to the active tab (clamped to the last one).
    pub fn tab_mut(&mut self) -> (r: &mut TabState)
        requires
            old(self).tabs@.len() > 0,
        ensures
            *r == old(self).tabs@[old(self).shown()],
            final(self).tabs@ == old(self).tabs@.update(old(self).shown(), *final(r)),
            final(self).active_tab == old(self).active_tab,
    {
        let last = self.tabs.len() - 1;
        let i = if self.active_tab < last { self.active_tab } else { last };
        &mut self.tabs[i]
    }

    /// Append a tab and make it active.
    pub fn add_tab(&mut self, path: String, uid: u64)
        ensures
            final(self).tabs@.len() == old(self).tabs@.len() + 1,
            final(self).tabs@.drop_last() == old(self).tabs@,
            final(self).tabs@.last().uid == uid,
            final(self).tabs@.last().path == path,
            final(self).active_tab == old(self).tabs@.len(),
    {
        self.tabs.push(TabState::new(path, uid));
        self.active_tab = self.tabs.len() - 1;
        assert(self.tabs@.drop_last() =~= old(self).tabs@);
    }

    /// Insert a tab right after the active one without switching to it.
    /// Returns the new tab's index.
    pub fn insert_tab_beside(&mut self, path: String, uid: u64) -> (r: usize)
        requires
            old(self).active_tab < usize::MAX,
        ensures
            r == min_usize(old(self).active_tab + 1, old(self).tabs@.len() as int),
            final(self).tabs@.len() == old(self).tabs@.len() + 1,
            final(self).tabs@.remove(r as int) == old(self).tabs@,
            final(self).tabs@[r as int].uid == uid,
            final(self).tabs@[r as int].path == path,
            final(self).active_tab == old(self).active_tab,
    {
        let index = if self.active_tab + 1 < self.tabs.len() { self.active_tab + 1 } else { self.tabs.len() };
        self.tabs.insert(index, TabState::new(path, uid));
        assert(self.tabs@.remove(index as int) =~= old(self).tabs@);
        index
    }

    /// Close a tab; refuses the last tab, an index out of range and a locked
    /// tab (returns false and changes nothing).
    pub fn close_tab(&mut self, index: usize) -> (r: bool)
        ensures
            r == (old(self).tabs@.len() > 1 && index < old(self).tabs@.len() && !old(self).tabs@[index as int].locked),
            r ==> final(self).tabs@ == old(self).tabs@.remove(index as int),
            r ==> final(self).active_tab == if old(self).active_tab >= old(self).tabs@.len() - 1 {
                (old(self).tabs@.len() - 2) as usize
            } else {
                old(self).active_tab
            },
            !r ==> final(self).tabs@ == old(self).tabs@ && final(self).active_tab == old(self).active_tab,
            final(self).tabs@.len() >= 1 || old(self).tabs@.len() == 0,
    {
        if self.tabs.len() <= 1 || index >= self.tabs.len() || self.tabs[index].locked {
            return false;
        }
        self.tabs.remove(index);
        if self.active_tab >= self.tabs.len() {
            self.active_tab = self.tabs.len() - 1;
        }
        true
    }

    /// Remove a tab so it can be moved to another pane. Refuses the last tab
    /// and an index out of range.
    pub fn take_tab(&mut self, index: usize) -> (r: Option<TabState>)
        ensures
            (r is Some) == (old(self).tabs@.len() > 1 && index < old(self).tabs@.len()),
            r matches Some(t) ==> t == old(self).tabs@[index as int]
                && final(self).tabs@ == old(self).tabs@.remove(index as int)
                && final(self).active_tab == if old(self).active_tab >= old(self).tabs@.len() - 1 {
                    (old(self).tabs@.len() - 2) as usize
                } else if old(self).active_tab > index {
                    (old(self).active_tab - 1) as usize
                } else {
                    old(self).active_tab
                },
            r is None ==> final(self).tabs@ == old(self).tabs@ && final(self).active_tab == old(self).active_tab,
    {
        if self.tabs.len() <= 1 || index >= self.tabs.len() {
            return None;
        }
        let tab = self.tabs.remove(index);
        if self.active_tab >= self.tabs.len() {
            self.active_tab = self.tabs.len() - 1;
        } else if self.active_tab > index {
            self.active_tab -= 1;
        }
        Some(tab)
    }

    /// Insert a tab at `index` (clamped to the end) and make it active.
    pub fn insert_tab(&mut self, index: usize, tab: TabState)
        ensures
            ({
                let i = min_usize(index as int, old(self).tabs@.len() as int);
                &&& final(self).tabs@ == old(self).tabs@.insert(i, tab)
                &&& final(self).active_tab == i
            }),
    {
        let index = if index < self.tabs.len() { index } else { self.tabs.len() };
        self.tabs.insert(index, tab);
        self.active_tab = index;
    }

    /// Move a tab within this pane; `to` is the insertion index before the
    /// removal. The moved tab becomes active. Out-of-range `from` or
    /// `from == to` changes nothing.
    pub fn reorder_tab(&mut self, from: usize, to: usize)
        ensures
            ({
                let n = old(self).tabs@.len() as int;
                let t1 = min_usize(to as int, n);
                let t2 = if (from as int) < t1 { t1 - 1 } else { t1 };
                if from as int >= n || from == to {
                    final(self).tabs@ == old(self).tabs@ && final(self).active_tab == old(self).active_tab
                } else {
                    &&& final(self).tabs@ == old(self).tabs@.remove(from as int).insert(t2, old(self).tabs@[from as int])
                    &&& final(self).active_tab == t2
                }
            }),
    {
        if from >= self.tabs.len() || from == to {
            return;
        }
        let mut to = if to < self.tabs.len() { to } else { self.tabs.len() };
        let tab = self.tabs.remove(from);
        if from < to {
            to -= 1;
        }
        to = if to < self.tabs.len() { to } else { self.tabs.len() };
        self.tabs.insert(to, tab);
        self.active_tab = to;
    }
}

/// Reordering keeps the same tabs: the moved tab is still there once, and
/// every other tab keeps its place relative to the rest.
pub proof fn law_reorder_keeps_tabs(tabs: Seq<TabState>, from: int, to: int)
    requires
        0 <= from < tabs.len(),
        0 <= to <= tabs.len() - 1,
    ensures
        tabs.remove(from).insert(to, tabs[from]).len() == tabs.len(),
        tabs.remove(from).insert(to, tabs[from])[to] == tabs[from],
        tabs.remove(from).insert(to, tabs[from]).remove(to) == tabs.remove(from),
{
    let r = tabs.remove(from);
    assert(r.insert(to, tabs[from]).remove(to) =~= r);
}

/// A pane as saved in the session file.
#[derive(Clone, Debug)]
pub struct SessionPane {
    pub tabs: Vec<SessionTab>,
    pub active_tab: usize,
}

/// A tab as saved in the session file.
#[derive(Clone, Debug)]
pub struct SessionTab {
    pub path: String,
    pub locked: bool,
    pub sort: SortSpec,
    pub custom_title: Option<String>,
    pub color: Option<String>,
}

} // verus!
