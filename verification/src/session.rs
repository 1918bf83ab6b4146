//! The panes and tabs a session file keeps, and the panes rebuilt from it
//! at start-up.
use vstd::prelude::*;
use crate::sort::{SortKey, SortSpec};
use crate::state::{PaneState, SessionPane, SessionTab, TabState};

verus! {

/// What a session keeps of a tab: path, lock, sort, title and colour.
pub open spec fn tab_keep(t: TabState) -> (Seq<char>, bool, SortSpec, Option<Seq<char>>, Option<Seq<char>>) {
    (t.path@, t.locked, t.sort, opt_view(t.custom_title), opt_view(t.color))
}

pub open spec fn saved_keep(t: SessionTab) -> (Seq<char>, bool, SortSpec, Option<Seq<char>>, Option<Seq<char>>) {
    (t.path@, t.locked, t.sort, opt_view(t.custom_title), opt_view(t.color))
}

pub open spec fn opt_view(o: Option<String>) -> Option<Seq<char>> {
    match o {
        Some(s) => Some(s@),
        None => None,
    }
}

fn opt_copy(o: &Option<String>) -> (r: Option<String>)
    ensures
        opt_view(r) == opt_view(*o),
{
    match o {
        Some(s) => Some(s.clone()),
        None => None,
    }
}

/// A pane as a session keeps it: its tabs and its active tab.
pub open spec fn pane_keep(p: PaneState) -> (Seq<(Seq<char>, bool, SortSpec, Option<Seq<char>>, Option<Seq<char>>)>, usize) {
    (p.tabs@.map_values(|t: TabState| tab_keep(t)), p.active_tab)
}

pub open spec fn saved_pane_keep(p: SessionPane) -> (Seq<(Seq<char>, bool, SortSpec, Option<Seq<char>>, Option<Seq<char>>)>, usize) {
    (p.tabs@.map_values(|t: SessionTab| saved_keep(t)), p.active_tab)
}

/// The session's record of each pane: its tabs and its active tab.
pub fn session_panes(panes: &Vec<PaneState>) -> (r: Vec<SessionPane>)
    ensures
        r@.map_values(|p: SessionPane| saved_pane_keep(p)) == panes@.map_values(|p: PaneState| pane_keep(p)),
{
    let mut out: Vec<SessionPane> = Vec::new();
    let mut i: usize = 0;
    while i < panes.len()
        invariant
            i <= panes.len(),
            out@.len() == i,
            forall|k: int| 0 <= k < i ==> saved_pane_keep(#[trigger] out@[k]) == pane_keep(panes@[k]),
        decreases panes.len() - i,
    {
        let p = &panes[i];
        let mut tabs: Vec<SessionTab> = Vec::new();
        let mut j: usize = 0;
        while j < p.tabs.len()
            invariant
                j <= p.tabs.len(),
                tabs@.len() == j,
                forall|m: int| 0 <= m < j ==> saved_keep(#[trigger] tabs@[m]) == tab_keep(p.tabs@[m]),
            decreases p.tabs.len() - j,
        {
            let t = &p.tabs[j];
            tabs.push(SessionTab {
                path: t.path.clone(),
                locked: t.locked,
                sort: t.sort,
                custom_title: opt_copy(&t.custom_title),
                color: opt_copy(&t.color),
            });
            j += 1;
        }
        let sp = SessionPane { tabs, active_tab: p.active_tab };
        assert(saved_pane_keep(sp).0 =~= pane_keep(*p).0);
        out.push(sp);
        i += 1;
    }
    assert(out@.map_values(|p: SessionPane| saved_pane_keep(p)) =~= panes@.map_values(|p: PaneState| pane_keep(p)));
    out
}

pub open spec fn default_sort() -> SortSpec {
    SortSpec { key: SortKey::Name, ascending: true }
}

/// A fresh tab at `home`, as a session keeps it.
pub open spec fn home_keep(home: Seq<char>) -> (Seq<char>, bool, SortSpec, Option<Seq<char>>, Option<Seq<char>>) {
    (home, false, default_sort(), None, None)
}

/// A saved tab as it comes back: its sort only when sorts are remembered.
pub open spec fn restored_tab(k: (Seq<char>, bool, SortSpec, Option<Seq<char>>, Option<Seq<char>>), remember_sort: bool) -> (Seq<char>, bool, SortSpec, Option<Seq<char>>, Option<Seq<char>>) {
    (k.0, k.1, if remember_sort { k.2 } else { default_sort() }, k.3, k.4)
}

/// A saved pane as it comes back: one tab at `home` when it had none, its
/// active tab clamped to its tabs.
pub open spec fn restored_pane(sp: (Seq<(Seq<char>, bool, SortSpec, Option<Seq<char>>, Option<Seq<char>>)>, usize), remember_sort: bool, home: Seq<char>) -> (Seq<(Seq<char>, bool, SortSpec, Option<Seq<char>>, Option<Seq<char>>)>, usize) {
    if sp.0.len() == 0 {
        (seq![home_keep(home)], 0)
    } else {
        (sp.0.map_values(|k: (Seq<char>, bool, SortSpec, Option<Seq<char>>, Option<Seq<char>>)| restored_tab(k, remember_sort)),
            if sp.1 < sp.0.len() - 1 { sp.1 } else { (sp.0.len() - 1) as usize })
    }
}

/// The panes a session comes back as: each saved pane restored, then
/// panes at `home` up to two.
pub open spec fn restore_spec(saved: Seq<(Seq<(Seq<char>, bool, SortSpec, Option<Seq<char>>, Option<Seq<char>>)>, usize)>, remember_sort: bool, home: Seq<char>) -> Seq<(Seq<(Seq<char>, bool, SortSpec, Option<Seq<char>>, Option<Seq<char>>)>, usize)> {
    let back = saved.map_values(|sp: (Seq<(Seq<char>, bool, SortSpec, Option<Seq<char>>, Option<Seq<char>>)>, usize)| restored_pane(sp, remember_sort, home));
    if back.len() < 2 {
        back + Seq::new((2 - back.len()) as nat, |i: int| (seq![home_keep(home)], 0usize))
    } else {
        back
    }
}

/// The panes rebuilt from a session (see `restore_spec`). Tabs get the
/// uids from `first_uid` on; the next free uid is returned too.
pub fn restore_panes(saved: &Vec<SessionPane>, remember_sort: bool, home: &str, first_uid: u64) -> (r: (Vec<PaneState>, u64))
    ensures
        r.0@.map_values(|p: PaneState| pane_keep(p)) == restore_spec(
            saved@.map_values(|p: SessionPane| saved_pane_keep(p)),
            remember_sort,
            home@,
        ),
        forall|i: int| 0 <= i < r.0@.len() ==> (#[trigger] r.0@[i]).tabs@.len() > 0 && r.0@[i].active_tab < r.0@[i].tabs@.len(),
{
    let ghost sv = saved@.map_values(|p: SessionPane| saved_pane_keep(p));
    let ghost want = restore_spec(sv, remember_sort, home@);
    let ghost back = sv.map_values(|sp: (Seq<(Seq<char>, bool, SortSpec, Option<Seq<char>>, Option<Seq<char>>)>, usize)| restored_pane(sp, remember_sort, home@));
    let mut uid = first_uid;
    let mut panes: Vec<PaneState> = Vec::new();
    let mut i: usize = 0;
    while i < saved.len()
        invariant
            i <= saved.len(),
            sv == saved@.map_values(|p: SessionPane| saved_pane_keep(p)),
            back == sv.map_values(|sp: (Seq<(Seq<char>, bool, SortSpec, Option<Seq<char>>, Option<Seq<char>>)>, usize)| restored_pane(sp, remember_sort, home@)),
            panes@.len() == i,
            forall|k: int| 0 <= k < i ==> pane_keep(#[trigger] panes@[k]) == back[k],
            forall|k: int| 0 <= k < panes@.len() ==> (#[trigger] panes@[k]).tabs@.len() > 0 && panes@[k].active_tab < panes@[k].tabs@.len(),
        decreases saved.len() - i,
    {
        let sp = &saved[i];
        let ghost tv = sp.tabs@.map_values(|t: SessionTab| saved_keep(t));
        let mut tabs: Vec<TabState> = Vec::new();
        let mut j: usize = 0;
        while j < sp.tabs.len()
            invariant
                j <= sp.tabs.len(),
                tabs@.len() == j,
                forall|m: int| 0 <= m < j ==> tab_keep(#[trigger] tabs@[m]) == restored_tab(saved_keep(sp.tabs@[m]), remember_sort),
            decreases sp.tabs.len() - j,
        {
            let st = &sp.tabs[j];
            let mut tab = TabState::new(st.path.clone(), uid);
            uid = uid.wrapping_add(1);
            tab.locked = st.locked;
            tab.custom_title = opt_copy(&st.custom_title);
            tab.color = opt_copy(&st.color);
            if remember_sort {
                tab.sort = st.sort;
            }
            tabs.push(tab);
            j += 1;
        }
        if tabs.len() == 0 {
            tabs.push(TabState::new(String::from_str(home), uid));
            uid = uid.wrapping_add(1);
            assert(tabs@.map_values(|t: TabState| tab_keep(t)) =~= seq![home_keep(home@)]);
        } else {
            assert(tabs@.map_values(|t: TabState| tab_keep(t)) =~= tv.map_values(
                |k: (Seq<char>, bool, SortSpec, Option<Seq<char>>, Option<Seq<char>>)| restored_tab(k, remember_sort)));
        }
        let last = tabs.len() - 1;
        let active = if sp.active_tab < last { sp.active_tab } else { last };
        let pane = PaneState { tabs, active_tab: active };
        assert(pane_keep(pane) == back[i as int]);
        panes.push(pane);
        i += 1;
    }
    while panes.len() < 2
        invariant
            back.len() == saved@.len(),
            back.len() <= panes@.len(),
            panes@.len() <= if back.len() < 2 { 2 } else { back.len() },
            forall|k: int| 0 <= k < back.len() ==> pane_keep(#[trigger] panes@[k]) == back[k],
            forall|k: int| back.len() <= k < panes@.len() ==> pane_keep(#[trigger] panes@[k]) == (seq![home_keep(home@)], 0usize),
            forall|k: int| 0 <= k < panes@.len() ==> (#[trigger] panes@[k]).tabs@.len() > 0 && panes@[k].active_tab < panes@[k].tabs@.len(),
        decreases 2 - panes.len(),
    {
        let mut tabs: Vec<TabState> = Vec::new();
        tabs.push(TabState::new(String::from_str(home), uid));
        uid = uid.wrapping_add(1);
        let pane = PaneState { tabs, active_tab: 0 };
        assert(pane_keep(pane).0 =~= seq![home_keep(home@)]);
        panes.push(pane);
    }
    assert(panes@.map_values(|p: PaneState| pane_keep(p)) =~= want);
    (panes, uid)
}

/// What a session saves is what it restores: with sorts remembered, a
/// layout of at least two panes, each with a tab and its active tab among
/// them, comes back with every tab's path, lock, sort, title and colour
/// and every pane's active tab.
pub proof fn law_session_round_trip(panes: Seq<PaneState>, home: Seq<char>)
    requires
        panes.len() >= 2,
        forall|i: int| 0 <= i < panes.len() ==> (#[trigger] panes[i]).tabs@.len() > 0 && panes[i].active_tab < panes[i].tabs@.len(),
    ensures
        restore_spec(panes.map_values(|p: PaneState| pane_keep(p)), true, home) == panes.map_values(|p: PaneState| pane_keep(p)),
{
    let kept = panes.map_values(|p: PaneState| pane_keep(p));
    let back = kept.map_values(|sp: (Seq<(Seq<char>, bool, SortSpec, Option<Seq<char>>, Option<Seq<char>>)>, usize)| restored_pane(sp, true, home));
    assert forall|i: int| 0 <= i < kept.len() implies #[trigger] back[i] == kept[i] by {
        let sp = kept[i];
        assert(sp.0.len() == panes[i].tabs@.len());
        assert(sp.0.map_values(|k: (Seq<char>, bool, SortSpec, Option<Seq<char>>, Option<Seq<char>>)| restored_tab(k, true)) =~= sp.0);
    }
    assert(back =~= kept);
}

} // verus!
