//! What the application's commands decide before they act: the program
//! line a terminal is started with, the entry Enter opens, the whole view
//! selected, whether folders can be compared, and the name a new item
//! gets.
use vstd::prelude::*;
use std::collections::HashSet;
use crate::state::{PaneLayout, TabState};
use crate::sort::{SortKey, SortSpec};
use crate::jobs::Job;
use crate::ui_state::{SearchMode, SearchState};
use crate::ui_state::{split_cmdline, split_cmdline_spec, strings_view, invalid_item_name, name_problem};
use crate::rename::{replace_spec, replace_str};
use crate::shell::is_recycle_path;
use crate::address::is_recycle_spec;
use crate::vfs::split_zip_path;
use crate::ops::{auto_rename, path_exists, renamed_candidate};
use crate::paths::{file_name, file_name_spec, join, join_spec, last_dot, last_dot_exec};
use crate::keymap::ascii_ci_eq;
use crate::text::{chars_of, owned, string_of, trim, trim_bounds};

verus! {

broadcast use vstd::std_specs::hash::group_hash_axioms;

/// The words of the terminal command with `{path}` replaced by the folder.
pub open spec fn terminal_words(command: Seq<char>, folder: Seq<char>) -> Seq<Seq<char>> {
    split_cmdline_spec(replace_spec(command, "{path}"@, folder))
}

/// The program and arguments the terminal command starts in `folder`.
pub fn terminal_parts(command: &str, folder: &str) -> (r: Vec<String>)
    ensures
        strings_view(r@) == terminal_words(command@, folder@),
{
    proof {
        reveal_strlit("{path}");
    }
    let filled = replace_str(command, "{path}", folder);
    split_cmdline(filled.as_str())
}

/// What `rsplit('.').next()` gives: the text after the last dot, or the
/// whole name when there is none.
pub open spec fn after_last_dot(n: Seq<char>) -> Seq<char> {
    if last_dot(n) < 0 { n } else { n.subrange(last_dot(n) + 1, n.len() as int) }
}

/// The entry Enter opens: the one under the cursor, when it is a folder or
/// its name's last dotted part is `zip` (any case).
pub open spec fn enter_target_spec(tab: TabState) -> Option<u32> {
    match tab.cursor {
        Some(pos) => if (pos as int) < tab.view@.len() {
            let ei = tab.view@[pos as int];
            if (ei as int) < tab.snapshot.entries@.len() {
                let e = tab.snapshot.entries@[ei as int];
                if e.dir() || ascii_ci_eq(after_last_dot(e.name@), "zip"@) { Some(ei) } else { None }
            } else {
                None
            }
        } else {
            None
        },
        None => None,
    }
}

fn ci_zip(s: &Vec<char>, lo: usize) -> (r: bool)
    requires
        lo <= s.len(),
    ensures
        r == ascii_ci_eq(s@.subrange(lo as int, s.len() as int), "zip"@),
{
    proof {
        reveal_strlit("zip");
    }
    if s.len() - lo != 3 {
        return false;
    }
    let a = crate::text::ascii_lower(s[lo]);
    let b = crate::text::ascii_lower(s[lo + 1]);
    let c = crate::text::ascii_lower(s[lo + 2]);
    let r = a == 'z' && b == 'i' && c == 'p';
    proof {
        let t = s@.subrange(lo as int, s.len() as int);
        assert(t[0] == s@[lo as int] && t[1] == s@[lo + 1] && t[2] == s@[lo + 2]);
        if r {
            assert forall|i: int| 0 <= i < t.len() implies crate::text::lower(#[trigger] t[i]) == crate::text::lower("zip"@[i]) by {
                assert(i == 0 || i == 1 || i == 2);
            }
        } else if ascii_ci_eq(t, "zip"@) {
            assert(crate::text::lower(t[0]) == crate::text::lower("zip"@[0]));
            assert(crate::text::lower(t[1]) == crate::text::lower("zip"@[1]));
            assert(crate::text::lower(t[2]) == crate::text::lower("zip"@[2]));
        }
    }
    r
}

/// The entry Enter opens, if any (see `enter_target_spec`).
pub fn enter_folder_target(tab: &TabState) -> (r: Option<u32>)
    ensures
        r == enter_target_spec(*tab),
{
    let pos = match tab.cursor {
        Some(p) => p,
        None => return None,
    };
    if pos >= tab.view.len() {
        return None;
    }
    let ei = tab.view[pos];
    if ei as usize >= tab.snapshot.entries.len() {
        return None;
    }
    let e = &tab.snapshot.entries[ei as usize];
    if e.is_dir() {
        return Some(ei);
    }
    let n = chars_of(e.name.as_str());
    let lo: usize = match last_dot_exec(&n) {
        Some(d) => d + 1,
        None => 0,
    };
    proof {
        if lo == 0 {
            assert(n@.subrange(0, n@.len() as int) =~= n@);
        }
    }
    if ci_zip(&n, lo) { Some(ei) } else { None }
}

/// Selects every entry the view shows.
pub fn select_all(tab: &mut TabState)
    ensures
        final(tab).selection@ == Set::new(|x: u32| old(tab).view@.contains(x)),
        final(tab).cursor == old(tab).cursor,
        final(tab).view == old(tab).view,
        final(tab).snapshot == old(tab).snapshot,
        final(tab).path == old(tab).path,
        final(tab).uid == old(tab).uid,
{
    let view = &*tab.view;
    let mut sel: HashSet<u32> = HashSet::new();
    let mut i: usize = 0;
    while i < view.len()
        invariant
            i <= view.len(),
            forall|x: u32| sel@.contains(x) <==> exists|k: int| 0 <= k < i && #[trigger] view@[k] == x,
        decreases view.len() - i,
    {
        sel.insert(view[i]);
        proof {
            assert forall|x: u32| sel@.contains(x) <==> exists|k: int| 0 <= k < i + 1 && #[trigger] view@[k] == x by {
                if x == view@[i as int] {
                    assert(view@[i as int] == x);
                }
            }
        }
        i += 1;
    }
    assert(sel@ =~= Set::new(|x: u32| old(tab).view@.contains(x)));
    tab.selection = sel;
}

/// Why two folders cannot be compared: comparing needs two panes, and
/// neither may be the Recycle Bin.
pub open spec fn compare_problem(layout: PaneLayout, left: Seq<char>, right: Seq<char>) -> Option<Seq<char>> {
    if layout is Single {
        Some("Compare folders needs a dual-pane layout"@)
    } else if is_recycle_spec(left) || is_recycle_spec(right) {
        Some("Cannot compare the Recycle Bin"@)
    } else {
        None
    }
}

/// Whether the folders of the two panes can be compared, with the message
/// shown when not.
pub fn check_compare(layout: PaneLayout, left: &str, right: &str) -> (r: Option<String>)
    ensures
        match r {
            Some(m) => compare_problem(layout, left@, right@) == Some(m@),
            None => compare_problem(layout, left@, right@) is None,
        },
{
    match layout {
        PaneLayout::Single => Some(owned("Compare folders needs a dual-pane layout")),
        PaneLayout::Dual(_) => if is_recycle_path(left) || is_recycle_path(right) {
            Some(owned("Cannot compare the Recycle Bin"))
        } else {
            None
        },
    }
}

/// The name a new item starts from.
pub open spec fn seed_name(is_folder: bool) -> Seq<char> {
    if is_folder { "New folder"@ } else { "New file.txt"@ }
}

/// Why a new item cannot be made in a folder of a zip file.
pub open spec fn zip_refusal(is_folder: bool) -> Seq<char> {
    if is_folder { "Can't create a folder inside a zip"@ } else { "Can't create a file inside a zip"@ }
}

/// The file name of `p`, or the seed name when it has none.
pub open spec fn name_or_seed(p: Seq<char>, is_folder: bool) -> Seq<char> {
    match file_name_spec(p) {
        Some(n) => n,
        None => seed_name(is_folder),
    }
}

/// The name the new-item prompt starts with in folder `path`: the seed
/// name, numbered (see `auto_rename`) when an item of that name exists.
/// The Recycle Bin and folders inside zip files refuse new items, with the
/// message to show. Whether the path runs through a zip and which names
/// are taken depend on the disk: when the answer is not the Recycle Bin's
/// refusal, it is the zip refusal or a name that is the seed's or one of
/// its numbered forms.
pub fn begin_new_item(path: &str, is_folder: bool) -> (r: Result<String, String>)
    ensures
        is_recycle_spec(path@) ==> (r matches Err(m) && m@ == "Can't create items in the Recycle Bin"@),
        !is_recycle_spec(path@) ==> match r {
            Err(m) => m@ == zip_refusal(is_folder),
            Ok(name) => {
                let dest = join_spec(path@, seed_name(is_folder));
                ||| name@ == name_or_seed(dest, is_folder)
                ||| exists|n: nat| 2 <= n < 10000 && name@ == name_or_seed(renamed_candidate(dest, n), is_folder)
            },
        },
{
    if is_recycle_path(path) {
        return Err(owned("Can't create items in the Recycle Bin"));
    }
    if split_zip_path(path).is_some() {
        return Err(if is_folder {
            owned("Can't create a folder inside a zip")
        } else {
            owned("Can't create a file inside a zip")
        });
    }
    let seed = if is_folder { "New folder" } else { "New file.txt" };
    let dest = auto_rename(join(path, seed).as_str());
    match file_name(dest.as_str()) {
        Some(n) => Ok(n),
        None => Ok(owned(seed)),
    }
}

/// What submitting the new-item prompt comes to.
pub enum NewItemOutcome {
    /// The name is refused; the prompt stays open with this message.
    Problem(String),
    /// The folder is inside a zip file; the prompt closes with a message.
    InsideZip,
    /// An item with that name already exists; the prompt stays open.
    Exists,
    /// Create the item at `dest`, then select `name`.
    Create { dest: String, name: String },
}

/// Submits the new-item prompt for folder `path`: the trimmed name must
/// pass `name_problem`; then the item is made unless the folder is inside
/// a zip or the name is taken, which depends on the disk.
pub fn new_item_request(path: &str, buffer: &str) -> (r: NewItemOutcome)
    ensures
        name_problem(trim(buffer@)) matches Some(m) ==> (r matches NewItemOutcome::Problem(p) && p@ == m),
        name_problem(trim(buffer@)) is None ==> match r {
            NewItemOutcome::Problem(_) => false,
            NewItemOutcome::Create { dest, name } => name@ == trim(buffer@) && dest@ == join_spec(path@, trim(buffer@)),
            _ => true,
        },
{
    let v = chars_of(buffer);
    let (lo, hi) = trim_bounds(&v);
    let name = string_of(&v, lo, hi);
    match invalid_item_name(name.as_str()) {
        Some(m) => return NewItemOutcome::Problem(owned(m)),
        None => {},
    }
    if split_zip_path(path).is_some() {
        return NewItemOutcome::InsideZip;
    }
    let dest = join(path, name.as_str());
    if path_exists(dest.as_str()) {
        return NewItemOutcome::Exists;
    }
    NewItemOutcome::Create { dest, name }
}

/// Sorting by a column: the same key again flips the direction, another
/// key sorts ascending by it.
pub fn sort_by(tab: &mut TabState, key: SortKey)
    ensures
        final(tab).sort == if old(tab).sort.key == key {
            SortSpec { key, ascending: !old(tab).sort.ascending }
        } else {
            SortSpec { key, ascending: true }
        },
        final(tab).view == old(tab).view,
        final(tab).snapshot == old(tab).snapshot,
        final(tab).selection == old(tab).selection,
        final(tab).path == old(tab).path,
        final(tab).uid == old(tab).uid,
        final(tab).generation == old(tab).generation,
{
    if tab.sort.key == key {
        tab.sort.ascending = !tab.sort.ascending;
    } else {
        tab.sort = SortSpec { key, ascending: true };
    }
}

/// Opens the search overlay: on a fresh opening in "name, here" mode.
/// Returns whether a search should run now (a fresh opening with a query).
pub fn open_search(s: &mut SearchState) -> (run: bool)
    ensures
        final(s).open,
        final(s).focus_requested,
        final(s).mode == if old(s).open { old(s).mode } else { SearchMode::NameHere },
        run == (!old(s).open && trim(old(s).query@).len() > 0),
        final(s).query == old(s).query,
        final(s).results == old(s).results,
        final(s).query_id == old(s).query_id,
        final(s).running == old(s).running,
        final(s).selected == old(s).selected,
{
    let already_open = s.open;
    s.open = true;
    s.focus_requested = true;
    if already_open {
        return false;
    }
    s.mode = SearchMode::NameHere;
    let v = chars_of(s.query.as_str());
    let (lo, hi) = trim_bounds(&v);
    lo < hi
}

/// A size limit in MiB as bytes, saturating.
pub open spec fn mib_bytes(mb: u64) -> u64 {
    if mb * 1048576 > u64::MAX { u64::MAX } else { (mb * 1048576) as u64 }
}

/// The search the overlay starts: none for a blank query; by name
/// everywhere or under the active folder (the hits ranked near it), or by
/// content under it with the file-size limit. At least one result is
/// always asked for.
pub open spec fn search_job_spec(mode: SearchMode, query: Seq<char>, max: usize, max_mb: u64, here: Seq<char>) -> Option<(int, Seq<char>, usize, Option<Seq<char>>, u64)> {
    let q = trim(query);
    let m = if max < 1 { 1usize } else { max };
    if q.len() == 0 {
        None
    } else {
        match mode {
            SearchMode::NameGlobal => Some((0, q, m, None, 0)),
            SearchMode::NameHere => Some((0, q, m, Some(here), 0)),
            SearchMode::Content => Some((1, q, m, Some(here), mib_bytes(max_mb))),
        }
    }
}

/// A search job as (kind: 0 by name, 1 by content; query; most results;
/// scope; file-size limit for content).
pub open spec fn job_shape(j: Job, id: u64) -> Option<(int, Seq<char>, usize, Option<Seq<char>>, u64)> {
    match j {
        Job::SearchNames { query_id, query, max, scope } => if query_id == id {
            Some((0, query@, max, match scope { Some(s) => Some(s@), None => None }, 0))
        } else {
            None
        },
        Job::ContentSearch { query_id, scope, needle, max_results, max_file_size } => if query_id == id {
            Some((1, needle@, max_results, Some(scope@), max_file_size))
        } else {
            None
        },
        _ => None,
    }
}

/// The job the search overlay submits for search `id` (see
/// `search_job_spec`).
pub fn search_job(mode: SearchMode, query: &str, max_results: usize, content_max_mb: u64, here: &str, id: u64) -> (r: Option<Job>)
    ensures
        match r {
            Some(j) => job_shape(j, id) == search_job_spec(mode, query@, max_results, content_max_mb, here@)
                && search_job_spec(mode, query@, max_results, content_max_mb, here@) is Some,
            None => search_job_spec(mode, query@, max_results, content_max_mb, here@) is None,
        },
{
    let v = chars_of(query);
    let (lo, hi) = trim_bounds(&v);
    if lo == hi {
        return None;
    }
    let q = string_of(&v, lo, hi);
    let max = if max_results < 1 { 1 } else { max_results };
    match mode {
        SearchMode::NameGlobal => Some(Job::SearchNames { query_id: id, query: q, max, scope: None }),
        SearchMode::NameHere => Some(Job::SearchNames { query_id: id, query: q, max, scope: Some(owned(here)) }),
        SearchMode::Content => {
            let bytes: u64 = if content_max_mb > u64::MAX / 1048576 { u64::MAX } else { content_max_mb * 1048576 };
            Some(Job::ContentSearch { query_id: id, scope: owned(here), needle: q, max_results: max, max_file_size: bytes })
        },
    }
}

/// The job the command palette submits for search `id`: folders by name
/// everywhere; none for a blank query.
pub fn palette_job(query: &str, max_results: usize, id: u64) -> (r: Option<Job>)
    ensures
        match r {
            Some(j) => job_shape(j, id) == search_job_spec(SearchMode::NameGlobal, query@, max_results, 0, Seq::empty())
                && search_job_spec(SearchMode::NameGlobal, query@, max_results, 0, Seq::empty()) is Some,
            None => search_job_spec(SearchMode::NameGlobal, query@, max_results, 0, Seq::empty()) is None,
        },
{
    search_job(SearchMode::NameGlobal, query, max_results, 0, "", id)
}

} // verus!
