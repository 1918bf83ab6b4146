//! Moving through a listing from the keyboard: the arrow, page, Home and
//! End keys move the cursor (Shift selects the range it crosses), and
//! typing a name's first letters jumps to the next entry that starts so.
use vstd::prelude::*;
use std::collections::HashSet;
use crate::state::TabState;
use crate::rename::{lower_string, unicode_lower};
use crate::text::{chars_of, starts_with_seq, trim, trim_bounds};

verus! {

broadcast use vstd::std_specs::hash::group_hash_axioms;

/// The entries of `view` from position `a` to position `b`, both included.
pub open spec fn view_range(view: Seq<u32>, a: int, b: int) -> Set<u32> {
    Set::new(|x: u32| exists|p: int| a <= p <= b && #[trigger] view[p] == x)
}

/// Where the keys put the cursor in a view of `n > 0` rows: Home the first,
/// End the last, a move by `delta` from the cursor (or the first row)
/// clamped to the rows.
pub open spec fn key_target(cursor: Option<usize>, n: int, delta: Option<isize>, home: bool, end: bool) -> Option<int> {
    if home {
        Some(0)
    } else if end {
        Some(n - 1)
    } else {
        match delta {
            Some(d) => {
                let cur = (match cursor { Some(c) => c, None => 0usize }) as isize;
                let t = cur + d;
                Some(if t < 0 { 0 } else if t > n - 1 { n - 1 } else { t })
            },
            None => None,
        }
    }
}

/// Applies navigation keys to a tab: moves the cursor to `key_target` and
/// selects the row there, or with Shift the rows from the old cursor (or
/// the new one when there was none) to it. Returns whether it moved.
pub fn move_cursor(tab: &mut TabState, delta: Option<isize>, home: bool, end: bool, shift: bool) -> (moved: bool)
    requires
        delta matches Some(d) ==> isize::MIN <= (match old(tab).cursor { Some(c) => c, None => 0usize }) as isize + d
            <= isize::MAX,
        (shift && old(tab).view@.len() > 0 && key_target(old(tab).cursor, old(tab).view@.len() as int, delta, home, end)
            is Some) ==> (old(tab).cursor matches Some(c) ==> c < old(tab).view@.len()),
    ensures
        old(tab).view@.len() == 0 ==> !moved && *final(tab) == *old(tab),
        old(tab).view@.len() > 0 ==> match key_target(old(tab).cursor, old(tab).view@.len() as int, delta, home, end) {
            None => !moved && *final(tab) == *old(tab),
            Some(pos) => {
                let from = match old(tab).cursor { Some(c) => c as int, None => pos };
                let lo = if from < pos { from } else { pos };
                let hi = if from < pos { pos } else { from };
                &&& moved
                &&& final(tab).cursor == Some(pos as usize)
                &&& final(tab).selection@ == if shift {
                    view_range(old(tab).view@, lo, hi)
                } else {
                    set![old(tab).view@[pos]]
                }
                &&& final(tab).view == old(tab).view
                &&& final(tab).snapshot == old(tab).snapshot
                &&& final(tab).path == old(tab).path
                &&& final(tab).uid == old(tab).uid
                &&& final(tab).generation == old(tab).generation
            },
        },
{
    let n = tab.view.len();
    if n == 0 {
        return false;
    }
    let max = n - 1;
    let pos: usize = if home {
        0
    } else if end {
        max
    } else {
        match delta {
            Some(d) => {
                let c: usize = match tab.cursor { Some(c) => c, None => 0 };
                let cur = c as isize;
                let t = cur + d;
                if t < 0 {
                    0
                } else if t as usize > max {
                    max
                } else {
                    t as usize
                }
            },
            None => return false,
        }
    };
    let view = &*tab.view;
    let mut sel: HashSet<u32> = HashSet::new();
    if shift {
        let from: usize = match tab.cursor { Some(c) => c, None => pos };
        let a = if from < pos { from } else { pos };
        let b = if from < pos { pos } else { from };
        let mut p = a;
        while p <= b
            invariant
                a <= p <= b + 1,
                b < n,
                view@.len() == n,
                forall|x: u32| sel@.contains(x) <==> exists|q: int| a <= q < p && #[trigger] view@[q] == x,
            decreases b + 1 - p,
        {
            sel.insert(view[p]);
            proof {
                assert forall|x: u32| sel@.contains(x) <==> exists|q: int| a <= q < p + 1 && #[trigger] view@[q] == x by {
                    if x == view@[p as int] {
                        assert(view@[p as int] == x);
                    }
                }
            }
            p += 1;
        }
        assert(sel@ =~= view_range(view@, a as int, b as int));
    } else {
        sel.insert(view[pos]);
        assert(sel@ =~= set![view@[pos as int]]);
    }
    tab.selection = sel;
    tab.cursor = Some(pos);
    true
}

/// Whether row `i` of the view shows an entry whose lowercased name starts
/// with `needle`.
pub open spec fn row_starts(tab: TabState, i: int, needle: Seq<char>) -> bool {
    let x = tab.view@[i] as int;
    x < tab.snapshot.entries@.len() && starts_with_seq(unicode_lower(tab.snapshot.entries@[x].name@), needle)
}

/// Position `o` rows on from `start`, wrapping round `n` rows.
pub open spec fn rot(start: int, o: int, n: int) -> int {
    (start + o) % n
}

proof fn lemma_rot(start: int, o: int, n: int)
    requires
        0 <= start < n,
        0 <= o < n,
    ensures
        rot(start, o, n) == if start + o < n { start + o } else { start + o - n },
{
    if start + o < n {
        vstd::arithmetic::div_mod::lemma_small_mod((start + o) as nat, n as nat);
    } else {
        vstd::arithmetic::div_mod::lemma_small_mod((start + o - n) as nat, n as nat);
        vstd::arithmetic::div_mod::lemma_mod_add_multiples_vanish(start + o - n, n);
    }
}

/// Typing the same single letter again (within the delay) cycles through
/// the entries with that letter instead of extending the text.
pub open spec fn cycles(buf: Seq<char>, incoming: Seq<char>, timed_out: bool) -> bool {
    !timed_out && unicode_lower(incoming).len() == 1 && buf.len() > 0 && unicode_lower(buf) == unicode_lower(incoming)
}

/// The typed text after new input.
pub open spec fn typed_after(buf: Seq<char>, incoming: Seq<char>, timed_out: bool) -> Seq<char> {
    let kept = if timed_out { Seq::empty() } else { buf };
    if cycles(buf, incoming, timed_out) { kept } else { kept + incoming }
}

/// Where type-ahead starts looking in `n` rows: after the cursor when
/// cycling, else at the top.
pub open spec fn ta_start(cursor: Option<usize>, n: int, cyc: bool) -> int {
    if cyc {
        match cursor { Some(c) => (c as int % n + 1) % n, None => 0 }
    } else {
        0
    }
}

/// What type-ahead looks for: the typed text, lowercased.
pub open spec fn ta_needle(buf: Seq<char>, incoming: Seq<char>, timed_out: bool) -> Seq<char> {
    unicode_lower(typed_after(buf, incoming, timed_out))
}

/// Type-ahead: takes typed text (ignored when blank) into the typed-text
/// buffer, which starts over when the delay ran out, and puts the cursor
/// on the first row from the start (or, when cycling, from the row after
/// the cursor, wrapping) whose entry starts with the lowercased text,
/// selecting it alone. Returns `None` for blank input, else whether a row
/// matched.
pub fn type_ahead_step(buf: &mut String, incoming: &str, timed_out: bool, tab: &mut TabState) -> (r: Option<bool>)
    ensures
        trim(incoming@).len() == 0 ==> r is None && final(buf)@ == old(buf)@ && *final(tab) == *old(tab),
        trim(incoming@).len() > 0 ==> final(buf)@ == typed_after(old(buf)@, incoming@, timed_out) && r is Some,
        trim(incoming@).len() > 0 ==> ((r == Some(true)) == (old(tab).view@.len() > 0 && exists|off: int|
            0 <= off < old(tab).view@.len() && row_starts(*old(tab), rot(ta_start(old(tab).cursor, old(tab).view@.len() as int,
            cycles(old(buf)@, incoming@, timed_out)), off, old(tab).view@.len() as int), ta_needle(old(buf)@, incoming@, timed_out)))),
        r == Some(false) ==> *final(tab) == *old(tab),
        r == Some(true) ==> ({
            let n = old(tab).view@.len() as int;
            let start = ta_start(old(tab).cursor, n, cycles(old(buf)@, incoming@, timed_out));
            let needle = ta_needle(old(buf)@, incoming@, timed_out);
            exists|off: int| {
                &&& 0 <= off < n
                &&& row_starts(*old(tab), rot(start, off, n), needle)
                &&& forall|o: int| 0 <= o < off ==> !row_starts(*old(tab), #[trigger] rot(start, o, n), needle)
                &&& final(tab).cursor == Some(rot(start, off, n) as usize)
                &&& final(tab).selection@ == set![old(tab).view@[rot(start, off, n)]]
            }
        }),
        r == Some(true) ==> final(tab).view == old(tab).view && final(tab).snapshot == old(tab).snapshot
            && final(tab).path == old(tab).path && final(tab).uid == old(tab).uid
            && final(tab).generation == old(tab).generation,
{
    let iv = chars_of(incoming);
    let (lo, hi) = trim_bounds(&iv);
    if lo == hi {
        return None;
    }
    let ghost b0 = buf@;
    if timed_out {
        *buf = String::new();
    }
    let il = lower_string(incoming);
    let ilv = chars_of(il.as_str());
    let bv = chars_of(buf.as_str());
    let same_letter = if ilv.len() == 1 && bv.len() > 0 {
        let bl = lower_string(buf.as_str());
        crate::paths::chars_eq(&chars_of(bl.as_str()), &ilv)
    } else {
        false
    };
    let cycle = same_letter && !timed_out;
    assert(cycle == cycles(b0, incoming@, timed_out));
    if !cycle {
        buf.append(incoming);
    }
    assert(buf@ =~= typed_after(b0, incoming@, timed_out));
    let needle = chars_of(lower_string(buf.as_str()).as_str());
    let n = tab.view.len();
    if n == 0 {
        return Some(false);
    }
    let start: usize = if cycle {
        match tab.cursor { Some(c) => (c % n + 1) % n, None => 0 }
    } else {
        0
    };
    let ghost sp = start as int;
    let ghost nn = n as int;
    assert(sp == (if cycle { match old(tab).cursor { Some(c) => (c as int % nn + 1) % nn, None => 0 } } else { 0 }));
    assert(needle@ == unicode_lower(typed_after(b0, incoming@, timed_out)));
    let found = find_from(tab, start, &needle);
    match found {
        None => {
            assert(!exists|off: int| 0 <= off < nn && row_starts(*old(tab), rot(sp, off, nn), needle@));
            Some(false)
        },
        Some(f) => {
            let pos = if f < n - start { start + f } else { f - (n - start) };
            proof {
                lemma_rot(start as int, f as int, n as int);
            }
            let entry = tab.view[pos];
            let mut sel: HashSet<u32> = HashSet::new();
            sel.insert(entry);
            assert(sel@ =~= set![entry]);
            tab.selection = sel;
            tab.cursor = Some(pos);
            assert(row_starts(*old(tab), rot(start as int, f as int, n as int), needle@));
            assert(exists|off: int| {
                &&& 0 <= off < nn
                &&& row_starts(*old(tab), rot(sp, off, nn), needle@)
                &&& forall|o: int| 0 <= o < off ==> !row_starts(*old(tab), #[trigger] rot(sp, o, nn), needle@)
                &&& tab.cursor == Some(rot(sp, off, nn) as usize)
                &&& tab.selection@ == set![old(tab).view@[rot(sp, off, nn)]]
            }) by {
                assert(0 <= f < nn);
            }
            assert(exists|off: int| 0 <= off < nn && row_starts(*old(tab), rot(sp, off, nn), needle@)) by {
                assert(0 <= f < nn);
            }
            Some(true)
        },
    }
}

/// The first offset from `start` (wrapping) of a row whose entry starts
/// with `needle`.
fn find_from(tab: &TabState, start: usize, needle: &Vec<char>) -> (r: Option<usize>)
    requires
        start < tab.view@.len(),
    ensures
        match r {
            Some(f) => f < tab.view@.len() && row_starts(*tab, rot(start as int, f as int, tab.view@.len() as int), needle@)
                && forall|o: int| 0 <= o < f ==> !row_starts(*tab, #[trigger] rot(start as int, o, tab.view@.len() as int), needle@),
            None => forall|o: int| 0 <= o < tab.view@.len() ==> !row_starts(*tab, #[trigger] rot(start as int, o, tab.view@.len() as int), needle@),
        },
{
    let n = tab.view.len();
    let mut off: usize = 0;
    while off < n
        invariant
            n == tab.view@.len(),
            start < n,
            off <= n,
            forall|o: int| 0 <= o < off ==> !row_starts(*tab, #[trigger] rot(start as int, o, n as int), needle@),
        decreases n - off,
    {
        let i = if off < n - start { start + off } else { off - (n - start) };
        proof {
            lemma_rot(start as int, off as int, n as int);
        }
        let x = tab.view[i] as usize;
        if x < tab.snapshot.entries.len() {
            let name_lower = lower_string(tab.snapshot.entries[x].name.as_str());
            let nl = chars_of(name_lower.as_str());
            if starts_chars(&nl, needle) {
                return Some(off);
            }
        }
        off += 1;
    }
    None
}

fn starts_chars(s: &Vec<char>, p: &Vec<char>) -> (r: bool)
    ensures
        r == starts_with_seq(s@, p@),
{
    if p.len() > s.len() {
        return false;
    }
    let mut i: usize = 0;
    while i < p.len()
        invariant
            p.len() <= s.len(),
            i <= p.len(),
            forall|k: int| 0 <= k < i ==> s@[k] == p@[k],
        decreases p.len() - i,
    {
        if s[i] != p[i] {
            assert(s@.take(p.len() as int)[i as int] != p@[i as int]);
            return false;
        }
        i += 1;
    }
    assert(s@.take(p.len() as int) =~= p@);
    true
}


/// What a plain click on a row (entry `ei` at view position `vpos`) does
/// to the selection and the cursor: Ctrl toggles the entry and moves the
/// cursor there; Shift selects the rows from the cursor (or the first row)
/// to the clicked one (nothing when that span runs past the view) and
/// leaves the cursor; a click alone selects just that entry.
pub fn click_row(tab: &mut TabState, ei: u32, vpos: usize, ctrl: bool, shift: bool)
    ensures
        ctrl ==> final(tab).cursor == Some(vpos) && final(tab).selection@ == (if old(tab).selection@.contains(ei) {
            old(tab).selection@.remove(ei)
        } else {
            old(tab).selection@.insert(ei)
        }),
        !ctrl && shift ==> final(tab).cursor == old(tab).cursor && ({
            let from = match old(tab).cursor { Some(c) => c as int, None => 0 };
            let lo = if from < vpos { from } else { vpos as int };
            let hi = if from < vpos { vpos as int } else { from };
            final(tab).selection@ == if hi < old(tab).view@.len() { view_range(old(tab).view@, lo, hi) } else { Set::empty() }
        }),
        !ctrl && !shift ==> final(tab).cursor == Some(vpos) && final(tab).selection@ == set![ei],
        final(tab).view == old(tab).view,
        final(tab).snapshot == old(tab).snapshot,
        final(tab).path == old(tab).path,
        final(tab).uid == old(tab).uid,
        final(tab).generation == old(tab).generation,
{
    if ctrl {
        if !tab.selection.remove(&ei) {
            tab.selection.insert(ei);
        }
        tab.cursor = Some(vpos);
    } else if shift {
        let from: usize = match tab.cursor { Some(c) => c, None => 0 };
        let a = if from < vpos { from } else { vpos };
        let b = if from < vpos { vpos } else { from };
        let view = &*tab.view;
        let mut sel: HashSet<u32> = HashSet::new();
        if b < view.len() {
            let mut p = a;
            while p <= b
                invariant
                    a <= p <= b + 1,
                    b < view.len(),
                    forall|x: u32| sel@.contains(x) <==> exists|q: int| a <= q < p && #[trigger] view@[q] == x,
                decreases b + 1 - p,
            {
                sel.insert(view[p]);
                proof {
                    assert forall|x: u32| sel@.contains(x) <==> exists|q: int| a <= q < p + 1 && #[trigger] view@[q] == x by {
                        if x == view@[p as int] {
                            assert(view@[p as int] == x);
                        }
                    }
                }
                p += 1;
            }
            assert(sel@ =~= view_range(view@, a as int, b as int));
        } else {
            assert(sel@ =~= Set::<u32>::empty());
        }
        tab.selection = sel;
    } else {
        let mut sel: HashSet<u32> = HashSet::new();
        sel.insert(ei);
        assert(sel@ =~= set![ei]);
        tab.selection = sel;
        tab.cursor = Some(vpos);
    }
}

/// A right click on entry `ei`: it becomes the whole selection unless it
/// is already selected, so the menu acts on what the user sees marked.
pub fn context_row(tab: &mut TabState, ei: u32)
    ensures
        final(tab).selection@ == (if old(tab).selection@.contains(ei) { old(tab).selection@ } else { set![ei] }),
        final(tab).cursor == old(tab).cursor,
        final(tab).view == old(tab).view,
        final(tab).snapshot == old(tab).snapshot,
        final(tab).path == old(tab).path,
        final(tab).uid == old(tab).uid,
        final(tab).generation == old(tab).generation,
{
    if !tab.selection.contains(&ei) {
        let mut sel: HashSet<u32> = HashSet::new();
        sel.insert(ei);
        assert(sel@ =~= set![ei]);
        tab.selection = sel;
    }
}

} // verus!
