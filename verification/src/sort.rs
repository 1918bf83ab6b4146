//! Sorting and filtering of directory listings.
use vstd::prelude::*;
use std::cmp::Ordering;
use crate::entry::FsEntry;
use crate::natural::{natural, natural_order, lemma_natural_antisymmetric, lemma_natural_transitive};
use crate::order::{three_way, lex, lex_range, lemma_lex_antisym, lemma_lex_zero, lemma_lex_trans};
use crate::text::{lower_all, chars_of, trim, has_sub};
use crate::wildcard::{glob, wild, wildcard_match};
use vstd::utf8::encode_utf8;
use crate::query::{Query, query_holds, parse_spec, normalize};

verus! {

broadcast use vstd::seq_lib::group_to_multiset_ensures, vstd::multiset::group_multiset_axioms;

#[derive(Clone, Copy, Debug, PartialEq, Eq, Structural)]
pub enum SortKey {
    Name,
    Size,
    Type,
    Modified,
    Created,
}

#[derive(Clone, Copy, Debug, PartialEq, Eq, Structural)]
pub struct SortSpec {
    pub key: SortKey,
    pub ascending: bool,
}

impl Default for SortSpec {
    fn default() -> (r: SortSpec)
        ensures
            r == (SortSpec { key: SortKey::Name, ascending: true }),
    {
        SortSpec { key: SortKey::Name, ascending: true }
    }
}

/// The `Ordering` that a three-way integer stands for.
pub open spec fn ord(x: int) -> Ordering {
    if x < 0 { Ordering::Less } else if x == 0 { Ordering::Equal } else { Ordering::Greater }
}

pub open spec fn ord8(x: i8) -> Ordering {
    if x < 0 { Ordering::Less } else if x == 0 { Ordering::Equal } else { Ordering::Greater }
}

fn ord_of(x: i8) -> (r: Ordering)
    ensures
        r == ord8(x),
{
    if x < 0 { Ordering::Less } else if x == 0 { Ordering::Equal } else { Ordering::Greater }
}

/// Natural, ASCII-case-insensitive name order: "file2" < "file10", with
/// identical-ignoring-case names ordered by plain character comparison.
pub fn natural_cmp(a: &str, b: &str) -> (r: Ordering)
    ensures
        r == ord(natural(a@, b@)),
{
    let av = chars_of(a);
    let bv = chars_of(b);
    ord_of(natural_order(&av, &bv))
}

pub open spec fn bool_rank(b: bool) -> int {
    if b { 1 } else { 0 }
}

/// Order under one sort key, ties broken by the natural name order.
pub open spec fn key_order(a: FsEntry, b: FsEntry, key: SortKey) -> int {
    let n = natural(a.name@, b.name@);
    match key {
        SortKey::Name => n,
        SortKey::Size => if a.size != b.size { three_way(a.size as int, b.size as int) } else { n },
        SortKey::Type => {
            let t = lex(lower_all(a.ext_spec()), lower_all(b.ext_spec()));
            if t != 0 { t } else { n }
        },
        SortKey::Modified => if a.modified != b.modified {
            three_way(a.modified as int, b.modified as int)
        } else {
            n
        },
        SortKey::Created => if a.created != b.created {
            three_way(a.created as int, b.created as int)
        } else {
            n
        },
    }
}

/// The listing order: folders form one block before the files, the key
/// orders within each block, and a descending sort reverses the whole list
/// (so folders end up at the bottom).
pub open spec fn entry_order(a: FsEntry, b: FsEntry, spec: SortSpec) -> int {
    let d = three_way(bool_rank(b.dir()), bool_rank(a.dir()));
    let o = if d != 0 { d } else { key_order(a, b, spec.key) };
    if spec.ascending { o } else { -o }
}

/// Swapping two entries flips their order.
pub proof fn lemma_entry_order_antisymmetric(a: FsEntry, b: FsEntry, spec: SortSpec)
    ensures
        entry_order(a, b, spec) == -entry_order(b, a, spec),
{
    lemma_natural_antisymmetric(a.name@, b.name@);
    lemma_lex_antisym(lower_all(a.ext_spec()), lower_all(b.ext_spec()));
}

proof fn lemma_key_order_transitive(a: FsEntry, b: FsEntry, c: FsEntry, key: SortKey)
    requires
        key_order(a, b, key) <= 0,
        key_order(b, c, key) <= 0,
    ensures
        key_order(a, c, key) <= 0,
{
    let (ea, eb, ec) = (lower_all(a.ext_spec()), lower_all(b.ext_spec()), lower_all(c.ext_spec()));
    lemma_lex_zero(ea, eb);
    lemma_lex_zero(eb, ec);
    lemma_lex_zero(ea, ec);
    if lex(ea, eb) <= 0 && lex(eb, ec) <= 0 {
        lemma_lex_trans(ea, eb, ec);
    }
    if natural(a.name@, b.name@) <= 0 && natural(b.name@, c.name@) <= 0 {
        lemma_natural_transitive(a.name@, b.name@, c.name@);
    }
}

/// The listing order is transitive: it orders any three entries
/// consistently, ascending or descending.
pub proof fn lemma_entry_order_transitive(a: FsEntry, b: FsEntry, c: FsEntry, spec: SortSpec)
    requires
        entry_order(a, b, spec) <= 0,
        entry_order(b, c, spec) <= 0,
    ensures
        entry_order(a, c, spec) <= 0,
{
    let up = SortSpec { key: spec.key, ascending: true };
    if spec.ascending {
        if bool_rank(a.dir()) == bool_rank(b.dir()) && bool_rank(b.dir()) == bool_rank(c.dir()) {
            lemma_key_order_transitive(a, b, c, spec.key);
        }
    } else {
        lemma_entry_order_antisymmetric(a, b, up);
        lemma_entry_order_antisymmetric(b, c, up);
        lemma_entry_order_antisymmetric(a, c, up);
        if bool_rank(a.dir()) == bool_rank(b.dir()) && bool_rank(b.dir()) == bool_rank(c.dir()) {
            lemma_key_order_transitive(c, b, a, spec.key);
        }
    }
}

/// Under a size or time key, two entries of the same kind whose key values
/// differ are ordered by that value alone, whatever their names and other
/// fields: the smaller comes first in an ascending sort and last in a
/// descending one.
pub proof fn law_key_value_decides(a: FsEntry, b: FsEntry, spec: SortSpec)
    requires
        a.dir() == b.dir(),
    ensures
        spec.key == SortKey::Modified && a.modified != b.modified
            ==> (entry_order(a, b, spec) < 0 <==> (spec.ascending == (a.modified < b.modified))),
        spec.key == SortKey::Created && a.created != b.created
            ==> (entry_order(a, b, spec) < 0 <==> (spec.ascending == (a.created < b.created))),
        spec.key == SortKey::Size && a.size != b.size
            ==> (entry_order(a, b, spec) < 0 <==> (spec.ascending == (a.size < b.size))),
        spec.key == SortKey::Type && lower_all(a.ext_spec()) != lower_all(b.ext_spec())
            ==> (entry_order(a, b, spec) < 0 <==> (spec.ascending == (lex(lower_all(a.ext_spec()), lower_all(b.ext_spec())) < 0))),
        spec.key != SortKey::Name
            ==> (entry_order(a, b, spec) == 0 ==> a.name@ == b.name@),
        entry_order(a, b, spec) == 0 ==> a.name@ == b.name@,
{
    crate::natural::lemma_natural_equal_iff_identical(a.name@, b.name@);
    lemma_lex_zero(lower_all(a.ext_spec()), lower_all(b.ext_spec()));
}

/// Folders and files never mix: with any key, a folder comes before a file
/// in an ascending sort and after it in a descending one.
pub proof fn law_folders_before_files(a: FsEntry, b: FsEntry, spec: SortSpec)
    requires
        a.dir() && !b.dir(),
    ensures
        (entry_order(a, b, spec) < 0) == spec.ascending,
        entry_order(a, b, spec) != 0,
{
}

/// Case-insensitive (ASCII) comparison of two extensions.
fn ext_order(a: &Vec<char>, b: &Vec<char>) -> (r: i8)
    ensures
        r as int == lex(a@, b@),
{
    let r = lex_range(a, 0, a.len(), b, 0, b.len());
    assert(a@.subrange(0, a@.len() as int) =~= a@);
    assert(b@.subrange(0, b@.len() as int) =~= b@);
    r
}

fn lowered(v: &Vec<char>) -> (r: Vec<char>)
    ensures
        r@ == lower_all(v@),
{
    let mut out: Vec<char> = Vec::new();
    let mut i: usize = 0;
    while i < v.len()
        invariant
            i <= v.len(),
            out@ == lower_all(v@.take(i as int)),
        decreases v.len() - i,
    {
        out.push(crate::text::ascii_lower(v[i]));
        assert(lower_all(v@.take(i + 1)) =~= lower_all(v@.take(i as int)).push(crate::text::lower(v@[i as int])));
        i += 1;
    }
    assert(v@.take(v@.len() as int) =~= v@);
    out
}

/// Precomputed sort keys for an entry: its name and its lowercased extension.
pub struct EntryKey {
    pub name: Vec<char>,
    pub ext: Vec<char>,
}

pub open spec fn key_for(k: EntryKey, e: FsEntry) -> bool {
    k.name@ == e.name@ && k.ext@ == lower_all(e.ext_spec())
}

fn make_key(e: &FsEntry) -> (r: EntryKey)
    ensures
        key_for(r, *e),
{
    let name = chars_of(e.name.as_str());
    let ext = e.ext();
    let ev = chars_of(ext.as_str());
    EntryKey { name, ext: lowered(&ev) }
}

fn three(a: u64, b: u64) -> (r: i8)
    ensures
        r as int == three_way(a as int, b as int),
{
    if a < b { -1 } else if a == b { 0 } else { 1 }
}

fn entry_order_exec(a: &FsEntry, ka: &EntryKey, b: &FsEntry, kb: &EntryKey, spec: SortSpec) -> (r: i8)
    requires
        key_for(*ka, *a),
        key_for(*kb, *b),
    ensures
        r as int == entry_order(*a, *b, spec),
{
    let ad = a.is_dir();
    let bd = b.is_dir();
    let o: i8 = if ad != bd {
        if bd { 1 } else { -1 }
    } else {
        match spec.key {
            SortKey::Name => natural_order(&ka.name, &kb.name),
            SortKey::Size => if a.size != b.size { three(a.size, b.size) } else { natural_order(&ka.name, &kb.name) },
            SortKey::Type => {
                let t = ext_order(&ka.ext, &kb.ext);
                if t != 0 { t } else { natural_order(&ka.name, &kb.name) }
            },
            SortKey::Modified => if a.modified != b.modified {
                three(a.modified, b.modified)
            } else {
                natural_order(&ka.name, &kb.name)
            },
            SortKey::Created => if a.created != b.created {
                three(a.created, b.created)
            } else {
                natural_order(&ka.name, &kb.name)
            },
        }
    };
    proof {
        crate::natural::lemma_natural_equal_iff_identical(a.name@, b.name@);
        crate::order::lemma_lex_zero(lower_all(a.ext_spec()), lower_all(b.ext_spec()));
    }
    if spec.ascending { o } else { -o }
}

/// Compare two entries under a sort spec (see `entry_order`).
pub fn entry_cmp(a: &FsEntry, b: &FsEntry, spec: SortSpec) -> (r: Ordering)
    ensures
        r == ord(entry_order(*a, *b, spec)),
{
    let ka = make_key(a);
    let kb = make_key(b);
    ord_of(entry_order_exec(a, &ka, b, &kb, spec))
}


/// Each neighbouring pair of the view is in order.
pub open spec fn sorted_view(v: Seq<u32>, es: Seq<FsEntry>, spec: SortSpec) -> bool {
    forall|k: int| 0 <= k < v.len() - 1 ==> entry_order(es[v[k] as int], es[(#[trigger] v[k + 1]) as int], spec) <= 0
}

/// In a sorted view every row comes no later in the listing order than any
/// row below it, not only the next one.
pub proof fn law_sorted_view_orders_all_pairs(v: Seq<u32>, es: Seq<FsEntry>, spec: SortSpec, i: int, j: int)
    requires
        sorted_view(v, es, spec),
        0 <= i < j < v.len(),
    ensures
        entry_order(es[v[i] as int], es[v[j] as int], spec) <= 0,
    decreases j - i,
{
    let k = j - 1;
    assert(entry_order(es[v[k] as int], es[v[k + 1] as int], spec) <= 0);
    if k > i {
        law_sorted_view_orders_all_pairs(v, es, spec, i, k);
        lemma_entry_order_transitive(es[v[i] as int], es[v[k] as int], es[v[j] as int], spec);
    }
}

pub open spec fn in_range(v: Seq<u32>, n: int) -> bool {
    forall|k: int| 0 <= k < v.len() ==> (#[trigger] v[k] as int) < n
}

/// A sorted view keeps the folders together: above every file when the
/// order is ascending, below every file when it is descending.
pub proof fn law_folders_stay_together(v: Seq<u32>, es: Seq<FsEntry>, spec: SortSpec, i: int, j: int)
    requires
        in_range(v, es.len() as int),
        sorted_view(v, es, spec),
        0 <= i < j < v.len(),
    ensures
        spec.ascending ==> (es[v[j] as int].dir() ==> es[v[i] as int].dir()),
        !spec.ascending ==> (es[v[i] as int].dir() ==> es[v[j] as int].dir()),
    decreases j - i,
{
    let k = j - 1;
    assert(entry_order(es[v[k] as int], es[v[k + 1] as int], spec) <= 0);
    if k > i {
        law_folders_stay_together(v, es, spec, i, k);
    }
}

pub open spec fn keys_ok(keys: Seq<EntryKey>, es: Seq<FsEntry>) -> bool {
    keys.len() == es.len() && forall|i: int| 0 <= i < es.len() ==> key_for(#[trigger] keys[i], es[i])
}

fn merge_views(l: Vec<u32>, r: Vec<u32>, es: &[FsEntry], keys: &Vec<EntryKey>, spec: SortSpec) -> (out: Vec<u32>)
    requires
        keys_ok(keys@, es@),
        in_range(l@, es@.len() as int),
        in_range(r@, es@.len() as int),
        sorted_view(l@, es@, spec),
        sorted_view(r@, es@, spec),
    ensures
        in_range(out@, es@.len() as int),
        sorted_view(out@, es@, spec),
        out@.to_multiset() == l@.to_multiset().add(r@.to_multiset()),
{
    let mut out: Vec<u32> = Vec::new();
    let mut i: usize = 0;
    let mut j: usize = 0;
    assert(l@.take(0) =~= Seq::<u32>::empty());
    assert(r@.take(0) =~= Seq::<u32>::empty());
    while i < l.len() || j < r.len()
        invariant
            keys_ok(keys@, es@),
            in_range(l@, es@.len() as int),
            in_range(r@, es@.len() as int),
            sorted_view(l@, es@, spec),
            sorted_view(r@, es@, spec),
            i <= l.len(),
            j <= r.len(),
            in_range(out@, es@.len() as int),
            sorted_view(out@, es@, spec),
            out@.to_multiset() == l@.take(i as int).to_multiset().add(r@.take(j as int).to_multiset()),
            out@.len() > 0 && i < l.len() ==> entry_order(es@[out@.last() as int], es@[l@[i as int] as int], spec) <= 0,
            out@.len() > 0 && j < r.len() ==> entry_order(es@[out@.last() as int], es@[r@[j as int] as int], spec) <= 0,
        decreases (l.len() - i) + (r.len() - j),
    {
        let take_left = if i < l.len() && j < r.len() {
            let a = l[i] as usize;
            let b = r[j] as usize;
            entry_order_exec(&es[a], &keys[a], &es[b], &keys[b], spec) <= 0
        } else {
            i < l.len()
        };
        let ghost old_out = out@;
        if take_left {
            let x = l[i];
            out.push(x);
            proof {
                assert(l@.take(i + 1) =~= l@.take(i as int).push(x));
                if j < r.len() {
                    lemma_entry_order_antisymmetric(es@[x as int], es@[r@[j as int] as int], spec);
                }
                if i + 1 < l.len() {
                    assert(entry_order(es@[l@[i as int] as int], es@[l@[i + 1] as int], spec) <= 0);
                }
                assert forall|k: int| 0 <= k < out@.len() - 1 implies entry_order(es@[out@[k] as int], es@[(#[trigger] out@[k + 1]) as int], spec) <= 0 by {
                    if k < old_out.len() - 1 {
                        assert(out@[k] == old_out[k] && out@[k + 1] == old_out[k + 1]);
                    }
                }
            }
            i += 1;
        } else {
            let x = r[j];
            out.push(x);
            proof {
                assert(r@.take(j + 1) =~= r@.take(j as int).push(x));
                if i < l.len() {
                    lemma_entry_order_antisymmetric(es@[l@[i as int] as int], es@[x as int], spec);
                }
                if j + 1 < r.len() {
                    assert(entry_order(es@[r@[j as int] as int], es@[r@[j + 1] as int], spec) <= 0);
                }
                assert forall|k: int| 0 <= k < out@.len() - 1 implies entry_order(es@[out@[k] as int], es@[(#[trigger] out@[k + 1]) as int], spec) <= 0 by {
                    if k < old_out.len() - 1 {
                        assert(out@[k] == old_out[k] && out@[k + 1] == old_out[k + 1]);
                    }
                }
            }
            j += 1;
        }
    }
    assert(l@.take(l@.len() as int) =~= l@);
    assert(r@.take(r@.len() as int) =~= r@);
    out
}

fn copy_range(v: &Vec<u32>, lo: usize, hi: usize) -> (r: Vec<u32>)
    requires
        lo <= hi <= v.len(),
    ensures
        r@ == v@.subrange(lo as int, hi as int),
{
    let mut out: Vec<u32> = Vec::new();
    let mut i: usize = lo;
    while i < hi
        invariant
            lo <= i <= hi <= v.len(),
            out@ == v@.subrange(lo as int, i as int),
        decreases hi - i,
    {
        out.push(v[i]);
        i += 1;
        assert(out@ =~= v@.subrange(lo as int, i as int));
    }
    out
}

/// Merge sort of a view by the listing order.
fn sort_view(v: Vec<u32>, es: &[FsEntry], keys: &Vec<EntryKey>, spec: SortSpec) -> (out: Vec<u32>)
    requires
        keys_ok(keys@, es@),
        in_range(v@, es@.len() as int),
    ensures
        in_range(out@, es@.len() as int),
        sorted_view(out@, es@, spec),
        out@.to_multiset() == v@.to_multiset(),
    decreases v.len(),
{
    if v.len() <= 1 {
        return v;
    }
    let mid = v.len() / 2;
    let left = copy_range(&v, 0, mid);
    let right = copy_range(&v, mid, v.len());
    proof {
        assert(v@ =~= left@ + right@);
        vstd::seq_lib::lemma_multiset_commutative(left@, right@);
    }
    let ls = sort_view(left, es, keys, spec);
    let rs = sort_view(right, es, keys, spec);
    merge_views(ls, rs, es, keys, spec)
}

/// Whether an entry is shown: not hidden unless hidden entries are shown,
/// and matching the trimmed filter query when there is one.
pub open spec fn passes(e: FsEntry, filter: Seq<char>, show_hidden: bool) -> bool {
    &&& (show_hidden || !e.hidden())
    &&& (trim(filter).len() == 0 || query_holds(parse_spec(trim(filter)), normalize(e.name@)))
}

/// Build a sorted and filtered view (indices into `entries`). `filter` is an
/// Everything-style query; empty (after trimming) means "all".
pub fn build_view(entries: &[FsEntry], spec: SortSpec, filter: &str, show_hidden: bool) -> (r: Vec<u32>)
    requires
        entries@.len() <= u32::MAX,
    ensures
        in_range(r@, entries@.len() as int),
        r@.no_duplicates(),
        sorted_view(r@, entries@, spec),
        forall|i: int, j: int| 0 <= i < j < r@.len() ==>
            entry_order(entries@[r@[i] as int], entries@[r@[j] as int], spec) <= 0,
        forall|i: int| 0 <= i < entries@.len() && !show_hidden && entries@[i].hidden() ==> !r@.contains(i as u32),
        forall|i: int| 0 <= i < entries@.len() ==>
            (r@.contains(i as u32) <==> passes(entries@[i], filter@, show_hidden)),
{
    let fv = chars_of(filter);
    let (lo, hi) = crate::text::trim_bounds(&fv);
    let ftext = crate::text::string_of(&fv, lo, hi);
    let has_filter = lo < hi;
    let matcher = Query::parse(ftext.as_str());
    let n = entries.len();
    let mut cand: Vec<u32> = Vec::new();
    let mut keys: Vec<EntryKey> = Vec::new();
    let mut i: usize = 0;
    while i < n
        invariant
            n == entries@.len(),
            n <= u32::MAX,
            i <= n,
            ftext@ == trim(filter@),
            has_filter == (trim(filter@).len() > 0),
            matcher.view_clauses() == parse_spec(trim(filter@)),
            keys_ok(keys@, entries@.take(i as int)),
            in_range(cand@, i as int),
            forall|x: int, y: int| 0 <= x < y < cand@.len() ==> cand@[x] < cand@[y],
            forall|k: int| 0 <= k < i && !show_hidden && entries@[k].hidden() ==> !cand@.contains(k as u32),
            forall|k: int| 0 <= k < i ==>
                (cand@.contains(k as u32) <==> passes(entries@[k], filter@, show_hidden)),
        decreases n - i,
    {
        let e = &entries[i];
        let keep = if !show_hidden && e.is_hidden() {
            false
        } else if has_filter {
            matcher.matches(e.name.as_str())
        } else {
            true
        };
        let ghost old_cand = cand@;
        if keep {
            cand.push(i as u32);
        }
        proof {
            assert forall|k: int| 0 <= k < i + 1 && !show_hidden && entries@[k].hidden() implies !cand@.contains(k as u32) by {
                if cand@.contains(k as u32) {
                    let x = choose|x: int| 0 <= x < cand@.len() && cand@[x] == k as u32;
                    if x < old_cand.len() {
                        assert(old_cand[x] == k as u32);
                    }
                }
            }
            assert forall|k: int| 0 <= k < i + 1 implies
                (cand@.contains(k as u32) <==> passes(entries@[k], filter@, show_hidden)) by {
                if k < i {
                    if cand@.contains(k as u32) {
                        let x = choose|x: int| 0 <= x < cand@.len() && cand@[x] == k as u32;
                        if x == old_cand.len() {
                            assert(cand@[x] == i as u32);
                        } else {
                            assert(old_cand[x] == k as u32);
                        }
                    }
                    if old_cand.contains(k as u32) {
                        let x = choose|x: int| 0 <= x < old_cand.len() && old_cand[x] == k as u32;
                        assert(cand@[x] == k as u32);
                    }
                } else {
                    if keep {
                        assert(cand@[cand@.len() - 1] == i as u32);
                    } else {
                        if cand@.contains(k as u32) {
                            let x = choose|x: int| 0 <= x < cand@.len() && cand@[x] == k as u32;
                            assert(old_cand[x] < i);
                        }
                    }
                }
            }
        }
        let key = make_key(e);
        let ghost old_keys = keys@;
        keys.push(key);
        assert(entries@.take(i + 1) =~= entries@.take(i as int).push(entries@[i as int]));
        assert forall|k: int| 0 <= k < i + 1 implies key_for(#[trigger] keys@[k], entries@.take(i + 1)[k]) by {
            if k < i {
                assert(keys@[k] == old_keys[k]);
                assert(entries@.take(i as int)[k] == entries@.take(i + 1)[k]);
            }
        }
        i += 1;
    }
    assert(entries@.take(n as int) =~= entries@);
    proof {
        assert(cand@.no_duplicates()) by {
            assert forall|x: int, y: int| 0 <= x < cand@.len() && 0 <= y < cand@.len() && x != y implies cand@[x] != cand@[y] by {
                if x < y { assert(cand@[x] < cand@[y]); } else { assert(cand@[y] < cand@[x]); }
            }
        }
        cand@.lemma_multiset_has_no_duplicates();
    }
    let ghost cs = cand@;
    let view = sort_view(cand, entries, &keys, spec);
    proof {
        assert forall|x: u32| view@.to_multiset().contains(x) implies view@.to_multiset().count(x) == 1 by {
            assert(cs.to_multiset().contains(x));
        }
        view@.lemma_multiset_has_no_duplicates_conv();
        assert forall|x: u32| view@.contains(x) == cs.contains(x) by {
            assert(view@.to_multiset().count(x) == cs.to_multiset().count(x));
        }
        assert forall|i: int, j: int| 0 <= i < j < view@.len() implies
            entry_order(entries@[view@[i] as int], entries@[view@[j] as int], spec) <= 0 by {
            law_sorted_view_orders_all_pairs(view@, entries@, spec, i, j);
        }
    }
    view
}


/// Indices `i < es.len()` whose entry is (or is not) a folder, ascending.
pub open spec fn positions(es: Seq<FsEntry>, dirs: bool) -> Seq<u32>
    decreases es.len(),
{
    if es.len() == 0 {
        Seq::empty()
    } else {
        let rest = positions(es.drop_last(), dirs);
        if es.last().dir() == dirs { rest.push((es.len() - 1) as u32) } else { rest }
    }
}

proof fn lemma_positions_kind(es: Seq<FsEntry>, dirs: bool)
    requires
        es.len() <= u32::MAX,
    ensures
        forall|k: int| 0 <= k < positions(es, dirs).len() ==> {
            &&& (#[trigger] positions(es, dirs)[k] as int) < es.len()
            &&& es[positions(es, dirs)[k] as int].dir() == dirs
        },
    decreases es.len(),
{
    if es.len() > 0 {
        lemma_positions_kind(es.drop_last(), dirs);
        let rest = positions(es.drop_last(), dirs);
        assert forall|k: int| 0 <= k < positions(es, dirs).len() implies {
            &&& (#[trigger] positions(es, dirs)[k] as int) < es.len()
            &&& es[positions(es, dirs)[k] as int].dir() == dirs
        } by {
            if k < rest.len() {
                assert(positions(es, dirs)[k] == rest[k]);
                assert(es.drop_last()[rest[k] as int] == es[rest[k] as int]);
            }
        }
    }
}

/// The order a listing streams in: folders first and then files, each in
/// listing order, turned around for a descending sort.
pub open spec fn streaming_order(es: Seq<FsEntry>, ascending: bool) -> Seq<u32> {
    let p = positions(es, true) + positions(es, false);
    if ascending { p } else { p.reverse() }
}

/// While a listing streams in, its folders already sit on the side the
/// sorted view puts them (see `law_folders_stay_together`): above every
/// file when ascending, below every file when descending.
pub proof fn law_streaming_folder_side(es: Seq<FsEntry>, ascending: bool, i: int, j: int)
    requires
        es.len() <= u32::MAX,
        0 <= i < j < streaming_order(es, ascending).len(),
    ensures
        ascending ==> (es[streaming_order(es, ascending)[j] as int].dir() ==> es[streaming_order(es, ascending)[i] as int].dir()),
        !ascending ==> (es[streaming_order(es, ascending)[i] as int].dir() ==> es[streaming_order(es, ascending)[j] as int].dir()),
{
    lemma_positions_kind(es, true);
    lemma_positions_kind(es, false);
    let d = positions(es, true);
    let f = positions(es, false);
    let p = d + f;
    let w = streaming_order(es, ascending);
    if ascending {
        if j >= d.len() {
            assert(p[j] == f[j - d.len()]);
        } else {
            assert(p[i] == d[i]);
        }
    } else {
        let n = p.len();
        assert(w[i] == p[n - 1 - i]);
        assert(w[j] == p[n - 1 - j]);
        if n - 1 - i >= d.len() {
            assert(p[n - 1 - i] == f[n - 1 - i - d.len()]);
        } else {
            assert(p[n - 1 - j] == d[n - 1 - j]);
        }
    }
}

/// Folder indices first, then files, each group in listing order.
pub fn dirs_first_indices(entries: &[FsEntry]) -> (r: Vec<u32>)
    requires
        entries@.len() <= u32::MAX,
    ensures
        r@ == positions(entries@, true) + positions(entries@, false),
{
    let mut dirs: Vec<u32> = Vec::new();
    let mut files: Vec<u32> = Vec::new();
    let mut i: usize = 0;
    while i < entries.len()
        invariant
            i <= entries@.len() <= u32::MAX,
            dirs@ == positions(entries@.take(i as int), true),
            files@ == positions(entries@.take(i as int), false),
        decreases entries.len() - i,
    {
        assert(entries@.take(i + 1).drop_last() =~= entries@.take(i as int));
        if entries[i].is_dir() {
            dirs.push(i as u32);
        } else {
            files.push(i as u32);
        }
        i += 1;
    }
    assert(entries@.take(entries@.len() as int) =~= entries@);
    let ghost d = dirs@;
    dirs.append(&mut files);
    dirs
}

/// Provisional order for a listing still streaming in: folders on the side
/// the real sort will put them (top when ascending, bottom when descending).
pub fn streaming_indices(entries: &[FsEntry], ascending: bool) -> (r: Vec<u32>)
    requires
        entries@.len() <= u32::MAX,
    ensures
        r@ == streaming_order(entries@, ascending),
{
    let idx = dirs_first_indices(entries);
    if ascending {
        idx
    } else {
        let mut out: Vec<u32> = Vec::new();
        let mut k: usize = idx.len();
        while k > 0
            invariant
                k <= idx.len(),
                out@ == idx@.subrange(k as int, idx@.len() as int).reverse(),
            decreases k,
        {
            k -= 1;
            out.push(idx[k]);
            assert(out@ =~= idx@.subrange(k as int, idx@.len() as int).reverse());
        }
        assert(idx@.subrange(0, idx@.len() as int) =~= idx@);
        out
    }
}

/// Case-insensitive (ASCII) wildcard matcher supporting `*` and `?`; a
/// pattern without wildcards matches as a substring.
pub struct Wildcard {
    pattern: Vec<u8>,
    text: Vec<char>,
    substring: bool,
}

impl Wildcard {
    #[verifier::type_invariant]
    spec fn inv(self) -> bool {
        self.pattern@ == encode_utf8(self.text@)
    }

    /// The lowercased pattern.
    pub closed spec fn pattern_view(&self) -> Seq<char> {
        self.text@
    }

    /// True when the pattern has no wildcard (substring search).
    pub closed spec fn is_substring(&self) -> bool {
        self.substring
    }

    pub fn new(pattern: &str) -> (r: Wildcard)
        ensures
            r.pattern_view() == lower_all(pattern@),
            r.is_substring() == !(pattern@.contains('*') || pattern@.contains('?')),
    {
        let pv = chars_of(pattern);
        let mut lowered_v: Vec<char> = Vec::new();
        let mut wild = false;
        let mut i: usize = 0;
        while i < pv.len()
            invariant
                i <= pv.len(),
                pv@ == pattern@,
                lowered_v@ == lower_all(pv@.take(i as int)),
                wild == (pv@.take(i as int).contains('*') || pv@.take(i as int).contains('?')),
            decreases pv.len() - i,
        {
            let c = pv[i];
            if c == '*' || c == '?' {
                wild = true;
            }
            lowered_v.push(crate::text::ascii_lower(c));
            proof {
                let t0 = pv@.take(i as int);
                let t1 = pv@.take(i + 1);
                assert(t1 =~= t0.push(c));
                assert(lower_all(t1) =~= lower_all(t0).push(crate::text::lower(c)));
                assert(t1.contains('*') == (t0.contains('*') || c == '*')) by {
                    if t1.contains('*') {
                        let k = choose|k: int| 0 <= k < t1.len() && t1[k] == '*';
                        if k < t0.len() { assert(t0[k] == '*'); }
                    }
                    if t0.contains('*') {
                        let k = choose|k: int| 0 <= k < t0.len() && t0[k] == '*';
                        assert(t1[k] == '*');
                    }
                    if c == '*' { assert(t1[i as int] == '*'); }
                }
                assert(t1.contains('?') == (t0.contains('?') || c == '?')) by {
                    if t1.contains('?') {
                        let k = choose|k: int| 0 <= k < t1.len() && t1[k] == '?';
                        if k < t0.len() { assert(t0[k] == '?'); }
                    }
                    if t0.contains('?') {
                        let k = choose|k: int| 0 <= k < t0.len() && t0[k] == '?';
                        assert(t1[k] == '?');
                    }
                    if c == '?' { assert(t1[i as int] == '?'); }
                }
            }
            i += 1;
        }
        assert(pv@.take(pv@.len() as int) =~= pv@);
        let s = crate::text::string_from_chars(&lowered_v);
        let bytes = vstd::slice::slice_to_vec(s.as_str().as_bytes());
        Wildcard { pattern: bytes, text: lowered_v, substring: !wild }
    }

    /// Whether `name` matches (case-insensitively). For a wildcard pattern
    /// this is the matcher's run over the lowered name; for a name without
    /// `*` that is exactly the glob match.
    pub fn matches(&self, name: &str) -> (r: bool)
        ensures
            self.is_substring() ==> r == has_sub(lower_all(name@), self.pattern_view()),
            !self.is_substring() ==> r == wild(encode_utf8(self.pattern_view()), encode_utf8(lower_all(name@))),
            !self.is_substring() && !name@.contains('*') ==> r == glob(encode_utf8(self.pattern_view()), encode_utf8(lower_all(name@))),
    {
        proof {
            use_type_invariant(self);
        }
        let nv = chars_of(name);
        let low = lowered(&nv);
        if self.substring {
            return crate::text::contains_chars(&low, &self.text);
        }
        let s = crate::text::string_from_chars(&low);
        let bytes = s.as_str().as_bytes();
        proof {
            if !name@.contains('*') {
                assert(!low@.contains('*')) by {
                    if low@.contains('*') {
                        let k = choose|k: int| 0 <= k < low@.len() && low@[k] == '*';
                        assert(nv@[k] == '*');
                    }
                }
                crate::query::lemma_encode_star_free(low@);
            }
        }
        wildcard_match(self.pattern.as_slice(), bytes)
    }
}

} // verus!
