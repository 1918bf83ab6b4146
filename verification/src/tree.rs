//! The folder tree of the sidebar and the flattened branch view: which
//! entries of a listing are subfolders to show, in natural order, and how a
//! nested batch is named in a flattened listing.
use vstd::prelude::*;
use crate::entry::FsEntry;
use crate::natural::{natural, natural_order, lemma_natural_antisymmetric};
use crate::text::{chars_of, owned, push_char};

verus! {

broadcast use vstd::seq_lib::group_to_multiset_ensures;

/// Most subfolders the tree lists of one folder, give or take a batch.
pub const TREE_DIR_LIMIT: usize = 2000;

/// The names of the visible folders among `batch`, in order.
pub open spec fn visible_dirs(batch: Seq<FsEntry>) -> Seq<Seq<char>>
    decreases batch.len(),
{
    if batch.len() == 0 {
        Seq::empty()
    } else if batch.last().dir() && !batch.last().hidden() {
        visible_dirs(batch.drop_last()).push(batch.last().name@)
    } else {
        visible_dirs(batch.drop_last())
    }
}

pub open spec fn names_view(v: Seq<String>) -> Seq<Seq<char>> {
    v.map_values(|s: String| s@)
}

/// Adds a listed batch's visible folders to the tree's list. Returns
/// whether the listing should go on: while fewer than `TREE_DIR_LIMIT`
/// names are gathered.
pub fn add_tree_dirs(dirs: &mut Vec<String>, batch: &[FsEntry]) -> (more: bool)
    ensures
        names_view(final(dirs)@) == names_view(old(dirs)@) + visible_dirs(batch@),
        more == (final(dirs)@.len() < TREE_DIR_LIMIT),
{
    let ghost start = names_view(dirs@);
    let mut i: usize = 0;
    assert(batch@.take(0) =~= Seq::<FsEntry>::empty());
    assert(start + Seq::<Seq<char>>::empty() =~= start);
    while i < batch.len()
        invariant
            i <= batch.len(),
            names_view(dirs@) == start + visible_dirs(batch@.take(i as int)),
        decreases batch.len() - i,
    {
        assert(batch@.take(i + 1).drop_last() =~= batch@.take(i as int));
        assert(batch@.take(i + 1).last() == batch@[i as int]);
        let e = &batch[i];
        if e.is_dir() && !e.is_hidden() {
            let ghost before = names_view(dirs@);
            dirs.push(e.name.clone());
            assert(names_view(dirs@) =~= before.push(e.name@));
        }
        i += 1;
    }
    assert(batch@.take(batch.len() as int) =~= batch@);
    dirs.len() < TREE_DIR_LIMIT
}

/// Names in natural order (see `natural`), each next to the one after it.
pub open spec fn naturally_sorted(v: Seq<String>) -> bool {
    forall|i: int| 0 <= i < v.len() - 1 ==> natural((#[trigger] v[i])@, v[i + 1]@) <= 0
}

/// Sorts folder names in natural order, stably.
pub fn sort_natural(names: &mut Vec<String>)
    ensures
        final(names)@.to_multiset() == old(names)@.to_multiset(),
        naturally_sorted(final(names)@),
{
    let mut src: Vec<String> = Vec::new();
    std::mem::swap(&mut src, names);
    let ghost all = src@;
    let mut out: Vec<String> = Vec::new();
    let mut keys: Vec<Vec<char>> = Vec::new();
    let mut i: usize = 0;
    assert(all.take(0) =~= Seq::<String>::empty());
    while i < src.len()
        invariant
            i <= src.len(),
            src@ == all,
            keys@.len() == out@.len(),
            forall|k: int| 0 <= k < out@.len() ==> (#[trigger] keys@[k])@ == out@[k]@,
            out@.to_multiset() == all.take(i as int).to_multiset(),
            naturally_sorted(out@),
        decreases src.len() - i,
    {
        let name = src[i].clone();
        let key = chars_of(name.as_str());
        assert(name == all[i as int]);
        let mut j: usize = out.len();
        while j > 0 && natural_order(&keys[j - 1], &key) > 0
            invariant
                j <= out@.len(),
                keys@.len() == out@.len(),
                forall|k: int| 0 <= k < out@.len() ==> (#[trigger] keys@[k])@ == out@[k]@,
                key@ == name@,
                forall|k: int| j <= k < out@.len() ==> natural((#[trigger] out@[k])@, name@) > 0,
            decreases j,
        {
            j -= 1;
        }
        let ghost before = out@;
        proof {
            if j < out.len() {
                assert(natural(before[j as int]@, name@) > 0);
                lemma_natural_antisymmetric(before[j as int]@, name@);
            }
        }
        out.insert(j, name);
        keys.insert(j, key);
        proof {
            assert(all.take(i + 1) =~= all.take(i as int).push(all[i as int]));
            assert forall|k: int| 0 <= k < out@.len() - 1 implies natural((#[trigger] out@[k])@, out@[k + 1]@) <= 0 by {
                if k + 1 < j {
                    assert(out@[k] == before[k] && out@[k + 1] == before[k + 1]);
                } else if k + 1 == j {
                    assert(out@[k] == before[k]);
                } else if k == j {
                } else {
                    assert(out@[k] == before[k - 1] && out@[k + 1] == before[k]);
                }
            }
            assert forall|k: int| 0 <= k < out@.len() implies (#[trigger] keys@[k])@ == out@[k]@ by {
                if k < j {
                } else if k == j {
                } else {
                }
            }
        }
        i += 1;
    }
    assert(all.take(src.len() as int) =~= all);
    *names = out;
}

/// A batch of a flattened listing: entries found below the root get their
/// path relative to it (`rel\name`).
pub open spec fn flattened_name(rel: Seq<char>, name: Seq<char>) -> Seq<char> {
    if rel.len() == 0 { name } else { rel + seq!['\\'] + name }
}

/// Names the entries of a batch found in folder `rel` below the root of a
/// flattened listing.
pub fn flatten_batch(rel: &str, batch: Vec<FsEntry>) -> (r: Vec<FsEntry>)
    ensures
        r@.len() == batch@.len(),
        forall|k: int| 0 <= k < r@.len() ==> {
            &&& (#[trigger] r@[k]).name@ == flattened_name(rel@, batch@[k].name@)
            &&& r@[k].size == batch@[k].size
            &&& r@[k].modified == batch@[k].modified
            &&& r@[k].created == batch@[k].created
            &&& r@[k].attributes == batch@[k].attributes
        },
{
    let top = chars_of(rel).len() == 0;
    let mut out: Vec<FsEntry> = Vec::new();
    let mut i: usize = 0;
    while i < batch.len()
        invariant
            i <= batch.len(),
            top == (rel@.len() == 0),
            out@.len() == i,
            forall|k: int| 0 <= k < i ==> {
                &&& (#[trigger] out@[k]).name@ == flattened_name(rel@, batch@[k].name@)
                &&& out@[k].size == batch@[k].size
                &&& out@[k].modified == batch@[k].modified
                &&& out@[k].created == batch@[k].created
                &&& out@[k].attributes == batch@[k].attributes
            },
        decreases batch.len() - i,
    {
        let e = &batch[i];
        let name = if top {
            e.name.clone()
        } else {
            let mut s = owned(rel);
            push_char(&mut s, '\\');
            s.append(e.name.as_str());
            s
        };
        out.push(FsEntry { name, size: e.size, modified: e.modified, created: e.created, attributes: e.attributes });
        i += 1;
    }
    out
}

} // verus!
