//! Name search without the volume index: a table of the names under a
//! folder tree gathered by a background walk, searched by query, and the
//! search of a folder tree batch by batch.
use vstd::prelude::*;
use crate::entry::FsEntry;
use crate::query::{Query, query_holds, normalize};
use crate::rename::{lower_string, unicode_lower};
use crate::paths::{chars_eq, join, join_spec};
use crate::text::chars_of;

verus! {

/// Most names the table keeps; the walk stops once it holds more.
pub const MAX_ENTRIES: usize = 2_000_000;

/// Names gathered before they join the table in one step.
pub const FLUSH_AT: usize = 8192;

/// The names under a folder tree: for each, its lowercased name, the id of
/// its folder and whether it is a folder, and its name as shown; and the
/// folders by id.
pub struct NameTable {
    pub names: Vec<(String, u32, bool)>,
    pub display: Vec<String>,
    pub dirs: Vec<String>,
    pub complete: bool,
}

impl NameTable {
    /// Every name has a shown name and a known folder.
    pub open spec fn wf(&self) -> bool {
        &&& self.names@.len() == self.display@.len()
        &&& forall|i: int| 0 <= i < self.names@.len() ==> ((#[trigger] self.names@[i]).1 as int) < self.dirs@.len()
    }

    /// The full path of name `i`.
    pub open spec fn full_path(&self, i: int) -> Seq<char> {
        join_spec(self.dirs@[self.names@[i].1 as int]@, self.display@[i]@)
    }

    pub fn new() -> (r: NameTable)
        ensures
            r.wf(),
            r.names@.len() == 0,
            r.dirs@.len() == 0,
            !r.complete,
    {
        NameTable { names: Vec::new(), display: Vec::new(), dirs: Vec::new(), complete: false }
    }

    /// The id of folder `root\rel`, added when it is new.
    pub fn dir_id(&mut self, root: &str, rel: &str) -> (r: u32)
        requires
            old(self).wf(),
            old(self).dirs@.len() < u32::MAX,
        ensures
            final(self).wf(),
            final(self).names == old(self).names,
            final(self).display == old(self).display,
            final(self).complete == old(self).complete,
            (r as int) < final(self).dirs@.len(),
            final(self).dirs@[r as int]@ == join_spec(root@, rel@),
            final(self).dirs@.len() <= old(self).dirs@.len() + 1,
            old(self).dirs@ == final(self).dirs@.take(old(self).dirs@.len() as int),
    {
        let full = join(root, rel);
        let fv = chars_of(full.as_str());
        let mut k: usize = self.dirs.len();
        while k > 0
            invariant
                k <= self.dirs@.len(),
                self.dirs@.len() < u32::MAX,
                fv@ == full@,
                full@ == join_spec(root@, rel@),
                self.names == old(self).names,
                self.display == old(self).display,
                self.dirs == old(self).dirs,
                self.complete == old(self).complete,
                old(self).wf(),
            decreases k,
        {
            k -= 1;
            if chars_eq(&chars_of(self.dirs[k].as_str()), &fv) {
                assert(self.dirs@.take(self.dirs@.len() as int) =~= self.dirs@);
                assert(self.dirs@[k as int]@ == join_spec(root@, rel@));
                return k as u32;
            }
        }
        let id = self.dirs.len() as u32;
        let ghost before = self.dirs@;
        self.dirs.push(full);
        assert(before =~= self.dirs@.take(before.len() as int));
        id
    }

    /// Gathers a listed batch of folder `dir`: each entry's lowercased
    /// name, folder and kind, and its name as shown.
    pub fn stage(staged: &mut Vec<(String, u32, bool)>, shown: &mut Vec<String>, dir: u32, batch: &[FsEntry])
        requires
            old(staged)@.len() == old(shown)@.len(),
        ensures
            final(staged)@.len() == final(shown)@.len(),
            final(staged)@.len() == old(staged)@.len() + batch@.len(),
            final(staged)@.take(old(staged)@.len() as int) == old(staged)@,
            final(shown)@.take(old(shown)@.len() as int) == old(shown)@,
            forall|k: int| 0 <= k < batch@.len() ==> {
                &&& (#[trigger] final(staged)@[old(staged)@.len() + k]).0@ == unicode_lower(batch@[k].name@)
                &&& final(staged)@[old(staged)@.len() + k].1 == dir
                &&& final(staged)@[old(staged)@.len() + k].2 == batch@[k].dir()
                &&& final(shown)@[old(staged)@.len() + k]@ == batch@[k].name@
            },
    {
        let ghost s0 = staged@;
        let ghost d0 = shown@;
        let mut i: usize = 0;
        while i < batch.len()
            invariant
                i <= batch@.len(),
                staged@.len() == shown@.len(),
                staged@.len() == s0.len() + i,
                staged@.take(s0.len() as int) == s0,
                shown@.take(d0.len() as int) == d0,
                d0.len() == s0.len(),
                forall|k: int| 0 <= k < i ==> {
                    &&& (#[trigger] staged@[s0.len() + k]).0@ == unicode_lower(batch@[k].name@)
                    &&& staged@[s0.len() + k].1 == dir
                    &&& staged@[s0.len() + k].2 == batch@[k].dir()
                    &&& shown@[s0.len() + k]@ == batch@[k].name@
                },
            decreases batch@.len() - i,
        {
            let e = &batch[i];
            let ghost sb = staged@;
            let ghost db = shown@;
            staged.push((lower_string(e.name.as_str()), dir, e.is_dir()));
            shown.push(e.name.clone());
            assert(staged@.take(s0.len() as int) =~= sb.take(s0.len() as int));
            assert(shown@.take(d0.len() as int) =~= db.take(d0.len() as int));
            i += 1;
        }
    }

    /// Moves gathered names into the table. Returns whether the table is
    /// then over `MAX_ENTRIES` (the walk stops).
    pub fn flush(&mut self, staged: &mut Vec<(String, u32, bool)>, shown: &mut Vec<String>) -> (full: bool)
        requires
            old(self).wf(),
            old(staged)@.len() == old(shown)@.len(),
            forall|i: int| 0 <= i < old(staged)@.len() ==> ((#[trigger] old(staged)@[i]).1 as int) < old(self).dirs@.len(),
        ensures
            final(self).wf(),
            final(self).names@ == old(self).names@ + old(staged)@,
            final(self).display@ == old(self).display@ + old(shown)@,
            final(self).dirs == old(self).dirs,
            final(self).complete == old(self).complete,
            final(staged)@.len() == 0 && final(shown)@.len() == 0,
            full == (old(self).names@.len() + old(staged)@.len() > MAX_ENTRIES),
    {
        let full = self.names.len() > MAX_ENTRIES || staged.len() > MAX_ENTRIES - self.names.len();
        let ghost n0 = self.names@;
        let ghost s0 = staged@;
        self.names.append(staged);
        self.display.append(shown);
        assert forall|i: int| 0 <= i < self.names@.len() implies ((#[trigger] self.names@[i]).1 as int) < self.dirs@.len() by {
            if i < n0.len() {
                assert(self.names@[i] == n0[i]);
            } else {
                assert(self.names@[i] == s0[i - n0.len()]);
            }
        }
        full
    }

    /// The hits among the names, in order: those whose lowercased name has
    /// `suffix` (when given) and whose full path passes the query.
    pub open spec fn hits(&self, qv: Seq<Seq<crate::query::TermV>>, suffix: Option<Seq<char>>, upto: int) -> Seq<(Seq<char>, bool)>
        decreases upto,
    {
        if upto <= 0 {
            Seq::empty()
        } else {
            let i = upto - 1;
            let prev = self.hits(qv, suffix, i);
            let e = self.names@[i];
            let suffix_ok = match suffix {
                Some(s) => s.len() <= e.0@.len() && e.0@.skip(e.0@.len() - s.len()) == s,
                None => true,
            };
            if suffix_ok && query_holds(qv, normalize(self.full_path(i))) {
                prev.push((self.full_path(i), e.2))
            } else {
                prev
            }
        }
    }

    /// Adds to `out` the hits for `query` among the names, up to `max`
    /// results in all.
    pub fn search(&self, query: &Query, suffix: Option<&str>, max: usize, out: &mut Vec<(String, bool)>)
        requires
            self.wf(),
        ensures
            ({
                let added = final(out)@.skip(old(out)@.len() as int).map_values(|h: (String, bool)| (h.0@, h.1));
                let want = self.hits(query.view_clauses(), match suffix { Some(s) => Some(s@), None => None }, self.names@.len() as int);
                &&& final(out)@.take(old(out)@.len() as int) == old(out)@
                &&& if old(out)@.len() >= max {
                        added.len() == 0
                    } else if want.len() <= max - old(out)@.len() {
                        added == want
                    } else {
                        added == want.take(max - old(out)@.len())
                    }
                &&& old(out)@.len() <= final(out)@.len()
                &&& final(out)@.len() <= if old(out)@.len() > max { old(out)@.len() as int } else { max as int }
            }),
    {
        let ghost qv = query.view_clauses();
        let ghost sv = match suffix { Some(s) => Some(s@), None => None::<Seq<char>> };
        let ghost start = out@;
        let sfx: Option<Vec<char>> = match suffix { Some(s) => Some(chars_of(s)), None => None };
        let mut i: usize = 0;
        while i < self.names.len()
            invariant
                i <= self.names@.len(),
                self.wf(),
                qv == query.view_clauses(),
                sv == match suffix { Some(s) => Some(s@), None => None::<Seq<char>> },
                match sfx { Some(v) => sv == Some(v@), None => sv is None },
                start == old(out)@,
                out@.take(start.len() as int) == start,
                start.len() <= out@.len(),
                out@.len() <= if start.len() > max { start.len() as int } else { max as int },
                start.len() >= max ==> out@.len() == start.len(),
                start.len() < max ==> out@.skip(start.len() as int).map_values(|h: (String, bool)| (h.0@, h.1))
                    == (if self.hits(qv, sv, i as int).len() <= max - start.len() { self.hits(qv, sv, i as int) }
                        else { self.hits(qv, sv, i as int).take(max - start.len()) }),
                start.len() < max && out@.len() < max ==> self.hits(qv, sv, i as int).len() == out@.len() - start.len(),
            decreases self.names@.len() - i,
        {
            if out.len() >= max {
                proof {
                    lemma_hits_grow(*self, qv, sv, i as int, self.names@.len() as int);
                    if start.len() < max {
                        let h = self.hits(qv, sv, i as int);
                        let w = self.hits(qv, sv, self.names@.len() as int);
                        let m = (max - start.len()) as int;
                        assert(h.len() >= m);
                        assert forall|k: int| 0 <= k < m implies w[k] == h[k] by {
                            assert(w.take(h.len() as int)[k] == w[k]);
                        }
                        if w.len() <= m {
                            assert(w =~= h);
                        } else {
                            assert(w.take(m) =~= h.take(m));
                        }
                    }
                }
                return;
            }
            let (lower, dir, is_dir) = (&self.names[i].0, self.names[i].1, self.names[i].2);
            let suffix_ok = match &sfx {
                Some(s) => ends_with_chars(&chars_of(lower.as_str()), s),
                None => true,
            };
            if suffix_ok {
                let full = join(self.dirs[dir as usize].as_str(), self.display[i].as_str());
                assert(full@ == self.full_path(i as int));
                if query.matches(full.as_str()) {
                    let ghost before = out@;
                    out.push((full, is_dir));
                    proof {
                        assert(out@.take(start.len() as int) =~= before.take(start.len() as int));
                        if start.len() < max {
                            assert(out@.skip(start.len() as int) =~= before.skip(start.len() as int).push((full, is_dir)));
                        }
                    }
                }
            }
            i += 1;
            proof {
                if start.len() < max {
                    let h = self.hits(qv, sv, i as int);
                    assert(h.len() <= max - start.len() ==> h =~= h);
                }
            }
        }
    }
}

/// `p` is the end of `s`.
pub fn ends_with_chars(s: &Vec<char>, p: &Vec<char>) -> (r: bool)
    ensures
        r == (p@.len() <= s@.len() && s@.skip(s@.len() - p@.len()) == p@),
{
    if p.len() > s.len() {
        return false;
    }
    let off = s.len() - p.len();
    let mut i: usize = 0;
    while i < p.len()
        invariant
            p.len() <= s.len(),
            off == s.len() - p.len(),
            i <= p.len(),
            forall|k: int| 0 <= k < i ==> s@[off + k] == p@[k],
        decreases p.len() - i,
    {
        if s[off + i] != p[i] {
            assert(s@.skip(off as int)[i as int] != p@[i as int]);
            return false;
        }
        i += 1;
    }
    assert(s@.skip(off as int) =~= p@);
    true
}

proof fn lemma_hits_grow(t: NameTable, qv: Seq<Seq<crate::query::TermV>>, sv: Option<Seq<char>>, i: int, j: int)
    requires
        0 <= i <= j,
    ensures
        t.hits(qv, sv, j).len() >= t.hits(qv, sv, i).len(),
        t.hits(qv, sv, j).take(t.hits(qv, sv, i).len() as int) == t.hits(qv, sv, i),
    decreases j - i,
{
    if i < j {
        lemma_hits_grow(t, qv, sv, i, j - 1);
        if j > 0 {
            let a = t.hits(qv, sv, j - 1);
            let b = t.hits(qv, sv, j);
            assert(b.take(a.len() as int) =~= a);
            assert(b.take(t.hits(qv, sv, i).len() as int) =~= a.take(t.hits(qv, sv, i).len() as int));
        }
    } else {
        assert(t.hits(qv, sv, j).take(t.hits(qv, sv, j).len() as int) =~= t.hits(qv, sv, j));
    }
}

/// The hits of a listed batch of folder `rel` under `scope`, in order:
/// entries (folders only, when asked) whose full path passes the query.
pub open spec fn batch_hits(scope: Seq<char>, rel: Seq<char>, batch: Seq<FsEntry>, qv: Seq<Seq<crate::query::TermV>>, dirs_only: bool) -> Seq<(Seq<char>, bool)>
    decreases batch.len(),
{
    if batch.len() == 0 {
        Seq::empty()
    } else {
        let prev = batch_hits(scope, rel, batch.drop_last(), qv, dirs_only);
        let e = batch.last();
        let full = join_spec(join_spec(scope, rel), e.name@);
        if (!dirs_only || e.dir()) && query_holds(qv, normalize(full)) { prev.push((full, e.dir())) } else { prev }
    }
}

/// Searches one listed batch of a folder tree walk: adds its hits to
/// `results` until there are `max`. Returns whether the walk should go on
/// (fewer than `max` results).
pub fn search_batch(results: &mut Vec<(String, bool)>, query: &Query, scope: &str, rel: &str, batch: &[FsEntry], dirs_only: bool, max: usize) -> (more: bool)
    requires
        old(results)@.len() < max,
    ensures
        final(results)@.take(old(results)@.len() as int) == old(results)@,
        final(results)@.len() <= max,
        more == (final(results)@.len() < max),
        ({
                let added = final(results)@.skip(old(results)@.len() as int).map_values(|h: (String, bool)| (h.0@, h.1));
                let hits = batch_hits(scope@, rel@, batch@, query.view_clauses(), dirs_only);
                let room = max - old(results)@.len();
                added == if hits.len() < room { hits } else { hits.take(room) }
            }),
{
    let ghost qv = query.view_clauses();
    let ghost start = results@;
    let ghost room = max - start.len();
    let base = join(scope, rel);
    let mut i: usize = 0;
    assert(batch@.take(0) =~= Seq::<FsEntry>::empty());
    while i < batch.len()
        invariant
            i <= batch@.len(),
            qv == query.view_clauses(),
            start == old(results)@,
            start.len() < max,
            room == max - start.len(),
            base@ == join_spec(scope@, rel@),
            results@.take(start.len() as int) == start,
            start.len() <= results@.len() < max,
            results@.skip(start.len() as int).map_values(|h: (String, bool)| (h.0@, h.1))
                == batch_hits(scope@, rel@, batch@.take(i as int), qv, dirs_only),
        decreases batch@.len() - i,
    {
        assert(batch@.take(i + 1).drop_last() =~= batch@.take(i as int));
        assert(batch@.take(i + 1).last() == batch@[i as int]);
        let e = &batch[i];
        if !dirs_only || e.is_dir() {
            let full = join(base.as_str(), e.name.as_str());
            if query.matches(full.as_str()) {
                let ghost before = results@;
                results.push((full, e.is_dir()));
                proof {
                    assert(results@.take(start.len() as int) =~= before.take(start.len() as int));
                    assert(results@.skip(start.len() as int) =~= before.skip(start.len() as int).push((full, e.dir())));
                }
                if results.len() >= max {
                    proof {
                        lemma_batch_hits_grow(scope@, rel@, batch@, qv, dirs_only, i + 1);
                        let h = batch_hits(scope@, rel@, batch@.take(i + 1), qv, dirs_only);
                        let w = batch_hits(scope@, rel@, batch@, qv, dirs_only);
                        assert(h.len() == room);
                        assert forall|k: int| 0 <= k < room implies w[k] == h[k] by {
                            assert(w.take(h.len() as int)[k] == w[k]);
                        }
                        assert(w.take(room) =~= h);
                    }
                    return false;
                }
            }
        }
        i += 1;
    }
    assert(batch@.take(batch@.len() as int) =~= batch@);
    true
}

proof fn lemma_batch_hits_grow(scope: Seq<char>, rel: Seq<char>, batch: Seq<FsEntry>, qv: Seq<Seq<crate::query::TermV>>, dirs_only: bool, i: int)
    requires
        0 <= i <= batch.len(),
    ensures
        batch_hits(scope, rel, batch, qv, dirs_only).len() >= batch_hits(scope, rel, batch.take(i), qv, dirs_only).len(),
        batch_hits(scope, rel, batch, qv, dirs_only).take(batch_hits(scope, rel, batch.take(i), qv, dirs_only).len() as int)
            == batch_hits(scope, rel, batch.take(i), qv, dirs_only),
    decreases batch.len() - i,
{
    let h = batch_hits(scope, rel, batch.take(i), qv, dirs_only);
    if i < batch.len() {
        lemma_batch_hits_grow(scope, rel, batch, qv, dirs_only, i + 1);
        assert(batch.take(i + 1).drop_last() =~= batch.take(i));
        let h1 = batch_hits(scope, rel, batch.take(i + 1), qv, dirs_only);
        let w = batch_hits(scope, rel, batch, qv, dirs_only);
        assert(h1.take(h.len() as int) =~= h);
        assert(w.take(h.len() as int) =~= w.take(h1.len() as int).take(h.len() as int));
    } else {
        assert(batch.take(i) =~= batch);
        assert(h.take(h.len() as int) =~= h);
    }
}

} // verus!
