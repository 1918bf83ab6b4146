//! Name search over the index: how a query is planned, how hits from two
//! sources are merged, and how hits are ranked by how close they lie to the
//! folder the user is in.
use vstd::prelude::*;
use crate::order::{lex, lex_range, lemma_lex_antisym, three_way};
use crate::paths::{components, components_chars, parent_spec, parent};
use crate::query::Query;
use crate::text::{chars_of, lower, lower_all, ascii_lower, owned, is_whitespace, is_ws};

verus! {

broadcast use vstd::seq_lib::group_to_multiset_ensures;

/// The state of the file-name index.
#[derive(Clone, Copy, Debug, PartialEq, Eq, Structural)]
pub enum IndexStatus {
    Building,
    Ready { entries: usize, mft: bool },
    Unavailable,
}

/// `.` and `..`, which path components leave out of a comparison.
pub open spec fn is_dot_name(c: Seq<char>) -> bool {
    c == seq!['.'] || c == seq!['.', '.']
}

pub open spec fn drop_dots(cs: Seq<Seq<char>>) -> Seq<Seq<char>>
    decreases cs.len(),
{
    if cs.len() == 0 {
        cs
    } else if is_dot_name(cs.last()) {
        drop_dots(cs.drop_last())
    } else {
        drop_dots(cs.drop_last()).push(cs.last())
    }
}

/// The components of a path as ranking compares them: ASCII-lowercased,
/// without `.` and `..`.
pub open spec fn path_comps_spec(p: Seq<char>) -> Seq<Seq<char>> {
    drop_dots(components(p)).map_values(|c: Seq<char>| lower_all(c))
}

/// How many leading components `a` and `b` share.
pub open spec fn common_len(a: Seq<Seq<char>>, b: Seq<Seq<char>>) -> nat
    decreases a.len(),
{
    if a.len() == 0 || b.len() == 0 || a[0] != b[0] {
        0
    } else {
        1 + common_len(a.drop_first(), b.drop_first())
    }
}

/// The folder a hit lies in (the hit itself when it has no parent).
pub open spec fn hit_dir(hit: Seq<char>) -> Seq<char> {
    match parent_spec(hit) {
        Some(p) => p,
        None => hit,
    }
}

/// How far a hit lies from `origin`: class 0 with the depth below it for
/// hits inside it, else class 1 with the steps up and down between them.
pub open spec fn path_distance_spec(origin: Seq<char>, hit: Seq<char>) -> (u8, u32) {
    let o = path_comps_spec(origin);
    let h = path_comps_spec(hit_dir(hit));
    if h.len() >= o.len() && h.take(o.len() as int) == o {
        (0u8, (h.len() - o.len()) as u32)
    } else {
        let c = common_len(o, h);
        (1u8, ((o.len() - c) + (h.len() - c)) as u32)
    }
}

/// Bytes a character takes in UTF-8.
pub open spec fn utf8_width(c: char) -> int {
    if (c as u32) < 0x80 {
        1
    } else if (c as u32) < 0x800 {
        2
    } else if (c as u32) < 0x10000 {
        3
    } else {
        4
    }
}

/// Length of `s` in UTF-8 bytes.
pub open spec fn utf8_len(s: Seq<char>) -> int
    decreases s.len(),
{
    if s.len() == 0 { 0 } else { utf8_len(s.drop_last()) + utf8_width(s.last()) }
}

/// Component-wise lexicographic order of two component lists.
pub open spec fn comps_lex(a: Seq<Seq<char>>, b: Seq<Seq<char>>) -> int
    decreases a.len(),
{
    if a.len() == 0 && b.len() == 0 {
        0
    } else if a.len() == 0 {
        -1
    } else if b.len() == 0 {
        1
    } else if lex(a[0], b[0]) != 0 {
        lex(a[0], b[0])
    } else {
        comps_lex(a.drop_first(), b.drop_first())
    }
}

proof fn lemma_comps_lex_antisym(a: Seq<Seq<char>>, b: Seq<Seq<char>>)
    ensures
        comps_lex(a, b) == -comps_lex(b, a),
    decreases a.len(),
{
    if a.len() > 0 && b.len() > 0 {
        lemma_lex_antisym(a[0], b[0]);
        if lex(a[0], b[0]) == 0 {
            lemma_comps_lex_antisym(a.drop_first(), b.drop_first());
        }
    }
}

/// The order hits are ranked in, as -1 / 0 / 1: by distance from `origin`,
/// then by length in bytes, then by path.
pub open spec fn hit_order(origin: Seq<char>, a: Seq<char>, b: Seq<char>) -> int {
    let da = path_distance_spec(origin, a);
    let db = path_distance_spec(origin, b);
    if da.0 != db.0 {
        three_way(da.0 as int, db.0 as int)
    } else if da.1 != db.1 {
        three_way(da.1 as int, db.1 as int)
    } else if utf8_len(a) != utf8_len(b) {
        three_way(utf8_len(a), utf8_len(b))
    } else {
        comps_lex(components(a), components(b))
    }
}

/// Every neighbouring pair of hits is in ranking order.
pub open spec fn ranked(origin: Seq<char>, hits: Seq<(String, bool)>) -> bool {
    forall|i: int| 0 <= i < hits.len() - 1 ==> hit_order(origin, (#[trigger] hits[i]).0@, hits[i + 1].0@) <= 0
}

fn comps_filtered(p: &str) -> (r: Vec<Vec<char>>)
    ensures
        r@.map_values(|v: Vec<char>| v@) == path_comps_spec(p@),
{
    let v = chars_of(p);
    let cs = components_chars(&v);
    let ghost cv = cs@.map_values(|x: Vec<char>| x@);
    let mut out: Vec<Vec<char>> = Vec::new();
    let mut i: usize = 0;
    assert(cv.take(0) =~= Seq::<Seq<char>>::empty());
    while i < cs.len()
        invariant
            i <= cs.len(),
            cv == cs@.map_values(|x: Vec<char>| x@),
            cv == components(p@),
            out@.map_values(|x: Vec<char>| x@) == drop_dots(cv.take(i as int)).map_values(|c: Seq<char>| lower_all(c)),
        decreases cs.len() - i,
    {
        assert(cv.take(i + 1).drop_last() =~= cv.take(i as int));
        assert(cv.take(i + 1).last() == cs@[i as int]@);
        let c = &cs[i];
        let dot = (c.len() == 1 && c[0] == '.') || (c.len() == 2 && c[0] == '.' && c[1] == '.');
        proof {
            if c@.len() == 1 && c@[0] == '.' {
                assert(c@ =~= seq!['.']);
            }
            if c@.len() == 2 && c@[0] == '.' && c@[1] == '.' {
                assert(c@ =~= seq!['.', '.']);
            }
        }
        if !dot {
            let mut low: Vec<char> = Vec::new();
            let mut k: usize = 0;
            while k < c.len()
                invariant
                    k <= c.len(),
                    low@ == lower_all(c@.take(k as int)),
                decreases c.len() - k,
            {
                low.push(ascii_lower(c[k]));
                k += 1;
                assert(low@ =~= lower_all(c@.take(k as int)));
            }
            assert(c@.take(c.len() as int) =~= c@);
            let ghost before = out@.map_values(|x: Vec<char>| x@);
            out.push(low);
            assert(out@.map_values(|x: Vec<char>| x@) =~= before.push(lower_all(c@)));
        }
        i += 1;
    }
    assert(cv.take(cs.len() as int) =~= cv);
    out
}

fn comps_eq_prefix(o: &Vec<Vec<char>>, h: &Vec<Vec<char>>) -> (r: bool)
    requires
        o.len() <= h.len(),
    ensures
        r == (h@.map_values(|v: Vec<char>| v@).take(o.len() as int) == o@.map_values(|v: Vec<char>| v@)),
{
    let ghost ov = o@.map_values(|v: Vec<char>| v@);
    let ghost hv = h@.map_values(|v: Vec<char>| v@);
    let mut i: usize = 0;
    while i < o.len()
        invariant
            o.len() <= h.len(),
            i <= o.len(),
            ov == o@.map_values(|v: Vec<char>| v@),
            hv == h@.map_values(|v: Vec<char>| v@),
            forall|k: int| 0 <= k < i ==> ov[k] == hv[k],
        decreases o.len() - i,
    {
        if !crate::paths::chars_eq(&o[i], &h[i]) {
            assert(hv.take(o.len() as int)[i as int] != ov[i as int]);
            return false;
        }
        i += 1;
    }
    assert(hv.take(o.len() as int) =~= ov);
    true
}

fn common_exec(o: &Vec<Vec<char>>, h: &Vec<Vec<char>>) -> (r: usize)
    ensures
        r as nat == common_len(o@.map_values(|v: Vec<char>| v@), h@.map_values(|v: Vec<char>| v@)),
        r <= o.len() && r <= h.len(),
{
    let ghost ov = o@.map_values(|v: Vec<char>| v@);
    let ghost hv = h@.map_values(|v: Vec<char>| v@);
    let mut i: usize = 0;
    assert(ov.skip(0) =~= ov);
    assert(hv.skip(0) =~= hv);
    while i < o.len() && i < h.len() && crate::paths::chars_eq(&o[i], &h[i])
        invariant
            i <= o.len() && i <= h.len(),
            ov == o@.map_values(|v: Vec<char>| v@),
            hv == h@.map_values(|v: Vec<char>| v@),
            common_len(ov, hv) == i + common_len(ov.skip(i as int), hv.skip(i as int)),
        decreases o.len() - i,
    {
        assert(ov.skip(i as int).drop_first() =~= ov.skip(i + 1));
        assert(hv.skip(i as int).drop_first() =~= hv.skip(i + 1));
        i += 1;
    }
    i
}

/// How far `hit` lies from the folder whose components are `o`.
fn distance_from(o: &Vec<Vec<char>>, origin: &str, hit: &str) -> (r: (u8, u32))
    requires
        o@.map_values(|v: Vec<char>| v@) == path_comps_spec(origin@),
    ensures
        r == path_distance_spec(origin@, hit@),
{
    let dir = match parent(hit) {
        Some(p) => p,
        None => owned(hit),
    };
    let h = comps_filtered(dir.as_str());
    if h.len() >= o.len() && comps_eq_prefix(o, &h) {
        ((0, (h.len() - o.len()) as u32))
    } else {
        let c = common_exec(o, &h);
        let a: u128 = (o.len() - c) as u128;
        let b: u128 = (h.len() - c) as u128;
        (1, (a + b) as u32)
    }
}

fn utf8_len_exec(s: &str) -> (r: usize)
    requires
        s@.len() <= usize::MAX / 4,
    ensures
        r as int == utf8_len(s@),
{
    let v = chars_of(s);
    let mut n: usize = 0;
    let mut i: usize = 0;
    assert(v@.take(0) =~= Seq::<char>::empty());
    while i < v.len()
        invariant
            i <= v.len(),
            v@ == s@,
            v.len() <= usize::MAX / 4,
            n as int == utf8_len(v@.take(i as int)),
            n <= 4 * i,
        decreases v.len() - i,
    {
        assert(v@.take(i + 1).drop_last() =~= v@.take(i as int));
        let c = v[i] as u32;
        let w: usize = if c < 0x80 { 1 } else if c < 0x800 { 2 } else if c < 0x10000 { 3 } else { 4 };
        n = n + w;
        i += 1;
    }
    assert(v@.take(v.len() as int) =~= v@);
    n
}

fn comps_lex_exec(a: &Vec<Vec<char>>, b: &Vec<Vec<char>>) -> (r: i8)
    ensures
        r as int == comps_lex(a@.map_values(|v: Vec<char>| v@), b@.map_values(|v: Vec<char>| v@)),
{
    let ghost av = a@.map_values(|v: Vec<char>| v@);
    let ghost bv = b@.map_values(|v: Vec<char>| v@);
    let mut i: usize = 0;
    assert(av.skip(0) =~= av);
    assert(bv.skip(0) =~= bv);
    while i < a.len() && i < b.len()
        invariant
            i <= a.len() && i <= b.len(),
            av == a@.map_values(|v: Vec<char>| v@),
            bv == b@.map_values(|v: Vec<char>| v@),
            comps_lex(av, bv) == comps_lex(av.skip(i as int), bv.skip(i as int)),
        decreases a.len() - i,
    {
        let c = lex_range(&a[i], 0, a[i].len(), &b[i], 0, b[i].len());
        assert(a@[i as int]@.subrange(0, a@[i as int]@.len() as int) =~= av[i as int]);
        assert(b@[i as int]@.subrange(0, b@[i as int]@.len() as int) =~= bv[i as int]);
        assert(av.skip(i as int)[0] == av[i as int]);
        assert(bv.skip(i as int)[0] == bv[i as int]);
        if c != 0 {
            return c;
        }
        assert(av.skip(i as int).drop_first() =~= av.skip(i + 1));
        assert(bv.skip(i as int).drop_first() =~= bv.skip(i + 1));
        i += 1;
    }
    if i == a.len() && i == b.len() {
        0
    } else if i == a.len() {
        -1
    } else {
        1
    }
}

/// A hit with what ranking compares it by.
struct Ranked {
    class: u8,
    dist: u32,
    len: usize,
    comps: Vec<Vec<char>>,
    hit: (String, bool),
}

spec fn ranked_ok(r: Ranked, origin: Seq<char>) -> bool {
    &&& (r.class, r.dist) == path_distance_spec(origin, r.hit.0@)
    &&& r.len as int == utf8_len(r.hit.0@)
    &&& r.comps@.map_values(|v: Vec<char>| v@) == components(r.hit.0@)
}

spec fn hits_of(s: Seq<Ranked>) -> Seq<(String, bool)> {
    s.map_values(|r: Ranked| r.hit)
}

fn rank_order(a: &Ranked, b: &Ranked, Ghost(origin): Ghost<Seq<char>>) -> (r: i8)
    requires
        ranked_ok(*a, origin),
        ranked_ok(*b, origin),
    ensures
        r as int == hit_order(origin, a.hit.0@, b.hit.0@),
{
    if a.class != b.class {
        if a.class < b.class { -1 } else { 1 }
    } else if a.dist != b.dist {
        if a.dist < b.dist { -1 } else { 1 }
    } else if a.len != b.len {
        if a.len < b.len { -1 } else { 1 }
    } else {
        comps_lex_exec(&a.comps, &b.comps)
    }
}

/// Orders hits by how close they lie to `origin`: files in it first, then
/// deeper ones, then siblings and farther branches; ties by length in
/// bytes, then by path. The order is stable.
pub fn rank_by_proximity(hits: &mut Vec<(String, bool)>, origin: &str)
    requires
        forall|i: int| 0 <= i < old(hits)@.len() ==> (#[trigger] old(hits)@[i]).0@.len() <= usize::MAX / 4,
    ensures
        final(hits)@.to_multiset() == old(hits)@.to_multiset(),
        ranked(origin@, final(hits)@),
{
    let o = comps_filtered(origin);
    let mut src: Vec<(String, bool)> = Vec::new();
    std::mem::swap(&mut src, hits);
    let ghost all = src@;
    let mut out: Vec<Ranked> = Vec::new();
    let mut i: usize = 0;
    assert(all.take(0) =~= Seq::<(String, bool)>::empty());
    assert(hits_of(out@) =~= Seq::<(String, bool)>::empty());
    while i < src.len()
        invariant
            i <= src.len(),
            src@ == all,
            forall|k: int| 0 <= k < all.len() ==> (#[trigger] all[k]).0@.len() <= usize::MAX / 4,
            o@.map_values(|v: Vec<char>| v@) == path_comps_spec(origin@),
            forall|k: int| 0 <= k < out@.len() ==> ranked_ok(#[trigger] out@[k], origin@),
            hits_of(out@).to_multiset() == all.take(i as int).to_multiset(),
            ranked(origin@, hits_of(out@)),
        decreases src.len() - i,
    {
        let name = src[i].0.clone();
        let flag = src[i].1;
        let (class, dist) = distance_from(&o, origin, name.as_str());
        let len = utf8_len_exec(name.as_str());
        let comps = components_chars(&chars_of(name.as_str()));
        let rec = Ranked { class, dist, len, comps, hit: (name, flag) };
        assert(rec.hit == all[i as int]);
        let mut j: usize = out.len();
        while j > 0 && rank_order(&out[j - 1], &rec, Ghost(origin@)) > 0
            invariant
                j <= out.len(),
                ranked_ok(rec, origin@),
                forall|k: int| 0 <= k < out@.len() ==> ranked_ok(#[trigger] out@[k], origin@),
                forall|k: int| j <= k < out@.len() ==> hit_order(origin@, (#[trigger] out@[k]).hit.0@, rec.hit.0@) > 0,
            decreases j,
        {
            j -= 1;
        }
        let ghost before = out@;
        proof {
            if j < out.len() {
                assert(hit_order(origin@, before[j as int].hit.0@, rec.hit.0@) > 0);
                lemma_comps_lex_antisym(components(before[j as int].hit.0@), components(rec.hit.0@));
                assert(hit_order(origin@, rec.hit.0@, before[j as int].hit.0@) < 0);
            }
        }
        out.insert(j, rec);
        proof {
            assert(hits_of(out@) =~= hits_of(before).insert(j as int, all[i as int]));
            assert(all.take(i + 1) =~= all.take(i as int).push(all[i as int]));
            let hb = hits_of(before);
            let ho = hits_of(out@);
            assert forall|k: int| 0 <= k < ho.len() - 1 implies hit_order(origin@, (#[trigger] ho[k]).0@, ho[k + 1].0@) <= 0 by {
                if k + 1 < j {
                    assert(ho[k] == hb[k] && ho[k + 1] == hb[k + 1]);
                } else if k + 1 == j {
                    assert(ho[k] == hb[k]);
                } else if k == j {
                } else {
                    assert(ho[k] == hb[k - 1] && ho[k + 1] == hb[k]);
                }
            }
        }
        i += 1;
    }
    assert(all.take(src.len() as int) =~= all);
    let mut result: Vec<(String, bool)> = Vec::new();
    let mut m: usize = 0;
    while m < out.len()
        invariant
            m <= out.len(),
            result@ == hits_of(out@).take(m as int),
        decreases out.len() - m,
    {
        let h = (out[m].hit.0.clone(), out[m].hit.1);
        result.push(h);
        m += 1;
        assert(result@ =~= hits_of(out@).take(m as int));
    }
    assert(hits_of(out@).take(out.len() as int) =~= hits_of(out@));
    *hits = result;
}

/// Whether any whitespace-separated word of a query starts with `folder:`
/// (any ASCII case).
pub open spec fn has_folder_filter(q: Seq<char>) -> bool {
    exists|i: int| 0 <= i && i + 7 <= q.len() && (i == 0 || is_ws(q[i - 1]))
        && lower_all(#[trigger] q.subrange(i, i + 7)) == "folder:"@
}

/// Whether the query already restricts itself to folders.
pub fn query_has_folder_filter(query: &str) -> (r: bool)
    ensures
        r == has_folder_filter(query@),
{
    let v = chars_of(query);
    let pat = chars_of("folder:");
    if v.len() < 7 {
        return false;
    }
    let mut i: usize = 0;
    proof {
        reveal_strlit("folder:");
    }
    while i <= v.len() - 7
        invariant
            v@ == query@,
            pat@ == "folder:"@,
            pat@.len() == 7,
            v.len() >= 7,
            i <= v.len() - 6,
            forall|k: int| 0 <= k < i && k + 7 <= v@.len() && (k == 0 || is_ws(v@[k - 1])) ==> lower_all(#[trigger] v@.subrange(k, k + 7)) != "folder:"@,
        decreases v.len() - i,
    {
        if i == 0 || is_whitespace(v[i - 1]) {
            let mut k: usize = 0;
            while k < 7 && ascii_lower(v[i + k]) == pat[k]
                invariant
                    k <= 7,
                    i + 7 <= v.len(),
                    pat@ == "folder:"@,
                    pat@.len() == 7,
                    forall|x: int| 0 <= x < k ==> lower(v@[i + x]) == pat@[x],
                decreases 7 - k,
            {
                k += 1;
            }
            if k == 7 {
                assert(lower_all(v@.subrange(i as int, i + 7)) =~= "folder:"@);
                return true;
            }
            assert(lower_all(v@.subrange(i as int, i + 7))[k as int] != pat@[k as int]);
        }
        i += 1;
    }
    false
}

/// The ASCII-lowercased text of a path, by which hits are told apart.
pub open spec fn hit_key(p: Seq<char>) -> Seq<char> {
    lower_all(p)
}

fn hit_key_exec(p: &str) -> (r: Vec<char>)
    ensures
        r@ == hit_key(p@),
{
    let v = chars_of(p);
    let mut low: Vec<char> = Vec::new();
    let mut k: usize = 0;
    while k < v.len()
        invariant
            k <= v.len(),
            v@ == p@,
            low@ == lower_all(v@.take(k as int)),
        decreases v.len() - k,
    {
        low.push(ascii_lower(v[k]));
        k += 1;
        assert(low@ =~= lower_all(v@.take(k as int)));
    }
    assert(v@.take(v.len() as int) =~= v@);
    low
}

/// `into` followed by the hits of `extra` whose key is new, in order; a key
/// already present (in `into` or earlier in `extra`) is dropped.
pub open spec fn merged(into: Seq<(String, bool)>, extra: Seq<(String, bool)>) -> Seq<(String, bool)>
    decreases extra.len(),
{
    if extra.len() == 0 {
        into
    } else {
        let m = merged(into, extra.drop_last());
        if exists|k: int| 0 <= k < m.len() && hit_key((#[trigger] m[k]).0@) == hit_key(extra.last().0@) {
            m
        } else {
            m.push(extra.last())
        }
    }
}

/// Adds the hits of `extra` whose path (ignoring ASCII case) `into` lacks.
pub fn merge_hits(into: &mut Vec<(String, bool)>, extra: Vec<(String, bool)>)
    ensures
        final(into)@ == merged(old(into)@, extra@),
{
    let ghost start = into@;
    let mut keys: Vec<Vec<char>> = Vec::new();
    let mut a: usize = 0;
    while a < into.len()
        invariant
            a <= into.len(),
            into@ == start,
            keys@.len() == a,
            forall|k: int| 0 <= k < a ==> (#[trigger] keys@[k])@ == hit_key(into@[k].0@),
        decreases into.len() - a,
    {
        let kk = hit_key_exec(into[a].0.as_str());
        keys.push(kk);
        a += 1;
    }
    let mut i: usize = 0;
    assert(extra@.take(0) =~= Seq::<(String, bool)>::empty());
    while i < extra.len()
        invariant
            i <= extra.len(),
            into@ == merged(start, extra@.take(i as int)),
            keys@.len() == into@.len(),
            forall|k: int| 0 <= k < keys@.len() ==> (#[trigger] keys@[k])@ == hit_key(into@[k].0@),
        decreases extra.len() - i,
    {
        assert(extra@.take(i + 1).drop_last() =~= extra@.take(i as int));
        assert(extra@.take(i + 1).last() == extra@[i as int]);
        let key = hit_key_exec(extra[i].0.as_str());
        let mut seen = false;
        let mut k: usize = 0;
        while k < keys.len()
            invariant
                k <= keys.len(),
                keys@.len() == into@.len(),
                forall|x: int| 0 <= x < keys@.len() ==> (#[trigger] keys@[x])@ == hit_key(into@[x].0@),
                key@ == hit_key(extra@[i as int].0@),
                !seen ==> forall|x: int| 0 <= x < k ==> hit_key((#[trigger] into@[x]).0@) != key@,
                seen ==> exists|x: int| 0 <= x < into@.len() && hit_key((#[trigger] into@[x]).0@) == key@,
            decreases keys.len() - k,
        {
            if crate::paths::chars_eq(&keys[k], &key) {
                assert(hit_key(into@[k as int].0@) == key@);
                seen = true;
            }
            k += 1;
        }
        if !seen {
            let h = (extra[i].0.clone(), extra[i].1);
            assert(h == extra@[i as int]);
            into.push(h);
            keys.push(key);
        }
        i += 1;
    }
    assert(extra@.take(extra.len() as int) =~= extra@);
}

/// The parameters of one name search: the query handed to the Everything
/// service (restricted to folders when asked and not already so), the
/// number of hits wanted, and how many to fetch before ranking.
#[derive(Clone, Debug)]
pub struct SearchPlan {
    pub query: String,
    pub service_query: String,
    pub max: usize,
    pub fetch: usize,
}

/// Plans a name search; `None` for a blank query, which finds nothing. A
/// full search fetches three times the hits wanted, at most 2000 (and
/// more than 2000 hits cannot be asked of it).
pub fn plan_search(query: &str, max: usize, dirs_only: bool, quick: bool) -> (r: Option<SearchPlan>)
    requires
        quick || max <= 2000,
    ensures
        crate::text::trim(query@).len() == 0 ==> r is None,
        crate::text::trim(query@).len() > 0 ==> (r matches Some(p) && {
            let q = crate::text::trim(query@);
            let m = if max < 1 { 1 } else { max as int };
            &&& p.query@ == q
            &&& p.service_query@ == (if dirs_only && !has_folder_filter(q) { "folder: "@ + q } else { q })
            &&& p.max as int == m
            &&& p.fetch as int == (if quick { m } else if 3 * m > 2000 { 2000 } else { 3 * m })
        }),
{
    let v = chars_of(query);
    let (lo, hi) = crate::text::trim_bounds(&v);
    if lo == hi {
        return None;
    }
    let q = crate::text::string_of(&v, lo, hi);
    let service_query = if dirs_only && !query_has_folder_filter(q.as_str()) {
        let mut s = owned("folder: ");
        s.append(q.as_str());
        s
    } else {
        q.clone()
    };
    let max: usize = if max < 1 { 1 } else { max };
    let fetch: usize = if quick {
        max
    } else if max * 3 > 2000 {
        2000
    } else {
        max * 3
    };
    Some(SearchPlan { query: q, service_query, max, fetch })
}

/// The hits a search returns: ranked near `origin` when there is one, then
/// cut to `max`.
pub fn finish_hits(hits: Vec<(String, bool)>, origin: Option<&str>, max: usize) -> (r: Vec<(String, bool)>)
    requires
        forall|i: int| 0 <= i < hits@.len() ==> (#[trigger] hits@[i]).0@.len() <= usize::MAX / 4,
    ensures
        r@.len() == if hits@.len() < max { hits@.len() } else { max as nat },
        origin is None ==> r@ == hits@.take(r@.len() as int),
        origin matches Some(o) ==> exists|s: Seq<(String, bool)>|
            s.to_multiset() == hits@.to_multiset() && ranked(o@, s) && r@ == s.take(r@.len() as int),
{
    let mut h = hits;
    let ghost h0 = h@;
    match origin {
        Some(o) => {
            rank_by_proximity(&mut h, o);
            let ghost s = h@;
            assert(s.to_multiset().len() == h0.to_multiset().len());
            assert(s.len() == h0.len());
            h.truncate(max);
            assert(h@ =~= s.take(h@.len() as int));
        },
        None => {
            h.truncate(max);
            assert(h@ =~= h0.take(h@.len() as int));
        },
    }
    h
}

/// Whether `needle_lower` (already lowercased) occurs in `haystack`,
/// ignoring ASCII case; an empty needle never matches.
pub open spec fn contains_ci_spec(haystack: Seq<u8>, needle_lower: Seq<u8>) -> bool {
    needle_lower.len() > 0 && exists|i: int| 0 <= i && i + needle_lower.len() <= haystack.len()
        && #[trigger] match_at(haystack, needle_lower, i)
}

/// `needle_lower` matches `haystack` at `i`, ignoring ASCII case.
pub open spec fn match_at(haystack: Seq<u8>, needle_lower: Seq<u8>, i: int) -> bool {
    forall|k: int| 0 <= k < needle_lower.len() ==> lower_byte(#[trigger] haystack[i + k]) == needle_lower[k]
}

pub open spec fn lower_byte(b: u8) -> u8 {
    if 65 <= b <= 90 { (b + 32) as u8 } else { b }
}

fn lower_byte_exec(b: u8) -> (r: u8)
    ensures
        r == lower_byte(b),
{
    if 65 <= b && b <= 90 { b + 32 } else { b }
}

/// ASCII case-insensitive byte search.
pub fn contains_ci(haystack: &[u8], needle_lower: &[u8]) -> (r: bool)
    ensures
        r == contains_ci_spec(haystack@, needle_lower@),
{
    if needle_lower.len() == 0 || haystack.len() < needle_lower.len() {
        return false;
    }
    let end = haystack.len() - needle_lower.len();
    let mut i: usize = 0;
    while i <= end
        invariant
            end == haystack.len() - needle_lower.len(),
            needle_lower.len() > 0,
            i <= end + 1,
            forall|x: int| 0 <= x < i ==> !match_at(haystack@, needle_lower@, x),
        decreases end + 1 - i,
    {
        let mut k: usize = 0;
        while k < needle_lower.len() && lower_byte_exec(haystack[i + k]) == needle_lower[k]
            invariant
                k <= needle_lower.len(),
                i + needle_lower.len() <= haystack.len(),
                forall|y: int| 0 <= y < k ==> lower_byte(#[trigger] haystack@[i + y]) == needle_lower@[y],
            decreases needle_lower.len() - k,
        {
            k += 1;
        }
        if k == needle_lower.len() {
            assert(match_at(haystack@, needle_lower@, i as int));
            return true;
        }
        assert(lower_byte(haystack@[i + k]) != needle_lower@[k as int]);
        assert(!match_at(haystack@, needle_lower@, i as int));
        i += 1;
    }
    proof {
        assert forall|x: int| 0 <= x && x + needle_lower@.len() <= haystack@.len() implies !match_at(haystack@, needle_lower@, x) by {
            assert(x < i);
        }
    }
    false
}

} // verus!
