//! The address bar's breadcrumb: a path cut into the pieces a user can
//! click, each with the path it leads to.
use vstd::prelude::*;
use crate::paths::{components, components_chars, join};
use crate::vfs::assemble;
use crate::shell::{is_recycle_path, recycle_path, recycle_root, trail_seps};
use crate::keymap::ascii_ci_eq;
use crate::text::{chars_of, owned, push_char, string_from_chars};

verus! {

pub open spec fn is_recycle_spec(p: Seq<char>) -> bool {
    let t = p.take(p.len() - trail_seps(p));
    ascii_ci_eq(t, "recycle:"@) || ascii_ci_eq(t, "recycle"@)
}

/// The breadcrumb of a path: for the Recycle Bin one piece; else one piece
/// per component, labelled with the component and leading to the path up
/// to it; a path without components is one piece, itself.
pub open spec fn crumbs_spec(p: Seq<char>) -> Seq<(Seq<char>, Seq<char>)> {
    let cs = components(p);
    if is_recycle_spec(p) {
        seq![("Recycle Bin"@, recycle_path())]
    } else if cs.len() == 0 {
        seq![(p, p)]
    } else {
        Seq::new(cs.len(), |i: int| (cs[i], assemble(cs.take(i + 1))))
    }
}

pub open spec fn pair_view(x: (String, String)) -> (Seq<char>, Seq<char>) {
    (x.0@, x.1@)
}

/// The breadcrumb of `path` (see `crumbs_spec`).
pub fn breadcrumb_parts(path: &str) -> (r: Vec<(String, String)>)
    ensures
        r@.map_values(|x: (String, String)| pair_view(x)) == crumbs_spec(path@),
{
    if is_recycle_path(path) {
        let r = vec![(owned("Recycle Bin"), recycle_root())];
        assert(r@.map_values(|x: (String, String)| pair_view(x)) =~= crumbs_spec(path@));
        return r;
    }
    let v = chars_of(path);
    let comps = components_chars(&v);
    let ghost cs = components(path@);
    let mut parts: Vec<(String, String)> = Vec::new();
    let mut acc = String::new();
    let mut i: usize = 0;
    assert(cs.take(0) =~= Seq::<Seq<char>>::empty());
    while i < comps.len()
        invariant
            i <= comps.len(),
            cs == components(path@),
            comps@.map_values(|c: Vec<char>| c@) == cs,
            acc@ == assemble(cs.take(i as int)),
            parts@.len() == i,
            forall|k: int| 0 <= k < i ==> pair_view(#[trigger] parts@[k]) == (cs[k], assemble(cs.take(k + 1))),
        decreases comps.len() - i,
    {
        assert(cs.take(i + 1).drop_last() =~= cs.take(i as int));
        assert(cs.take(i + 1).last() == comps@[i as int]@);
        let c = &comps[i];
        let label = string_from_chars(c);
        if c.len() == 1 && c[0] == '\\' {
            assert(c@ =~= seq!['\\']);
            let ghost before = acc@;
            push_char(&mut acc, '\\');
            assert(acc@ =~= before + c@);
        } else {
            assert(c@ != seq!['\\']);
            acc = join(acc.as_str(), label.as_str());
        }
        parts.push((label, acc.clone()));
        i += 1;
    }
    assert(cs.take(comps.len() as int) =~= cs);
    if parts.len() == 0 {
        parts.push((owned(path), owned(path)));
    }
    assert(parts@.map_values(|x: (String, String)| pair_view(x)) =~= crumbs_spec(path@));
    parts
}

/// Most network share roots the session remembers.
pub const MAX_UNC_ROOTS: usize = 24;

pub open spec fn is_unc_spec(p: Seq<char>) -> bool {
    p.len() >= 2 && p[0] == '\\' && p[1] == '\\'
}

/// The share root (`\\server\share`) of a network path; the path itself
/// when it names no share.
pub open spec fn unc_root_spec(p: Seq<char>) -> Seq<char> {
    let cs = components(p);
    if cs.len() >= 3 { seq!['\\', '\\'] + cs[1] + seq!['\\'] + cs[2] } else { p }
}

pub open spec fn knows_place(roots: Seq<String>, r: Seq<char>) -> bool {
    exists|k: int| 0 <= k < roots.len() && components((#[trigger] roots[k])@) == components(r)
}

/// What remembering a visited path does to the list of share roots: a
/// network path's share root is added at the end unless a root naming the
/// same place is known, and the oldest is dropped past `MAX_UNC_ROOTS`.
pub open spec fn remember_spec(roots: Seq<String>, p: Seq<char>) -> Seq<Seq<char>> {
    let rs = roots.map_values(|s: String| s@);
    if !is_unc_spec(p) || knows_place(roots, unc_root_spec(p)) {
        rs
    } else if rs.len() + 1 > MAX_UNC_ROOTS {
        rs.push(unc_root_spec(p)).drop_first()
    } else {
        rs.push(unc_root_spec(p))
    }
}

/// Remembers the share root of a visited network path (see `remember_spec`).
pub fn remember_unc(roots: &mut Vec<String>, path: &str)
    ensures
        final(roots)@.map_values(|s: String| s@) == remember_spec(old(roots)@, path@),
{
    let v = chars_of(path);
    if !(v.len() >= 2 && v[0] == '\\' && v[1] == '\\') {
        assert(old(roots)@.map_values(|s: String| s@) =~= remember_spec(old(roots)@, path@));
        return;
    }
    let comps = components_chars(&v);
    let ghost cs = components(path@);
    let root = if comps.len() >= 3 {
        let mut r = owned("\\\\");
        proof {
            reveal_strlit("\\\\");
        }
        assert(r@ =~= seq!['\\', '\\']);
        r.append(string_from_chars(&comps[1]).as_str());
        push_char(&mut r, '\\');
        r.append(string_from_chars(&comps[2]).as_str());
        assert(r@ =~= unc_root_spec(path@));
        r
    } else {
        owned(path)
    };
    let mut k: usize = 0;
    while k < roots.len()
        invariant
            k <= roots.len(),
            roots@ == old(roots)@,
            root@ == unc_root_spec(path@),
            forall|j: int| 0 <= j < k ==> components((#[trigger] roots@[j])@) != components(root@),
        decreases roots.len() - k,
    {
        if crate::paths::same_path(roots[k].as_str(), root.as_str()) {
            assert(knows_place(old(roots)@, unc_root_spec(path@)));
            assert(old(roots)@.map_values(|s: String| s@) =~= remember_spec(old(roots)@, path@));
            return;
        }
        k += 1;
    }
    let ghost before = roots@.map_values(|s: String| s@);
    roots.push(root);
    assert(roots@.map_values(|s: String| s@) =~= before.push(unc_root_spec(path@)));
    if roots.len() > MAX_UNC_ROOTS {
        let ghost pushed = roots@.map_values(|s: String| s@);
        let _ = roots.remove(0);
        assert(roots@.map_values(|s: String| s@) =~= pushed.drop_first());
    }
}

} // verus!
