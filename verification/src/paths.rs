//! Windows-style path strings. A path is a `String`; `\` and `/` both
//! separate components, an optional `X:` drive prefix and an optional root
//! separator come first, and empty components (doubled separators) are
//! ignored.
use vstd::prelude::*;
use crate::text::{string_of, push_char};

verus! {

pub open spec fn is_sep(c: char) -> bool {
    c == '\\' || c == '/'
}

/// Length of the drive prefix (`C:`), 0 when there is none.
pub open spec fn head_len(p: Seq<char>) -> int {
    if p.len() >= 2 && p[1] == ':' { 2 } else { 0 }
}

pub open spec fn has_root(p: Seq<char>) -> bool {
    p.len() > head_len(p) && is_sep(p[head_len(p)])
}

/// Index where the named components begin (after prefix and root).
pub open spec fn body_start(p: Seq<char>) -> int {
    head_len(p) + if has_root(p) { 1int } else { 0int }
}

/// Moves `i` back over separators, not below `floor`.
pub open spec fn trim_seps(p: Seq<char>, i: int, floor: int) -> int
    decreases i,
{
    if 0 < i && floor < i && i <= p.len() && is_sep(p[i - 1]) {
        trim_seps(p, i - 1, floor)
    } else {
        i
    }
}

/// Moves `i` back over non-separators, not below `floor`.
pub open spec fn seg_begin(p: Seq<char>, i: int, floor: int) -> int
    decreases i,
{
    if 0 < i && floor < i && i <= p.len() && !is_sep(p[i - 1]) {
        seg_begin(p, i - 1, floor)
    } else {
        i
    }
}

/// The named components of `p[..i]` above `floor`, in order.
pub open spec fn segs(p: Seq<char>, i: int, floor: int) -> Seq<Seq<char>>
    decreases i,
{
    let e = trim_seps(p, i, floor);
    if e <= floor || e <= 0 || e > i {
        Seq::empty()
    } else {
        let s = seg_begin(p, e, floor);
        if 0 <= s < e {
            segs(p, s, floor).push(p.subrange(s, e))
        } else {
            Seq::empty()
        }
    }
}

/// All components: the drive prefix, a root marker `\`, then the names.
pub open spec fn components(p: Seq<char>) -> Seq<Seq<char>> {
    let head: Seq<Seq<char>> = if head_len(p) > 0 { seq![p.take(2)] } else { Seq::empty() };
    let root: Seq<Seq<char>> = if has_root(p) { seq![seq!['\\']] } else { Seq::empty() };
    head + root + segs(p, p.len() as int, body_start(p))
}

/// End of the last named component (trailing separators dropped).
pub open spec fn last_end(p: Seq<char>) -> int {
    trim_seps(p, p.len() as int, body_start(p))
}

pub open spec fn last_begin(p: Seq<char>) -> int {
    seg_begin(p, last_end(p), body_start(p))
}

/// `Path::file_name`: the last named component, if any.
pub open spec fn file_name_spec(p: Seq<char>) -> Option<Seq<char>> {
    if last_end(p) <= body_start(p) {
        None
    } else {
        Some(p.subrange(last_begin(p), last_end(p)))
    }
}

/// `Path::parent`: the path without its last named component.
pub open spec fn parent_spec(p: Seq<char>) -> Option<Seq<char>> {
    if last_end(p) <= body_start(p) {
        None
    } else {
        Some(p.take(trim_seps(p, last_begin(p), body_start(p))))
    }
}

/// The file name, or the whole path when it has none (a drive root).
pub open spec fn name_or_whole(p: Seq<char>) -> Seq<char> {
    match file_name_spec(p) {
        Some(n) => n,
        None => p,
    }
}

/// True when `name` is absolute enough to replace a base it is joined to.
pub open spec fn replaces_base(name: Seq<char>) -> bool {
    head_len(name) > 0 || (name.len() > 0 && is_sep(name[0]))
}

/// `PathBuf::push` of a name onto a base.
pub open spec fn join_spec(base: Seq<char>, name: Seq<char>) -> Seq<char> {
    if replaces_base(name) {
        name
    } else if base.len() == 0 || is_sep(base.last()) || (head_len(base) == 2 && base.len() == 2) {
        base + name
    } else {
        base + seq!['\\'] + name
    }
}

proof fn lemma_trim_bounds(p: Seq<char>, i: int, floor: int)
    ensures
        trim_seps(p, i, floor) <= i,
        0 <= i ==> 0 <= trim_seps(p, i, floor),
        floor <= i ==> floor <= trim_seps(p, i, floor),
    decreases i,
{
    if 0 < i && floor < i && i <= p.len() && is_sep(p[i - 1]) {
        lemma_trim_bounds(p, i - 1, floor);
    }
}

proof fn lemma_begin_bounds(p: Seq<char>, i: int, floor: int)
    ensures
        seg_begin(p, i, floor) <= i,
        0 <= i ==> 0 <= seg_begin(p, i, floor),
        floor <= i ==> floor <= seg_begin(p, i, floor),
    decreases i,
{
    if 0 < i && floor < i && i <= p.len() && !is_sep(p[i - 1]) {
        lemma_begin_bounds(p, i - 1, floor);
    }
}

proof fn lemma_trim_prefix(p: Seq<char>, m: int, i: int, f: int)
    requires
        0 <= i <= m <= p.len(),
    ensures
        trim_seps(p.take(m), i, f) == trim_seps(p, i, f),
    decreases i,
{
    if 0 < i {
        assert(p.take(m)[i - 1] == p[i - 1]);
        if f < i && is_sep(p[i - 1]) {
            lemma_trim_prefix(p, m, i - 1, f);
        }
    }
}

proof fn lemma_begin_prefix(p: Seq<char>, m: int, i: int, f: int)
    requires
        0 <= i <= m <= p.len(),
    ensures
        seg_begin(p.take(m), i, f) == seg_begin(p, i, f),
    decreases i,
{
    if 0 < i {
        assert(p.take(m)[i - 1] == p[i - 1]);
        if f < i && !is_sep(p[i - 1]) {
            lemma_begin_prefix(p, m, i - 1, f);
        }
    }
}

proof fn lemma_segs_prefix(p: Seq<char>, m: int, i: int, f: int)
    requires
        0 <= i <= m <= p.len(),
    ensures
        segs(p.take(m), i, f) == segs(p, i, f),
    decreases i,
{
    lemma_trim_prefix(p, m, i, f);
    lemma_trim_bounds(p, i, f);
    let e = trim_seps(p, i, f);
    if !(e <= f || e <= 0 || e > i) {
        lemma_begin_prefix(p, m, e, f);
        lemma_begin_bounds(p, e, f);
        let s = seg_begin(p, e, f);
        if 0 <= s < e {
            assert(p.take(m).subrange(s, e) =~= p.subrange(s, e));
            lemma_segs_prefix(p, m, s, f);
        }
    }
}

proof fn lemma_trim_stop(p: Seq<char>, i: int, f: int)
    requires
        i <= p.len(),
    ensures
        ({
            let r = trim_seps(p, i, f);
            0 < r && f < r ==> !is_sep(p[r - 1])
        }),
    decreases i,
{
    if 0 < i && f < i && i <= p.len() && is_sep(p[i - 1]) {
        lemma_trim_stop(p, i - 1, f);
    }
}

proof fn lemma_trim_idem(p: Seq<char>, i: int, f: int)
    ensures
        trim_seps(p, trim_seps(p, i, f), f) == trim_seps(p, i, f),
    decreases i,
{
    if 0 < i && f < i && i <= p.len() && is_sep(p[i - 1]) {
        lemma_trim_idem(p, i - 1, f);
    }
}

/// A path's parent has other components than the path itself (one fewer).
pub proof fn lemma_parent_differs(p: Seq<char>)
    ensures
        parent_spec(p) matches Some(q) ==> components(q) != components(p),
{
    if let Some(q) = parent_spec(p) {
        let bs = body_start(p);
        let e = last_end(p);
        lemma_trim_bounds(p, p.len() as int, bs);
        let s = last_begin(p);
        lemma_begin_bounds(p, e, bs);
        lemma_trim_stop(p, p.len() as int, bs);
        assert(!is_sep(p[e - 1]));
        lemma_begin_bounds(p, e - 1, bs);
        assert(s < e);
        let e2 = trim_seps(p, s, bs);
        lemma_trim_bounds(p, s, bs);
        assert(q == p.take(e2));
        lemma_trim_idem(p, s, bs);
        assert(segs(p, p.len() as int, bs) == segs(p, s, bs).push(p.subrange(s, e)));
        assert(segs(p, s, bs) == segs(p, e2, bs));
        assert(head_len(q) == head_len(p)) by {
            if head_len(p) == 2 {
                assert(q[1] == p[1]);
            } else if q.len() >= 2 {
                assert(q[1] == p[1]);
            }
        }
        assert(has_root(q) == has_root(p)) by {
            if q.len() > head_len(p) {
                assert(q[head_len(p)] == p[head_len(p)]);
            }
        }
        assert(body_start(q) == bs);
        lemma_segs_prefix(p, e2, e2, bs);
        assert(segs(q, q.len() as int, bs) == segs(p, e2, bs));
        if head_len(p) > 0 {
            assert(q.take(2) =~= p.take(2));
        }
        assert(components(q).len() + 1 == components(p).len());
    }
}

fn trim_seps_exec(p: &Vec<char>, i: usize, floor: usize) -> (r: usize)
    requires
        i <= p.len(),
    ensures
        r as int == trim_seps(p@, i as int, floor as int),
{
    let mut j: usize = i;
    while 0 < j && floor < j && (p[j - 1] == '\\' || p[j - 1] == '/')
        invariant
            j <= i <= p.len(),
            trim_seps(p@, i as int, floor as int) == trim_seps(p@, j as int, floor as int),
        decreases j,
    {
        j -= 1;
    }
    j
}

fn seg_begin_exec(p: &Vec<char>, i: usize, floor: usize) -> (r: usize)
    requires
        i <= p.len(),
    ensures
        r as int == seg_begin(p@, i as int, floor as int),
{
    let mut j: usize = i;
    while 0 < j && floor < j && !(p[j - 1] == '\\' || p[j - 1] == '/')
        invariant
            j <= i <= p.len(),
            seg_begin(p@, i as int, floor as int) == seg_begin(p@, j as int, floor as int),
        decreases j,
    {
        j -= 1;
    }
    j
}

fn head_len_exec(p: &Vec<char>) -> (r: usize)
    ensures
        r as int == head_len(p@),
{
    if p.len() >= 2 && p[1] == ':' { 2 } else { 0 }
}

fn body_start_exec(p: &Vec<char>) -> (r: usize)
    ensures
        r as int == body_start(p@),
        r <= p.len(),
{
    let h = head_len_exec(p);
    if p.len() > h && (p[h] == '\\' || p[h] == '/') { h + 1 } else { h }
}

/// `Path::file_name` on a character vector.
pub fn file_name_chars(p: &Vec<char>) -> (r: Option<String>)
    ensures
        r matches Some(s) ==> file_name_spec(p@) == Some(s@),
        r is None ==> file_name_spec(p@) is None,
{
    let bs = body_start_exec(p);
    let e = trim_seps_exec(p, p.len(), bs);
    if e <= bs {
        None
    } else {
        proof {
            lemma_trim_bounds(p@, p.len() as int, bs as int);
        }
        let s = seg_begin_exec(p, e, bs);
        proof {
            lemma_begin_bounds(p@, e as int, bs as int);
        }
        Some(string_of(p, s, e))
    }
}

/// `Path::parent` on a character vector.
pub fn parent_chars(p: &Vec<char>) -> (r: Option<String>)
    ensures
        r matches Some(s) ==> parent_spec(p@) == Some(s@),
        r is None ==> parent_spec(p@) is None,
{
    let bs = body_start_exec(p);
    let e = trim_seps_exec(p, p.len(), bs);
    if e <= bs {
        None
    } else {
        proof {
            lemma_trim_bounds(p@, p.len() as int, bs as int);
        }
        let s = seg_begin_exec(p, e, bs);
        proof {
            lemma_begin_bounds(p@, e as int, bs as int);
        }
        let t = trim_seps_exec(p, s, bs);
        proof {
            lemma_trim_bounds(p@, s as int, bs as int);
        }
        let r = string_of(p, 0, t);
        assert(p@.subrange(0, t as int) =~= p@.take(t as int));
        Some(r)
    }
}

/// `Path::file_name`.
pub fn file_name(p: &str) -> (r: Option<String>)
    ensures
        r matches Some(s) ==> file_name_spec(p@) == Some(s@),
        r is None ==> file_name_spec(p@) is None,
{
    let v = crate::text::chars_of(p);
    file_name_chars(&v)
}

/// `Path::parent`.
pub fn parent(p: &str) -> (r: Option<String>)
    ensures
        r matches Some(s) ==> parent_spec(p@) == Some(s@),
        r is None ==> parent_spec(p@) is None,
{
    let v = crate::text::chars_of(p);
    parent_chars(&v)
}

/// The file name, or the whole path when there is none.
pub fn name_or_whole_path(p: &str) -> (r: String)
    ensures
        r@ == name_or_whole(p@),
{
    match file_name(p) {
        Some(n) => n,
        None => p.to_owned(),
    }
}

/// Joins a name onto a base path.
pub fn join(base: &str, name: &str) -> (r: String)
    ensures
        r@ == join_spec(base@, name@),
{
    let b = crate::text::chars_of(base);
    let n = crate::text::chars_of(name);
    let replaces = (n.len() >= 2 && n[1] == ':') || (n.len() > 0 && (n[0] == '\\' || n[0] == '/'));
    if replaces {
        return name.to_owned();
    }
    let mut out = base.to_owned();
    let bare = b.len() == 0 || b[b.len() - 1] == '\\' || b[b.len() - 1] == '/' || (b.len() == 2
        && b[1] == ':');
    if !bare {
        push_char(&mut out, '\\');
    }
    out.append(name);
    out
}


proof fn lemma_trim_stops(p: Seq<char>, i: int, floor: int)
    requires
        0 <= i <= p.len(),
    ensures
        ({
            let r = trim_seps(p, i, floor);
            !(0 < r && floor < r && is_sep(p[r - 1]))
        }),
    decreases i,
{
    if 0 < i && floor < i && i <= p.len() && is_sep(p[i - 1]) {
        lemma_trim_stops(p, i - 1, floor);
    }
}

proof fn lemma_begin_moves(p: Seq<char>, e: int, floor: int)
    requires
        0 < e <= p.len(),
        floor < e,
        !is_sep(p[e - 1]),
    ensures
        seg_begin(p, e, floor) < e,
{
    lemma_begin_bounds(p, e - 1, floor);
}

fn sub_chars(p: &Vec<char>, lo: usize, hi: usize) -> (r: Vec<char>)
    requires
        lo <= hi <= p.len(),
    ensures
        r@ == p@.subrange(lo as int, hi as int),
{
    let mut out: Vec<char> = Vec::new();
    let mut i: usize = lo;
    while i < hi
        invariant
            lo <= i <= hi <= p.len(),
            out@ == p@.subrange(lo as int, i as int),
        decreases hi - i,
    {
        out.push(p[i]);
        i += 1;
        assert(out@ =~= p@.subrange(lo as int, i as int));
    }
    out
}

/// All components of `p`, as character vectors.
pub fn components_chars(p: &Vec<char>) -> (r: Vec<Vec<char>>)
    ensures
        r@.map_values(|v: Vec<char>| v@) =~= components(p@),
{
    let bs = body_start_exec(p);
    let mut out: Vec<Vec<char>> = Vec::new();
    let mut i: usize = p.len();
    proof {
        assert(bs as int <= p@.len());
    }
    loop
        invariant_except_break
            i <= p.len(),
            bs as int == body_start(p@),
            segs(p@, p@.len() as int, bs as int) =~= segs(p@, i as int, bs as int)
                + out@.map_values(|v: Vec<char>| v@),
        ensures
            segs(p@, p@.len() as int, bs as int) =~= out@.map_values(|v: Vec<char>| v@),
        decreases i,
    {
        let e = trim_seps_exec(p, i, bs);
        proof {
            lemma_trim_bounds(p@, i as int, bs as int);
            lemma_trim_stops(p@, i as int, bs as int);
        }
        if e <= bs || e == 0 {
            assert(segs(p@, i as int, bs as int) =~= Seq::<Seq<char>>::empty());
            break;
        }
        proof {
            lemma_begin_moves(p@, e as int, bs as int);
            lemma_begin_bounds(p@, e as int, bs as int);
        }
        let s = seg_begin_exec(p, e, bs);
        let seg = sub_chars(p, s, e);
        let ghost old_out = out@;
        out.insert(0, seg);
        assert(out@.map_values(|v: Vec<char>| v@) =~= seq![p@.subrange(s as int, e as int)]
            + old_out.map_values(|v: Vec<char>| v@));
        i = s;
    }
    let h = head_len_exec(p);
    let mut head: Vec<Vec<char>> = Vec::new();
    let ghost head_s: Seq<Seq<char>> = if head_len(p@) > 0 { seq![p@.take(2)] } else { Seq::empty() };
    if h > 0 {
        let first = sub_chars(p, 0, 2);
        assert(first@ =~= p@.take(2));
        head.push(first);
    }
    assert(head@.map_values(|v: Vec<char>| v@) =~= head_s);
    let ghost root_s: Seq<Seq<char>> = if has_root(p@) { seq![seq!['\\']] } else { Seq::empty() };
    if p.len() > h && (p[h] == '\\' || p[h] == '/') {
        let mut rv: Vec<char> = Vec::new();
        rv.push('\\');
        assert(rv@ =~= seq!['\\']);
        head.push(rv);
    }
    assert(head@.map_values(|v: Vec<char>| v@) =~= head_s + root_s);
    let ghost hv = head@.map_values(|v: Vec<char>| v@);
    let ghost ov = out@.map_values(|v: Vec<char>| v@);
    head.append(&mut out);
    head
}

/// Equality of two character vectors.
pub fn chars_eq(a: &Vec<char>, b: &Vec<char>) -> (r: bool)
    ensures
        r == (a@ == b@),
{
    if a.len() != b.len() {
        return false;
    }
    let mut i: usize = 0;
    while i < a.len()
        invariant
            a.len() == b.len(),
            i <= a.len(),
            a@.take(i as int) == b@.take(i as int),
        decreases a.len() - i,
    {
        if a[i] != b[i] {
            assert(a@[i as int] != b@[i as int]);
            return false;
        }
        assert(a@.take(i + 1) =~= a@.take(i as int).push(a@[i as int]));
        assert(b@.take(i + 1) =~= b@.take(i as int).push(b@[i as int]));
        i += 1;
    }
    assert(a@ =~= a@.take(a@.len() as int));
    assert(b@ =~= b@.take(b@.len() as int));
    true
}

/// `Path::starts_with`: `base`'s components are a prefix of `p`'s.
pub open spec fn starts_with_spec(p: Seq<char>, base: Seq<char>) -> bool {
    components(base).is_prefix_of(components(p))
}

/// Component-wise prefix test on character vectors.
pub fn starts_with_chars(p: &Vec<char>, base: &Vec<char>) -> (r: bool)
    ensures
        r == starts_with_spec(p@, base@),
{
    let cp = components_chars(p);
    let cb = components_chars(base);
    let ghost sp = cp@.map_values(|v: Vec<char>| v@);
    let ghost sb = cb@.map_values(|v: Vec<char>| v@);
    if cb.len() > cp.len() {
        assert(sb.len() > sp.len());
        return false;
    }
    let mut i: usize = 0;
    while i < cb.len()
        invariant
            cb.len() <= cp.len(),
            i <= cb.len(),
            sp == cp@.map_values(|v: Vec<char>| v@),
            sb == cb@.map_values(|v: Vec<char>| v@),
            sp == components(p@),
            sb == components(base@),
            forall|j: int| 0 <= j < i ==> sb[j] == sp[j],
        decreases cb.len() - i,
    {
        if !chars_eq(&cb[i], &cp[i]) {
            assert(sb[i as int] != sp[i as int]);
            assert(sp.subrange(0, sb.len() as int)[i as int] == sp[i as int]);
            return false;
        }
        i += 1;
    }
    assert(sp.subrange(0, sb.len() as int) =~= sb);
    true
}

/// `Path::starts_with`.
pub fn starts_with(p: &str, base: &str) -> (r: bool)
    ensures
        r == starts_with_spec(p@, base@),
{
    let a = crate::text::chars_of(p);
    let b = crate::text::chars_of(base);
    starts_with_chars(&a, &b)
}

/// Index of the last `.` in `n`, or -1.
pub open spec fn last_dot(n: Seq<char>) -> int
    decreases n.len(),
{
    if n.len() == 0 {
        -1
    } else if n.last() == '.' {
        n.len() - 1
    } else {
        last_dot(n.drop_last())
    }
}

/// `(file_stem, extension)` of a file name, as `Path` splits it: at the last
/// dot, except that a name whose only dot leads has no extension.
pub open spec fn stem_ext(n: Seq<char>) -> (Seq<char>, Option<Seq<char>>) {
    let d = last_dot(n);
    if d <= 0 {
        (n, None)
    } else {
        (n.take(d), Some(n.subrange(d + 1, n.len() as int)))
    }
}

proof fn lemma_last_dot(n: Seq<char>)
    ensures
        -1 <= last_dot(n) < n.len(),
        last_dot(n) >= 0 ==> n[last_dot(n)] == '.',
        forall|k: int| last_dot(n) < k < n.len() ==> n[k] != '.',
    decreases n.len(),
{
    if n.len() > 0 && n.last() != '.' {
        lemma_last_dot(n.drop_last());
        assert forall|k: int| last_dot(n) < k < n.len() implies n[k] != '.' by {
            if k < n.len() - 1 {
                assert(n.drop_last()[k] == n[k]);
            }
        }
    }
}

/// Index of the last `.` (or -1 as `None`).
pub fn last_dot_exec(n: &Vec<char>) -> (r: Option<usize>)
    ensures
        r matches Some(d) ==> d as int == last_dot(n@) && d < n.len(),
        r is None ==> last_dot(n@) == -1,
{
    let mut i: usize = n.len();
    while i > 0
        invariant
            i <= n.len(),
            forall|k: int| i <= k < n.len() ==> n@[k] != '.',
        decreases i,
    {
        if n[i - 1] == '.' {
            proof {
                lemma_last_dot(n@);
                if last_dot(n@) != i - 1 {
                    assert(n@[last_dot(n@)] == '.');
                }
            }
            return Some(i - 1);
        }
        i -= 1;
    }
    proof {
        lemma_last_dot(n@);
        if last_dot(n@) >= 0 {
            assert(n@[last_dot(n@)] == '.');
        }
    }
    None
}


/// Two paths with the same components (what `Path` equality compares).
pub fn same_path(a: &str, b: &str) -> (r: bool)
    ensures
        r == (components(a@) == components(b@)),
{
    let av = crate::text::chars_of(a);
    let bv = crate::text::chars_of(b);
    let ca = components_chars(&av);
    let cb = components_chars(&bv);
    let ghost sa = ca@.map_values(|v: Vec<char>| v@);
    let ghost sb = cb@.map_values(|v: Vec<char>| v@);
    if ca.len() != cb.len() {
        assert(sa.len() != sb.len());
        return false;
    }
    let mut i: usize = 0;
    while i < ca.len()
        invariant
            ca.len() == cb.len(),
            i <= ca.len(),
            sa == ca@.map_values(|v: Vec<char>| v@),
            sb == cb@.map_values(|v: Vec<char>| v@),
            sa == components(a@),
            sb == components(b@),
            forall|j: int| 0 <= j < i ==> sa[j] == sb[j],
        decreases ca.len() - i,
    {
        if !chars_eq(&ca[i], &cb[i]) {
            assert(sa[i as int] != sb[i as int]);
            return false;
        }
        i += 1;
    }
    assert(sa =~= sb);
    true
}

/// A path without its extended-length `\\?\` marker, if it has one.
pub open spec fn strip_verbatim_spec(p: Seq<char>) -> Seq<char> {
    if p.len() >= 4 && p.take(4) == seq!['\\', '\\', '?', '\\'] { p.skip(4) } else { p }
}

/// Drops the `\\?\` marker of an extended-length path.
pub fn strip_verbatim(path: &str) -> (r: String)
    ensures
        r@ == strip_verbatim_spec(path@),
{
    let v = crate::text::chars_of(path);
    if v.len() >= 4 && v[0] == '\\' && v[1] == '\\' && v[2] == '?' && v[3] == '\\' {
        assert(v@.take(4) =~= seq!['\\', '\\', '?', '\\']);
        let r = string_of(&v, 4, v.len());
        assert(v@.subrange(4, v@.len() as int) =~= path@.skip(4));
        r
    } else {
        proof {
            if v@.len() >= 4 && v@.take(4) == seq!['\\', '\\', '?', '\\'] {
                assert(v@.take(4)[0] == v@[0]);
                assert(v@.take(4)[1] == v@[1]);
                assert(v@.take(4)[2] == v@[2]);
                assert(v@.take(4)[3] == v@[3]);
            }
        }
        path.to_owned()
    }
}

} // verus!
