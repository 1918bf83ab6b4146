//! Glob matching with `*` (any run) and `?` (any one byte) on bytes.
use vstd::prelude::*;

verus! {

/// `p` matches all of `t`: `*` matches any run of bytes, `?` any one byte,
/// every other byte itself.
pub open spec fn glob(p: Seq<u8>, t: Seq<u8>) -> bool
    decreases p.len() + t.len(),
{
    if p.len() == 0 {
        t.len() == 0
    } else if p[0] == 42u8 {
        glob(p.drop_first(), t) || (t.len() > 0 && glob(p, t.drop_first()))
    } else {
        t.len() > 0 && (p[0] == 63u8 || p[0] == t[0]) && glob(p.drop_first(), t.drop_first())
    }
}

pub open spec fn star_free(s: Seq<u8>) -> bool {
    forall|k: int| 0 <= k < s.len() ==> s[k] != 42u8
}

/// Star-free `l` matches `t` position by position.
pub open spec fn lit_match(l: Seq<u8>, t: Seq<u8>) -> bool {
    &&& l.len() == t.len()
    &&& forall|k: int| 0 <= k < l.len() ==> (l[k] == 63u8 || l[k] == t[k])
}

/// A leading `*` matches when the rest matches some suffix.
proof fn lemma_star(p: Seq<u8>, t: Seq<u8>)
    requires
        p.len() > 0,
        p[0] == 42u8,
    ensures
        glob(p, t) == exists|k: int| 0 <= k <= t.len() && #[trigger] glob(p.drop_first(), t.skip(k)),
    decreases t.len(),
{
    assert(t.skip(0) =~= t);
    if glob(p, t) {
        if !glob(p.drop_first(), t) {
            lemma_star(p, t.drop_first());
            let k = choose|k: int| 0 <= k <= t.drop_first().len() && #[trigger] glob(p.drop_first(), t.drop_first().skip(k));
            assert(t.drop_first().skip(k) =~= t.skip(k + 1));
            assert(glob(p.drop_first(), t.skip(k + 1)));
        }
    }
    if exists|k: int| 0 <= k <= t.len() && #[trigger] glob(p.drop_first(), t.skip(k)) {
        let k = choose|k: int| 0 <= k <= t.len() && #[trigger] glob(p.drop_first(), t.skip(k));
        if k > 0 {
            lemma_star(p, t.drop_first());
            assert(t.drop_first().skip(k - 1) =~= t.skip(k));
            assert(glob(p.drop_first(), t.drop_first().skip(k - 1)));
        }
    }
}

/// A star-free prefix consumes exactly its own length.
proof fn lemma_literal(l: Seq<u8>, x: Seq<u8>, t: Seq<u8>)
    requires
        star_free(l),
    ensures
        glob(l + x, t) == (t.len() >= l.len() && lit_match(l, t.take(l.len() as int))
            && glob(x, t.skip(l.len() as int))),
    decreases l.len(),
{
    if l.len() == 0 {
        assert(l + x =~= x);
        assert(t.skip(0) =~= t);
        assert(t.take(0) =~= Seq::<u8>::empty());
    } else {
        let q = l + x;
        assert(q[0] == l[0]);
        assert(q.drop_first() =~= l.drop_first() + x);
        assert(star_free(l.drop_first()));
        if t.len() > 0 {
            lemma_literal(l.drop_first(), x, t.drop_first());
            let lt = t.take(l.len() as int);
            if t.len() >= l.len() {
                assert(t.drop_first().skip(l.len() - 1) =~= t.skip(l.len() as int));
                assert(t.drop_first().take(l.len() - 1) =~= lt.drop_first());
                if lit_match(l, lt) {
                    assert forall|k: int| 0 <= k < l.len() - 1 implies (l.drop_first()[k] == 63u8
                        || l.drop_first()[k] == lt.drop_first()[k]) by {
                        assert(l.drop_first()[k] == l[k + 1]);
                    }
                }
                if lit_match(l.drop_first(), lt.drop_first()) && (l[0] == 63u8 || l[0] == t[0]) {
                    assert forall|k: int| 0 <= k < l.len() implies (l[k] == 63u8 || l[k] == lt[k]) by {
                        if k > 0 {
                            assert(l.drop_first()[k - 1] == l[k]);
                        }
                    }
                }
            }
        }
    }
}

/// Against the empty text, a pattern matches when it is all stars.
proof fn lemma_empty_text(p: Seq<u8>)
    ensures
        glob(p, Seq::empty()) == (forall|k: int| 0 <= k < p.len() ==> p[k] == 42u8),
    decreases p.len(),
{
    if p.len() > 0 {
        lemma_empty_text(p.drop_first());
        if p[0] == 42u8 && (forall|k: int| 0 <= k < p.drop_first().len() ==> p.drop_first()[k] == 42u8) {
            assert forall|k: int| 0 <= k < p.len() implies p[k] == 42u8 by {
                if k > 0 {
                    assert(p.drop_first()[k - 1] == p[k]);
                }
            }
        }
        if forall|k: int| 0 <= k < p.len() ==> p[k] == 42u8 {
            assert forall|k: int| 0 <= k < p.drop_first().len() implies p.drop_first()[k] == 42u8 by {
                assert(p[k + 1] == 42u8);
            }
        }
    }
}

/// A starred pattern matching at `m` also matches at any earlier `t`.
proof fn lemma_star_absorbs(p: Seq<u8>, text: Seq<u8>, t: int, m: int)
    requires
        p.len() > 0,
        p[0] == 42u8,
        0 <= t <= m <= text.len(),
        glob(p, text.skip(m)),
    ensures
        glob(p, text.skip(t)),
{
    lemma_star(p, text.skip(m));
    let k = choose|k: int| 0 <= k <= text.skip(m).len() && #[trigger] glob(p.drop_first(), text.skip(m).skip(k));
    assert(text.skip(m).skip(k) =~= text.skip(t).skip(k + m - t));
    assert(glob(p.drop_first(), text.skip(t).skip(k + m - t)));
    lemma_star(p, text.skip(t));
}

/// The matcher's run from pattern position `p` and text position `t`, with
/// the last `*` seen (at `sp`, its text position `st`) when `has_star`:
/// a `?` or an equal byte steps both; a `*` is remembered and skipped; a
/// mismatch after a `*` lets that `*` take one more byte; otherwise the
/// match fails. At the end of the text only `*`s may remain.
pub open spec fn wild_from(pat: Seq<u8>, text: Seq<u8>, p: int, t: int, has_star: bool, sp: int, st: int) -> bool
    decreases (if has_star { text.len() - st } else { text.len() + 1int }), pat.len() - p + text.len() - t,
{
    if !(0 <= p <= pat.len() && 0 <= t <= text.len() && (has_star ==> 0 <= sp < p && 0 <= st <= t)) {
        false
    } else if t >= text.len() {
        forall|k: int| p <= k < pat.len() ==> pat[k] == 42u8
    } else if p < pat.len() && (pat[p] == 63u8 || pat[p] == text[t]) {
        wild_from(pat, text, p + 1, t + 1, has_star, sp, st)
    } else if p < pat.len() && pat[p] == 42u8 {
        wild_from(pat, text, p + 1, t, true, p, t)
    } else if has_star {
        wild_from(pat, text, sp + 1, st + 1, true, sp, st + 1)
    } else {
        false
    }
}

/// What the matcher answers for all of `text` (equal to `glob` when the
/// text holds no `*`; a `*` in the text is first tried as a literal).
pub open spec fn wild(pat: Seq<u8>, text: Seq<u8>) -> bool {
    wild_from(pat, text, 0, 0, false, 0, 0)
}

/// Iterative glob match with backtracking to the last `*`. When `text` has
/// no `*` byte the result is exactly `glob(pat, text)`. A `*` in the text is
/// first tried as a literal against a `*` in the pattern.
pub fn wildcard_match(pat: &[u8], text: &[u8]) -> (r: bool)
    ensures
        r == wild(pat@, text@),
        star_free(text@) ==> r == glob(pat@, text@),
{
    let ghost pp = pat@;
    let ghost tt = text@;
    let ghost res = glob(pp, tt);
    let mut p: usize = 0;
    let mut t: usize = 0;
    let mut has_star = false;
    let mut star_p: usize = 0;
    let mut star_t: usize = 0;
    assert(pp.skip(0) =~= pp);
    assert(tt.skip(0) =~= tt);
    while t < text.len()
        invariant
            p <= pat.len(),
            t <= text.len(),
            pp == pat@,
            tt == text@,
            res == glob(pp, tt),
            wild(pp, tt) == wild_from(pp, tt, p as int, t as int, has_star, star_p as int, star_t as int),
            !has_star ==> (star_free(tt) ==> res == glob(pp.skip(p as int), tt.skip(t as int))),
            has_star ==> star_p < p && star_t <= t && t - star_t == p - star_p - 1,
            has_star && star_free(tt) ==> {
                &&& pp[star_p as int] == 42u8
                &&& star_free(pp.subrange(star_p + 1, p as int))
                &&& lit_match(pp.subrange(star_p + 1, p as int), tt.subrange(star_t as int, t as int))
                &&& res == (glob(pp.skip(p as int), tt.skip(t as int)) || exists|k: int|
                    star_t < k <= tt.len() && #[trigger] glob(pp.skip(star_p + 1), tt.skip(k)))
            },
        decreases
            (if has_star { text.len() - star_t } else { text.len() + 1 }),
            (pat.len() - p) + (text.len() - t),
    {
        if p < pat.len() && (pat[p] == 63u8 || pat[p] == text[t]) {
            proof {
                if star_free(tt) {
                    assert(tt[t as int] != 42u8);
                    assert(pp.skip(p as int)[0] == pp[p as int]);
                    assert(pp.skip(p as int).drop_first() =~= pp.skip(p + 1));
                    assert(tt.skip(t as int).drop_first() =~= tt.skip(t + 1));
                }
                if has_star && star_free(tt) {
                    let l0 = pp.subrange(star_p + 1, p as int);
                    let l1 = pp.subrange(star_p + 1, p + 1);
                    assert(l1 =~= l0.push(pp[p as int]));
                    assert(star_free(l1));
                    assert(tt.subrange(star_t as int, t + 1) =~= tt.subrange(star_t as int, t as int).push(tt[t as int]));
                    assert(lit_match(l1, tt.subrange(star_t as int, t + 1))) by {
                        assert forall|k: int| 0 <= k < l1.len() implies (l1[k] == 63u8
                            || l1[k] == tt.subrange(star_t as int, t + 1)[k]) by {
                            if k < l0.len() {
                                assert(l1[k] == l0[k]);
                            }
                        }
                    }
                }
            }
            p += 1;
            t += 1;
        } else if p < pat.len() && pat[p] == 42u8 {
            proof {
                if star_free(tt) {
                    let x = pp.skip(p as int);
                    assert(x[0] == 42u8);
                    assert(x.drop_first() =~= pp.skip(p + 1));
                    lemma_star(x, tt.skip(t as int));
                    assert forall|k: int| 0 <= k <= tt.skip(t as int).len() implies
                        #[trigger] glob(x.drop_first(), tt.skip(t as int).skip(k)) == glob(pp.skip(p + 1), tt.skip(t + k)) by {
                        assert(tt.skip(t as int).skip(k) =~= tt.skip(t + k));
                    }
                    if glob(pp.skip(p + 1), tt.skip(t as int)) {
                        assert(glob(x.drop_first(), tt.skip(t as int).skip(0)));
                    }
                    if exists|k: int| t < k <= tt.len() && #[trigger] glob(pp.skip(p + 1), tt.skip(k)) {
                        let k = choose|k: int| t < k <= tt.len() && #[trigger] glob(pp.skip(p + 1), tt.skip(k));
                        assert(glob(x.drop_first(), tt.skip(t as int).skip(k - t)));
                    }
                    if glob(x, tt.skip(t as int)) {
                        let k = choose|k: int| 0 <= k <= tt.skip(t as int).len() && #[trigger] glob(x.drop_first(), tt.skip(t as int).skip(k));
                        if k > 0 {
                            assert(glob(pp.skip(p + 1), tt.skip(t + k)));
                        }
                    }
                    if has_star {
                        let l = pp.subrange(star_p + 1, p as int);
                        let q = pp.skip(star_p + 1);
                        assert(q =~= l + x);
                        assert forall|k: int| star_t < k <= tt.len() && #[trigger] glob(pp.skip(star_p + 1), tt.skip(k))
                            implies glob(x, tt.skip(t as int)) by {
                            lemma_literal(l, x, tt.skip(k));
                            assert(tt.skip(k).skip(l.len() as int) =~= tt.skip(k + l.len()));
                            lemma_star_absorbs(x, tt, t as int, k + l.len());
                        }
                    }
                }
                assert(pp.subrange(p + 1, p + 1) =~= Seq::<u8>::empty());
                assert(tt.subrange(t as int, t as int) =~= Seq::<u8>::empty());
            }
            has_star = true;
            star_p = p;
            star_t = t;
            p += 1;
        } else if has_star {
            proof {
                if star_free(tt) {
                    let x = pp.skip(p as int);
                    if p < pat.len() {
                        assert(x[0] == pp[p as int]);
                    }
                    assert(tt.skip(t as int)[0] == tt[t as int]);
                    assert(!glob(x, tt.skip(t as int)));
                    assert forall|k: int| star_t + 1 < k <= tt.len() && #[trigger] glob(pp.skip(star_p + 1), tt.skip(k))
                        implies star_t < k <= tt.len() by {}
                    if glob(pp.skip(star_p + 1), tt.skip(star_t + 1)) {
                        assert(star_t < star_t + 1 <= tt.len());
                    }
                }
                assert(pp.subrange(star_p + 1, star_p + 1) =~= Seq::<u8>::empty());
                assert(tt.subrange(star_t + 1, star_t + 1) =~= Seq::<u8>::empty());
            }
            p = star_p + 1;
            star_t = star_t + 1;
            t = star_t;
        } else {
            proof {
                if star_free(tt) {
                    let x = pp.skip(p as int);
                    if p < pat.len() {
                        assert(x[0] == pp[p as int]);
                    }
                    assert(tt.skip(t as int)[0] == tt[t as int]);
                }
            }
            return false;
        }
    }
    let ghost p_end = p;
    assert(wild(pp, tt) == (forall|k: int| p_end <= k < pp.len() ==> pp[k] == 42u8));
    while p < pat.len() && pat[p] == 42u8
        invariant
            p_end <= p <= pat.len(),
            pp == pat@,
            wild(pp, tt) == (forall|k: int| p_end <= k < pp.len() ==> pp[k] == 42u8),
            forall|k: int| p_end <= k < p ==> pp[k] == 42u8,
        decreases pat.len() - p,
    {
        p += 1;
    }
    proof {
        if star_free(tt) {
            let x = pp.skip(p_end as int);
            assert(tt.skip(t as int) =~= Seq::<u8>::empty());
            lemma_empty_text(x);
            if p == pat.len() {
                assert forall|k: int| 0 <= k < x.len() implies x[k] == 42u8 by {
                    assert(x[k] == pp[p_end + k]);
                }
            } else {
                assert(x[p - p_end] == pp[p as int]);
            }
            if has_star {
                let l = pp.subrange(star_p + 1, p_end as int);
                assert(pp.skip(star_p + 1) =~= l + x);
                assert forall|k: int| star_t < k <= tt.len() implies !#[trigger] glob(pp.skip(star_p + 1), tt.skip(k)) by {
                    lemma_literal(l, x, tt.skip(k));
                }
            }
        }
    }
    p == pat.len()
}

} // verus!
