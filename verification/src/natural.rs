//! Natural ("file2" before "file10"), ASCII-case-insensitive name order.
//!
//! The order walks both names together. Runs of ASCII digits compare as
//! numbers (more significant digits wins, then digit by digit, then the run
//! with more leading zeros is greater); any other characters compare with
//! ASCII letters folded to lower case. When the walk finds no difference
//! the names are ordered by plain code-point comparison. Comparing
//! characters by code point gives the same result as comparing their UTF-8
//! bytes, so this is the byte-wise order of the names as well.
use vstd::prelude::*;
use crate::order::{three_way, lex, lex_range, lemma_lex_antisym, lemma_lex_zero, lemma_lex_trans};
use crate::text::{lower, lower_all};

verus! {

pub open spec fn is_digit(c: char) -> bool {
    '0' <= c && c <= '9'
}

/// Length of the leading run of ASCII digits.
pub open spec fn digit_run(s: Seq<char>) -> int
    decreases s.len(),
{
    if s.len() > 0 && is_digit(s[0]) {
        1 + digit_run(s.drop_first())
    } else {
        0
    }
}

/// Length of the leading run of `'0'`s.
pub open spec fn zero_run(s: Seq<char>) -> int
    decreases s.len(),
{
    if s.len() > 0 && s[0] == '0' {
        1 + zero_run(s.drop_first())
    } else {
        0
    }
}

/// A digit run without its leading zeros (a lone `0` when it is all zeros).
pub open spec fn significant(s: Seq<char>) -> Seq<char> {
    let n = zero_run(s);
    if n >= s.len() {
        s.subrange(s.len() - 1, s.len() as int)
    } else {
        s.skip(n)
    }
}

/// Order of two digit runs: by number of significant digits, then by the
/// digits themselves, then by total length (more leading zeros is greater).
pub open spec fn run_order(na: Seq<char>, nb: Seq<char>) -> int {
    let sa = significant(na);
    let sb = significant(nb);
    if sa.len() != sb.len() {
        three_way(sa.len() as int, sb.len() as int)
    } else if lex(sa, sb) != 0 {
        lex(sa, sb)
    } else {
        three_way(na.len() as int, nb.len() as int)
    }
}

pub proof fn lemma_digit_run_bounds(s: Seq<char>)
    ensures
        0 <= digit_run(s) <= s.len(),
        s.len() > 0 && is_digit(s[0]) ==> digit_run(s) >= 1,
        forall|k: int| 0 <= k < digit_run(s) ==> is_digit(#[trigger] s[k]),
        digit_run(s) < s.len() ==> !is_digit(s[digit_run(s)]),
    decreases s.len(),
{
    if s.len() > 0 && is_digit(s[0]) {
        lemma_digit_run_bounds(s.drop_first());
        assert forall|k: int| 0 <= k < digit_run(s) implies is_digit(#[trigger] s[k]) by {
            if k > 0 {
                assert(s.drop_first()[k - 1] == s[k]);
            }
        }
    }
}

/// The walk over the remaining parts `x`, `y` of the names `a0`, `b0`.
pub open spec fn walk(x: Seq<char>, y: Seq<char>, a0: Seq<char>, b0: Seq<char>) -> int
    decreases x.len() + y.len(),
{
    if x.len() == 0 && y.len() == 0 {
        lex(a0, b0)
    } else if x.len() == 0 {
        -1
    } else if y.len() == 0 {
        1
    } else if is_digit(x[0]) && is_digit(y[0]) {
        let dx = digit_run(x);
        let dy = digit_run(y);
        let o = run_order(x.take(dx), y.take(dy));
        if o != 0 {
            o
        } else {
            proof {
                lemma_digit_run_bounds(x);
                lemma_digit_run_bounds(y);
            }
            walk(x.skip(dx), y.skip(dy), a0, b0)
        }
    } else if lower(x[0]) != lower(y[0]) {
        three_way(lower(x[0]) as int, lower(y[0]) as int)
    } else {
        walk(x.drop_first(), y.drop_first(), a0, b0)
    }
}

/// The natural order of two names: -1, 0 or 1.
pub open spec fn natural(a: Seq<char>, b: Seq<char>) -> int {
    walk(a, b, a, b)
}

proof fn lemma_run_order_antisym(na: Seq<char>, nb: Seq<char>)
    ensures
        run_order(na, nb) == -run_order(nb, na),
        run_order(na, na) == 0,
{
    lemma_lex_antisym(significant(na), significant(nb));
    lemma_lex_zero(significant(na), significant(na));
}

proof fn lemma_walk_antisym(x: Seq<char>, y: Seq<char>, a0: Seq<char>, b0: Seq<char>)
    ensures
        walk(x, y, a0, b0) == -walk(y, x, b0, a0),
    decreases x.len() + y.len(),
{
    if x.len() == 0 && y.len() == 0 {
        lemma_lex_antisym(a0, b0);
    } else if x.len() == 0 || y.len() == 0 {
    } else if is_digit(x[0]) && is_digit(y[0]) {
        lemma_run_order_antisym(x.take(digit_run(x)), y.take(digit_run(y)));
        lemma_digit_run_bounds(x);
        lemma_digit_run_bounds(y);
        lemma_walk_antisym(x.skip(digit_run(x)), y.skip(digit_run(y)), a0, b0);
    } else if lower(x[0]) != lower(y[0]) {
    } else {
        lemma_walk_antisym(x.drop_first(), y.drop_first(), a0, b0);
    }
}

proof fn lemma_walk_zero(x: Seq<char>, y: Seq<char>, a0: Seq<char>, b0: Seq<char>)
    ensures
        walk(x, y, a0, b0) == 0 ==> lex(a0, b0) == 0,
    decreases x.len() + y.len(),
{
    lemma_digit_run_bounds(x);
    lemma_digit_run_bounds(y);
    if x.len() == 0 || y.len() == 0 {
    } else if is_digit(x[0]) && is_digit(y[0]) {
        lemma_walk_zero(x.skip(digit_run(x)), y.skip(digit_run(y)), a0, b0);
    } else if lower(x[0]) != lower(y[0]) {
    } else {
        lemma_walk_zero(x.drop_first(), y.drop_first(), a0, b0);
    }
}

proof fn lemma_walk_self(x: Seq<char>, a0: Seq<char>, b0: Seq<char>)
    ensures
        walk(x, x, a0, b0) == lex(a0, b0),
    decreases x.len(),
{
    lemma_digit_run_bounds(x);
    if x.len() == 0 {
    } else if is_digit(x[0]) {
        lemma_run_order_antisym(x.take(digit_run(x)), x.take(digit_run(x)));
        lemma_walk_self(x.skip(digit_run(x)), a0, b0);
    } else {
        lemma_walk_self(x.drop_first(), a0, b0);
    }
}

proof fn lemma_walk_range(x: Seq<char>, y: Seq<char>, a0: Seq<char>, b0: Seq<char>)
    ensures
        -1 <= walk(x, y, a0, b0) <= 1,
    decreases x.len() + y.len(),
{
    lemma_digit_run_bounds(x);
    lemma_digit_run_bounds(y);
    if x.len() == 0 && y.len() == 0 {
        lemma_lex_zero(a0, b0);
    } else if x.len() == 0 || y.len() == 0 {
    } else if is_digit(x[0]) && is_digit(y[0]) {
        lemma_lex_zero(significant(x.take(digit_run(x))), significant(y.take(digit_run(y))));
        lemma_walk_range(x.skip(digit_run(x)), y.skip(digit_run(y)), a0, b0);
    } else if lower(x[0]) != lower(y[0]) {
    } else {
        lemma_walk_range(x.drop_first(), y.drop_first(), a0, b0);
    }
}

/// Swapping the names flips the natural order.
pub proof fn lemma_natural_antisymmetric(a: Seq<char>, b: Seq<char>)
    ensures
        natural(a, b) == -natural(b, a),
{
    lemma_walk_antisym(a, b, a, b);
}

/// Two names are equal in the natural order exactly when they are identical,
/// and the order only takes the values -1, 0 and 1.
pub proof fn lemma_natural_equal_iff_identical(a: Seq<char>, b: Seq<char>)
    ensures
        (natural(a, b) == 0) == (a == b),
        -1 <= natural(a, b) <= 1,
{
    lemma_walk_zero(a, b, a, b);
    lemma_walk_self(a, a, a);
    lemma_lex_zero(a, b);
    lemma_lex_zero(a, a);
    lemma_walk_range(a, b, a, b);
}

proof fn lemma_run_order_trans(p: Seq<char>, q: Seq<char>, r: Seq<char>)
    requires
        run_order(p, q) <= 0,
        run_order(q, r) <= 0,
    ensures
        run_order(p, r) <= 0,
        (run_order(p, q) < 0 || run_order(q, r) < 0) ==> run_order(p, r) < 0,
{
    let (sp, sq, sr) = (significant(p), significant(q), significant(r));
    lemma_lex_zero(sp, sq);
    lemma_lex_zero(sq, sr);
    lemma_lex_zero(sp, sr);
    if sp.len() == sq.len() && sq.len() == sr.len() && lex(sp, sq) <= 0 && lex(sq, sr) <= 0 {
        lemma_lex_trans(sp, sq, sr);
    }
}

/// A name's first character compared in the walk: a digit is its own lower
/// case, and folding to lower case keeps a non-digit a non-digit.
proof fn lemma_lower_digit(c: char)
    ensures
        is_digit(c) ==> lower(c) == c,
        !is_digit(c) ==> !is_digit(lower(c)),
{
}

proof fn lemma_walk_trans(x: Seq<char>, y: Seq<char>, z: Seq<char>, a0: Seq<char>, b0: Seq<char>, c0: Seq<char>)
    requires
        walk(x, y, a0, b0) <= 0,
        walk(y, z, b0, c0) <= 0,
    ensures
        walk(x, z, a0, c0) <= 0,
    decreases x.len() + y.len() + z.len(),
{
    lemma_digit_run_bounds(x);
    lemma_digit_run_bounds(y);
    lemma_digit_run_bounds(z);
    if x.len() == 0 && y.len() == 0 && z.len() == 0 {
        lemma_lex_trans(a0, b0, c0);
    } else if x.len() == 0 || y.len() == 0 || z.len() == 0 {
    } else {
        lemma_lower_digit(x[0]);
        lemma_lower_digit(y[0]);
        lemma_lower_digit(z[0]);
        let (xr, yr, zr) = (x.take(digit_run(x)), y.take(digit_run(y)), z.take(digit_run(z)));
        if is_digit(x[0]) && is_digit(y[0]) && is_digit(z[0]) {
            if run_order(xr, yr) <= 0 && run_order(yr, zr) <= 0 {
                lemma_run_order_trans(xr, yr, zr);
                if run_order(xr, yr) == 0 && run_order(yr, zr) == 0 {
                    lemma_walk_trans(x.skip(digit_run(x)), y.skip(digit_run(y)), z.skip(digit_run(z)), a0, b0, c0);
                }
            }
        } else if !is_digit(x[0]) && !is_digit(y[0]) && !is_digit(z[0]) {
            if lower(x[0]) == lower(y[0]) && lower(y[0]) == lower(z[0]) {
                lemma_walk_trans(x.drop_first(), y.drop_first(), z.drop_first(), a0, b0, c0);
            }
        }
    }
}

/// The natural order is transitive.
pub proof fn lemma_natural_transitive(a: Seq<char>, b: Seq<char>, c: Seq<char>)
    requires
        natural(a, b) <= 0,
        natural(b, c) <= 0,
    ensures
        natural(a, c) <= 0,
{
    lemma_walk_trans(a, b, c, a, b, c);
}

/// End of the digit run that starts at `i`.
fn digit_end(a: &Vec<char>, i: usize) -> (r: usize)
    requires
        i <= a.len(),
    ensures
        i <= r <= a.len(),
        r - i == digit_run(a@.skip(i as int)),
{
    let mut k: usize = i;
    while k < a.len() && '0' <= a[k] && a[k] <= '9'
        invariant
            i <= k <= a.len(),
            digit_run(a@.skip(i as int)) == (k - i) + digit_run(a@.skip(k as int)),
        decreases a.len() - k,
    {
        assert(a@.skip(k as int).drop_first() =~= a@.skip(k + 1));
        k += 1;
    }
    k
}

/// End of the run of `'0'`s in `a[i..e]` that starts at `i`.
fn zero_end(a: &Vec<char>, i: usize, e: usize) -> (r: usize)
    requires
        i <= e <= a.len(),
    ensures
        i <= r <= e,
        r - i == zero_run(a@.subrange(i as int, e as int)),
{
    let mut k: usize = i;
    while k < e && a[k] == '0'
        invariant
            i <= k <= e <= a.len(),
            zero_run(a@.subrange(i as int, e as int)) == (k - i) + zero_run(a@.subrange(k as int, e as int)),
        decreases e - k,
    {
        assert(a@.subrange(k as int, e as int).drop_first() =~= a@.subrange(k + 1, e as int));
        k += 1;
    }
    k
}

/// Start of the significant digits of the run `a[i..e]` (non-empty).
fn significant_start(a: &Vec<char>, i: usize, e: usize) -> (r: usize)
    requires
        i < e <= a.len(),
    ensures
        i <= r < e,
        significant(a@.subrange(i as int, e as int)) == a@.subrange(r as int, e as int),
{
    let z = zero_end(a, i, e);
    let ghost s = a@.subrange(i as int, e as int);
    if z >= e {
        assert(s.subrange(s.len() - 1, s.len() as int) =~= a@.subrange(e - 1, e as int));
        e - 1
    } else {
        assert(s.skip(z - i) =~= a@.subrange(z as int, e as int));
        z
    }
}

/// The natural order of two names given as characters.
pub fn natural_order(a: &Vec<char>, b: &Vec<char>) -> (r: i8)
    ensures
        r as int == natural(a@, b@),
{
    let mut i: usize = 0;
    let mut j: usize = 0;
    assert(a@.skip(0) =~= a@);
    assert(b@.skip(0) =~= b@);
    loop
        invariant
            i <= a.len(),
            j <= b.len(),
            natural(a@, b@) == walk(a@.skip(i as int), b@.skip(j as int), a@, b@),
        decreases (a.len() - i) + (b.len() - j),
    {
        let ghost x = a@.skip(i as int);
        let ghost y = b@.skip(j as int);
        if i == a.len() && j == b.len() {
            let r = lex_range(a, 0, a.len(), b, 0, b.len());
            assert(a@.subrange(0, a.len() as int) =~= a@);
            assert(b@.subrange(0, b.len() as int) =~= b@);
            return r;
        }
        if i == a.len() {
            return -1;
        }
        if j == b.len() {
            return 1;
        }
        let ca = a[i];
        let cb = b[j];
        assert(x[0] == ca && y[0] == cb);
        if '0' <= ca && ca <= '9' && '0' <= cb && cb <= '9' {
            let ea = digit_end(a, i);
            let eb = digit_end(b, j);
            proof {
                lemma_digit_run_bounds(x);
                lemma_digit_run_bounds(y);
                assert(x.take(ea - i) =~= a@.subrange(i as int, ea as int));
                assert(y.take(eb - j) =~= b@.subrange(j as int, eb as int));
                assert(x.skip(ea - i) =~= a@.skip(ea as int));
                assert(y.skip(eb - j) =~= b@.skip(eb as int));
            }
            let sa = significant_start(a, i, ea);
            let sb = significant_start(b, j, eb);
            if ea - sa != eb - sb {
                if ea - sa < eb - sb {
                    return -1;
                } else {
                    return 1;
                }
            }
            let l = lex_range(a, sa, ea, b, sb, eb);
            if l != 0 {
                return l;
            }
            if ea - i != eb - j {
                if ea - i < eb - j {
                    return -1;
                } else {
                    return 1;
                }
            }
            i = ea;
            j = eb;
        } else {
            let la = crate::text::ascii_lower(ca);
            let lb = crate::text::ascii_lower(cb);
            if la != lb {
                if la < lb {
                    return -1;
                } else {
                    return 1;
                }
            }
            assert(x.drop_first() =~= a@.skip(i + 1));
            assert(y.drop_first() =~= b@.skip(j + 1));
            i += 1;
            j += 1;
        }
    }
}


proof fn lemma_lower_char(c: char)
    ensures
        is_digit(lower(c)) == is_digit(c),
        lower(lower(c)) == lower(c),
        is_digit(c) ==> lower(c) == c,
{
}

proof fn lemma_zero_run(s: Seq<char>)
    ensures
        0 <= zero_run(s) <= s.len(),
        forall|k: int| 0 <= k < zero_run(s) ==> #[trigger] s[k] == '0',
        zero_run(s) < s.len() ==> s[zero_run(s)] != '0',
    decreases s.len(),
{
    if s.len() > 0 && s[0] == '0' {
        lemma_zero_run(s.drop_first());
        assert forall|k: int| 0 <= k < zero_run(s) implies #[trigger] s[k] == '0' by {
            if k > 0 {
                assert(s.drop_first()[k - 1] == s[k]);
            }
        }
    }
}

/// Two digit runs the run order finds equal are the same run.
proof fn lemma_runs_equal(na: Seq<char>, nb: Seq<char>)
    requires
        na.len() > 0,
        nb.len() > 0,
        run_order(na, nb) == 0,
    ensures
        na == nb,
{
    let sa = significant(na);
    let sb = significant(nb);
    lemma_lex_zero(sa, sb);
    lemma_zero_run(na);
    lemma_zero_run(nb);
    let za = zero_run(na);
    let zb = zero_run(nb);
    assert(sa == sb);
    assert(na.len() == nb.len());
    if za >= na.len() && zb >= nb.len() {
        assert forall|k: int| 0 <= k < na.len() implies na[k] == nb[k] by {
            assert(na[k] == '0');
            assert(nb[k] == '0');
        }
        assert(na =~= nb);
    } else if za >= na.len() {
        assert(sa[0] == na[na.len() - 1]);
        assert(sb[0] == nb[zb]);
        assert(false);
    } else if zb >= nb.len() {
        assert(sb[0] == nb[nb.len() - 1]);
        assert(sa[0] == na[za]);
        assert(false);
    } else {
        assert(za == zb);
        assert forall|k: int| 0 <= k < na.len() implies na[k] == nb[k] by {
            if k < za {
                assert(na[k] == '0');
                assert(nb[k] == '0');
            } else {
                assert(na[k] == sa[k - za]);
                assert(nb[k] == sb[k - zb]);
            }
        }
        assert(na =~= nb);
    }
}

proof fn lemma_digit_run_lower(x: Seq<char>)
    ensures
        digit_run(lower_all(x)) == digit_run(x),
    decreases x.len(),
{
    if x.len() > 0 {
        lemma_lower_char(x[0]);
        assert(lower_all(x)[0] == lower(x[0]));
        assert(lower_all(x).drop_first() =~= lower_all(x.drop_first()));
        lemma_digit_run_lower(x.drop_first());
    }
}

proof fn lemma_walk_lower(x: Seq<char>, y: Seq<char>, a0: Seq<char>, b0: Seq<char>, c0: Seq<char>, d0: Seq<char>)
    requires
        lower_all(x) != lower_all(y),
    ensures
        walk(x, y, a0, b0) == walk(lower_all(x), lower_all(y), c0, d0),
    decreases x.len() + y.len(),
{
    let lx = lower_all(x);
    let ly = lower_all(y);
    if x.len() == 0 && y.len() == 0 {
        assert(lx =~= ly);
    } else if x.len() == 0 || y.len() == 0 {
    } else {
        lemma_lower_char(x[0]);
        lemma_lower_char(y[0]);
        assert(lx[0] == lower(x[0]));
        assert(ly[0] == lower(y[0]));
        if is_digit(x[0]) && is_digit(y[0]) {
            lemma_digit_run_bounds(x);
            lemma_digit_run_bounds(y);
            lemma_digit_run_lower(x);
            lemma_digit_run_lower(y);
            let dx = digit_run(x);
            let dy = digit_run(y);
            assert(lx.take(dx) =~= x.take(dx)) by {
                assert forall|k: int| 0 <= k < dx implies lx.take(dx)[k] == x.take(dx)[k] by {
                    lemma_lower_char(x[k]);
                }
            }
            assert(ly.take(dy) =~= y.take(dy)) by {
                assert forall|k: int| 0 <= k < dy implies ly.take(dy)[k] == y.take(dy)[k] by {
                    lemma_lower_char(y[k]);
                }
            }
            let o = run_order(x.take(dx), y.take(dy));
            if o == 0 {
                lemma_runs_equal(x.take(dx), y.take(dy));
                assert(lx.skip(dx) =~= lower_all(x.skip(dx)));
                assert(ly.skip(dy) =~= lower_all(y.skip(dy)));
                if lower_all(x.skip(dx)) == lower_all(y.skip(dy)) {
                    assert(lx =~= lx.take(dx) + lx.skip(dx));
                    assert(ly =~= ly.take(dy) + ly.skip(dy));
                    assert(false);
                }
                lemma_walk_lower(x.skip(dx), y.skip(dy), a0, b0, c0, d0);
            }
        } else if lower(x[0]) != lower(y[0]) {
        } else {
            assert(lx.drop_first() =~= lower_all(x.drop_first()));
            assert(ly.drop_first() =~= lower_all(y.drop_first()));
            if lower_all(x.drop_first()) == lower_all(y.drop_first()) {
                assert(lx =~= seq![lx[0]] + lx.drop_first());
                assert(ly =~= seq![ly[0]] + ly.drop_first());
                assert(false);
            }
            lemma_walk_lower(x.drop_first(), y.drop_first(), a0, b0, c0, d0);
        }
    }
}

/// ASCII case only breaks ties: names that differ other than in case are
/// ordered as their lower-cased forms are.
pub proof fn law_case_only_breaks_ties(a: Seq<char>, b: Seq<char>)
    requires
        lower_all(a) != lower_all(b),
    ensures
        natural(a, b) == natural(lower_all(a), lower_all(b)),
{
    lemma_walk_lower(a, b, a, b, lower_all(a), lower_all(b));
}

} // verus!
