//! Three-way orders on character sequences, as integers -1 / 0 / 1.
use vstd::prelude::*;

verus! {

/// -1, 0 or 1 as `x` is below, equal to or above `y`.
pub open spec fn three_way(x: int, y: int) -> int {
    if x < y { -1 } else if x == y { 0 } else { 1 }
}

/// Lexicographic order by code point (what `str::cmp` gives).
pub open spec fn lex(a: Seq<char>, b: Seq<char>) -> int
    decreases a.len(),
{
    if a.len() == 0 && b.len() == 0 {
        0
    } else if a.len() == 0 {
        -1
    } else if b.len() == 0 {
        1
    } else if a[0] != b[0] {
        three_way(a[0] as int, b[0] as int)
    } else {
        lex(a.drop_first(), b.drop_first())
    }
}

/// `lex` flips when its arguments swap.
pub proof fn lemma_lex_antisym(a: Seq<char>, b: Seq<char>)
    ensures
        lex(a, b) == -lex(b, a),
    decreases a.len(),
{
    if a.len() > 0 && b.len() > 0 && a[0] == b[0] {
        lemma_lex_antisym(a.drop_first(), b.drop_first());
    }
}

/// `lex` is 0 exactly on equal sequences.
pub proof fn lemma_lex_zero(a: Seq<char>, b: Seq<char>)
    ensures
        (lex(a, b) == 0) == (a == b),
        -1 <= lex(a, b) <= 1,
    decreases a.len(),
{
    if a.len() > 0 && b.len() > 0 && a[0] == b[0] {
        lemma_lex_zero(a.drop_first(), b.drop_first());
        if a.drop_first() == b.drop_first() {
            assert(a =~= seq![a[0]] + a.drop_first());
            assert(b =~= seq![b[0]] + b.drop_first());
        }
    }
    if a.len() == 0 && b.len() == 0 {
        assert(a =~= b);
    }
}

/// `lex` is transitive, strictly so when either step is strict.
pub proof fn lemma_lex_trans(a: Seq<char>, b: Seq<char>, c: Seq<char>)
    requires
        lex(a, b) <= 0,
        lex(b, c) <= 0,
    ensures
        lex(a, c) <= 0,
        (lex(a, b) < 0 || lex(b, c) < 0) ==> lex(a, c) < 0,
    decreases a.len(),
{
    if a.len() > 0 && b.len() > 0 && c.len() > 0 && a[0] == b[0] && b[0] == c[0] {
        lemma_lex_trans(a.drop_first(), b.drop_first(), c.drop_first());
    }
}

/// `lex` of `a[alo..ahi]` against `b[blo..bhi]`.
pub fn lex_range(a: &Vec<char>, alo: usize, ahi: usize, b: &Vec<char>, blo: usize, bhi: usize) -> (r: i8)
    requires
        alo <= ahi <= a.len(),
        blo <= bhi <= b.len(),
    ensures
        r as int == lex(a@.subrange(alo as int, ahi as int), b@.subrange(blo as int, bhi as int)),
{
    let mut i: usize = alo;
    let mut j: usize = blo;
    while i < ahi && j < bhi
        invariant
            alo <= i <= ahi <= a.len(),
            blo <= j <= bhi <= b.len(),
            i - alo == j - blo,
            lex(a@.subrange(alo as int, ahi as int), b@.subrange(blo as int, bhi as int))
                == lex(a@.subrange(i as int, ahi as int), b@.subrange(j as int, bhi as int)),
        decreases ahi - i,
    {
        let ca = a[i];
        let cb = b[j];
        assert(a@.subrange(i as int, ahi as int)[0] == ca);
        assert(b@.subrange(j as int, bhi as int)[0] == cb);
        if ca != cb {
            if ca < cb {
                return -1;
            } else {
                return 1;
            }
        }
        assert(a@.subrange(i as int, ahi as int).drop_first() =~= a@.subrange(i + 1, ahi as int));
        assert(b@.subrange(j as int, bhi as int).drop_first() =~= b@.subrange(j + 1, bhi as int));
        i += 1;
        j += 1;
    }
    if i == ahi && j == bhi {
        0
    } else if i == ahi {
        -1
    } else {
        1
    }
}

} // verus!
