//! Character and string helpers shared by the rest of the library.
use vstd::prelude::*;

verus! {

/// ASCII-only lowercasing of one character (what `char::to_ascii_lowercase` does).
pub open spec fn lower(c: char) -> char {
    if 'A' <= c && c <= 'Z' {
        ((c as u32) + 32) as char
    } else {
        c
    }
}

pub fn ascii_lower(c: char) -> (r: char)
    ensures
        r == lower(c),
{
    if 'A' <= c && c <= 'Z' {
        let b: u8 = c as u8;
        assert(b + 32 < 128);
        ((b + 32) as u8) as char
    } else {
        c
    }
}

/// The characters of `s`, in order.
pub fn chars_of(s: &str) -> (r: Vec<char>)
    ensures
        r@ == s@,
{
    let mut out: Vec<char> = Vec::new();
    for c in it: s.chars()
        invariant
            out@ == it.seq().take(it.index() as int),
    {
        out.push(c);
    }
    out
}


/// Appends one character to a `String` (`String::push`).
#[verifier::external_body]
pub fn push_char(s: &mut String, c: char)
    ensures
        final(s)@ == old(s)@.push(c),
{
    s.push(c);
}

/// A `String` holding `v[lo..hi]`.
pub fn string_of(v: &Vec<char>, lo: usize, hi: usize) -> (r: String)
    requires
        lo <= hi <= v.len(),
    ensures
        r@ == v@.subrange(lo as int, hi as int),
{
    let mut out = String::new();
    let mut i: usize = lo;
    while i < hi
        invariant
            lo <= i <= hi <= v.len(),
            out@ == v@.subrange(lo as int, i as int),
        decreases hi - i,
    {
        push_char(&mut out, v[i]);
        i += 1;
        assert(out@ =~= v@.subrange(lo as int, i as int));
    }
    out
}

/// A `String` holding all of `v`.
pub fn string_from_chars(v: &Vec<char>) -> (r: String)
    ensures
        r@ == v@,
{
    let r = string_of(v, 0, v.len());
    assert(v@.subrange(0, v@.len() as int) =~= v@);
    r
}

/// A fresh `String` equal to `s`.
pub fn owned(s: &str) -> (r: String)
    ensures
        r@ == s@,
{
    s.to_owned()
}


/// Unicode `White_Space` (what `char::is_whitespace` tests).
pub open spec fn is_ws(c: char) -> bool {
    ('\u{9}' <= c && c <= '\u{d}') || c == ' ' || c == '\u{85}' || c == '\u{a0}' || c == '\u{1680}'
        || ('\u{2000}' <= c && c <= '\u{200a}') || c == '\u{2028}' || c == '\u{2029}' || c
        == '\u{202f}' || c == '\u{205f}' || c == '\u{3000}'
}

pub fn is_whitespace(c: char) -> (r: bool)
    ensures
        r == is_ws(c),
{
    ('\u{9}' <= c && c <= '\u{d}') || c == ' ' || c == '\u{85}' || c == '\u{a0}' || c == '\u{1680}'
        || ('\u{2000}' <= c && c <= '\u{200a}') || c == '\u{2028}' || c == '\u{2029}' || c
        == '\u{202f}' || c == '\u{205f}' || c == '\u{3000}'
}

/// ASCII lowercasing of every character.
pub open spec fn lower_all(s: Seq<char>) -> Seq<char> {
    s.map_values(|c: char| lower(c))
}

/// `s` occurs in `hay` as a contiguous run.
pub open spec fn has_sub(hay: Seq<char>, s: Seq<char>) -> bool {
    exists|i: int| 0 <= i && i + s.len() <= hay.len() && #[trigger] hay.subrange(i, i + s.len()) == s
}

/// Substring search (`str::contains`).
pub fn contains_chars(hay: &Vec<char>, s: &Vec<char>) -> (r: bool)
    ensures
        r == has_sub(hay@, s@),
{
    if s.len() > hay.len() {
        assert forall|i: int| 0 <= i && i + s@.len() <= hay@.len() implies #[trigger] hay@.subrange(i, i + s@.len()) != s@ by {}
        return false;
    }
    let mut i: usize = 0;
    while i <= hay.len() - s.len()
        invariant
            s.len() <= hay.len(),
            i <= hay.len() - s.len() + 1,
            forall|k: int| 0 <= k < i ==> #[trigger] hay@.subrange(k, k + s@.len()) != s@,
        decreases hay.len() - i,
    {
        let mut j: usize = 0;
        while j < s.len() && hay[i + j] == s[j]
            invariant
                i + s.len() <= hay.len(),
                j <= s.len(),
                hay@.subrange(i as int, i + j) == s@.take(j as int),
            decreases s.len() - j,
        {
            assert(hay@.subrange(i as int, i + j + 1) =~= hay@.subrange(i as int, i + j).push(hay@[i + j]));
            assert(s@.take(j + 1) =~= s@.take(j as int).push(s@[j as int]));
            j += 1;
        }
        if j == s.len() {
            assert(s@.take(j as int) =~= s@);
            assert(hay@.subrange(i as int, i + s@.len()) == s@);
            return true;
        }
        assert(hay@.subrange(i as int, i + s@.len())[j as int] != s@[j as int]);
        i += 1;
    }
    assert forall|k: int| 0 <= k && k + s@.len() <= hay@.len() implies #[trigger] hay@.subrange(k, k + s@.len()) != s@ by {}
    false
}

/// `s` begins with `pre`.
pub open spec fn starts_with_seq(s: Seq<char>, pre: Seq<char>) -> bool {
    pre.len() <= s.len() && s.take(pre.len() as int) == pre
}


/// Number of leading whitespace characters.
pub open spec fn lead_ws(s: Seq<char>) -> int
    decreases s.len(),
{
    if s.len() > 0 && is_ws(s[0]) { 1 + lead_ws(s.drop_first()) } else { 0 }
}

/// Number of trailing whitespace characters.
pub open spec fn trail_ws(s: Seq<char>) -> int
    decreases s.len(),
{
    if s.len() > 0 && is_ws(s.last()) { 1 + trail_ws(s.drop_last()) } else { 0 }
}

/// `str::trim`: without leading and trailing whitespace.
pub open spec fn trim(s: Seq<char>) -> Seq<char> {
    let t = s.skip(lead_ws(s));
    t.take(t.len() - trail_ws(t))
}

proof fn lemma_lead_bound(s: Seq<char>)
    ensures
        0 <= lead_ws(s) <= s.len(),
    decreases s.len(),
{
    if s.len() > 0 && is_ws(s[0]) {
        lemma_lead_bound(s.drop_first());
    }
}

proof fn lemma_trail_bound(s: Seq<char>)
    ensures
        0 <= trail_ws(s) <= s.len(),
    decreases s.len(),
{
    if s.len() > 0 && is_ws(s.last()) {
        lemma_trail_bound(s.drop_last());
    }
}

/// Bounds of the trimmed part of `v`.
pub fn trim_bounds(v: &Vec<char>) -> (r: (usize, usize))
    ensures
        r.0 <= r.1 <= v.len(),
        v@.subrange(r.0 as int, r.1 as int) == trim(v@),
{
    let mut lo: usize = 0;
    assert(v@.skip(0) =~= v@);
    while lo < v.len() && is_whitespace(v[lo])
        invariant
            lo <= v.len(),
            lead_ws(v@) == lo + lead_ws(v@.skip(lo as int)),
        decreases v.len() - lo,
    {
        assert(v@.skip(lo as int).drop_first() =~= v@.skip(lo + 1));
        lo += 1;
    }
    let ghost t = v@.skip(lo as int);
    assert(lead_ws(v@.skip(lo as int)) == 0);
    let mut hi: usize = v.len();
    assert(t =~= v@.subrange(lo as int, hi as int));
    while hi > lo && is_whitespace(v[hi - 1])
        invariant
            lo <= hi <= v.len(),
            t == v@.skip(lo as int),
            trail_ws(t) == (v.len() - hi) + trail_ws(v@.subrange(lo as int, hi as int)),
        decreases hi,
    {
        assert(v@.subrange(lo as int, hi as int).drop_last() =~= v@.subrange(lo as int, hi - 1));
        hi -= 1;
    }
    proof {
        lemma_trail_bound(t);
        assert(t.take(t.len() - trail_ws(t)) =~= v@.subrange(lo as int, hi as int));
    }
    (lo, hi)
}


/// The ASCII digit for `d < 10`.
pub open spec fn digit_char(d: int) -> char {
    if d == 0 { '0' } else if d == 1 { '1' } else if d == 2 { '2' } else if d == 3 { '3' }
    else if d == 4 { '4' } else if d == 5 { '5' } else if d == 6 { '6' } else if d == 7 { '7' }
    else if d == 8 { '8' } else { '9' }
}

/// Decimal digits of `n` (no sign, no leading zeros; "0" for zero).
pub open spec fn decimal_spec(n: nat) -> Seq<char>
    decreases n,
{
    if n < 10 { seq![digit_char(n as int)] } else { decimal_spec(n / 10) + seq![digit_char((n % 10) as int)] }
}

pub fn digit_of(d: u64) -> (r: char)
    requires
        d < 10,
    ensures
        r == digit_char(d as int),
{
    if d == 0 { '0' } else if d == 1 { '1' } else if d == 2 { '2' } else if d == 3 { '3' }
    else if d == 4 { '4' } else if d == 5 { '5' } else if d == 6 { '6' } else if d == 7 { '7' }
    else if d == 8 { '8' } else { '9' }
}

/// `n` written in decimal.
pub fn decimal(n: u64) -> (r: String)
    ensures
        r@ == decimal_spec(n as nat),
    decreases n,
{
    if n < 10 {
        let mut s = String::new();
        push_char(&mut s, digit_of(n));
        assert(s@ =~= seq![digit_char(n as int)]);
        s
    } else {
        let mut s = decimal(n / 10);
        let ghost head = s@;
        push_char(&mut s, digit_of(n % 10));
        assert(s@ =~= head + seq![digit_char((n % 10) as int)]);
        s
    }
}

/// `n` written in decimal, left-padded with zeros to at least `width` digits.
pub open spec fn zero_pad(s: Seq<char>, width: nat) -> Seq<char> {
    if s.len() >= width {
        s
    } else {
        Seq::new((width - s.len()) as nat, |i: int| '0') + s
    }
}


/// The value of a run of decimal digits.
pub open spec fn digits_value(s: Seq<char>) -> int
    decreases s.len(),
{
    if s.len() == 0 {
        0
    } else {
        digits_value(s.drop_last()) * 10 + (s.last() as int - 48)
    }
}

/// One or more ASCII digits.
pub open spec fn all_digits(s: Seq<char>) -> bool {
    s.len() > 0 && forall|i: int| 0 <= i < s.len() ==> '0' <= #[trigger] s[i] <= '9'
}

/// `i32::from_str`: an optional `+` or `-`, then one or more ASCII digits,
/// with a value that fits; anything else is an error.
pub open spec fn parse_i32_spec(s: Seq<char>) -> Option<i32> {
    let neg = s.len() > 0 && s[0] == '-';
    let d = if s.len() > 0 && (s[0] == '-' || s[0] == '+') { s.drop_first() } else { s };
    if !all_digits(d) {
        None
    } else {
        let v = if neg { -digits_value(d) } else { digits_value(d) };
        if i32::MIN <= v <= i32::MAX { Some(v as i32) } else { None }
    }
}

proof fn lemma_digits_grow(s: Seq<char>, k: int)
    requires
        0 <= k < s.len(),
        forall|i: int| 0 <= i < s.len() ==> '0' <= #[trigger] s[i] <= '9',
    ensures
        digits_value(s.take(k + 1)) == digits_value(s.take(k)) * 10 + (s[k] as int - 48),
        digits_value(s.take(k)) >= 0,
    decreases k,
{
    assert(s.take(k + 1).drop_last() =~= s.take(k));
    if k > 0 {
        lemma_digits_grow(s, k - 1);
    }
}

/// Parses a decimal `i32` as `str::parse` does (see `parse_i32_spec`).
pub fn parse_i32(v: &Vec<char>) -> (r: Option<i32>)
    ensures
        r == parse_i32_spec(v@),
{
    let neg = v.len() > 0 && v[0] == '-';
    let start: usize = if v.len() > 0 && (v[0] == '-' || v[0] == '+') { 1 } else { 0 };
    let ghost d = if v@.len() > 0 && (v@[0] == '-' || v@[0] == '+') { v@.drop_first() } else { v@ };
    assert(d =~= v@.skip(start as int));
    if start == v.len() {
        return None;
    }
    let mut acc: i64 = 0;
    let mut big = false;
    let mut k: usize = start;
    assert(d.take(0) =~= Seq::<char>::empty());
    while k < v.len()
        invariant
            start <= k <= v.len(),
            d == v@.skip(start as int),
            d == (if v@.len() > 0 && (v@[0] == '-' || v@[0] == '+') { v@.drop_first() } else { v@ }),
            forall|i: int| 0 <= i < k - start ==> '0' <= #[trigger] d[i] <= '9',
            !big ==> acc == digits_value(d.take(k - start)) && 0 <= acc <= 2147483648,
            big ==> digits_value(d.take(k - start)) > 2147483648,
        decreases v.len() - k,
    {
        let c = v[k];
        if !('0' <= c && c <= '9') {
            assert(d[k - start] == c);
            assert(!all_digits(d));
            return None;
        }
        assert(d[k - start] == c);
        proof {
            lemma_digits_grow(d.take(k + 1 - start), k - start);
            assert(d.take(k + 1 - start).take(k - start) =~= d.take(k - start));
            assert(d.take(k + 1 - start).take(k + 1 - start) =~= d.take(k + 1 - start));
        }
        if !big {
            let next: i64 = acc * 10 + (c as i64 - 48);
            if next > 2147483648 {
                big = true;
            } else {
                acc = next;
            }
        }
        k += 1;
    }
    assert(d.take(d.len() as int) =~= d);
    assert(all_digits(d));
    if big {
        return None;
    }
    if neg {
        let x: i64 = -acc;
        if x < -2147483648 { None } else { Some(x as i32) }
    } else {
        if acc > 2147483647 { None } else { Some(acc as i32) }
    }
}

} // verus!
