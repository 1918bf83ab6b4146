//! Dates and clock times as the interface writes them: a modification time
//! as `YYYY-MM-DD HH:MM`, a playing time as `M:SS` or `H:MM:SS`.
use vstd::prelude::*;
use crate::text::{decimal, decimal_spec, zero_pad, push_char};
use crate::vfs::days_from_civil;

verus! {

/// Gregorian leap year.
pub open spec fn leap(y: int) -> bool {
    y % 4 == 0 && (y % 100 != 0 || y % 400 == 0)
}

/// Days in month `m` of year `y`.
pub open spec fn month_len(y: int, m: int) -> int {
    if m == 2 {
        if leap(y) { 29 } else { 28 }
    } else if m == 4 || m == 6 || m == 9 || m == 11 {
        30
    } else {
        31
    }
}

/// A real calendar date.
pub open spec fn valid_date(y: int, m: int, d: int) -> bool {
    1 <= m <= 12 && 1 <= d <= month_len(y, m)
}

/// First day of year `k` of a 400-year era, counted from 1 March of its
/// first year.
pub open spec fn year_start(k: int) -> int {
    365 * k + k / 4 - k / 100 + k / 400
}

/// First day of month `mp` of a year counted from March (0 is March).
pub open spec fn month_start(mp: int) -> int {
    (153 * mp + 2) / 5
}

/// `n` in decimal with at least `w` digits.
pub open spec fn padded_spec(n: nat, w: nat) -> Seq<char> {
    zero_pad(decimal_spec(n), w)
}

/// `YYYY-MM-DD HH:MM`.
pub open spec fn stamp_text(y: nat, m: nat, d: nat, h: nat, mi: nat) -> Seq<char> {
    padded_spec(y, 4) + seq!['-'] + padded_spec(m, 2) + seq!['-'] + padded_spec(d, 2) + seq![' ']
        + padded_spec(h, 2) + seq![':'] + padded_spec(mi, 2)
}

/// A playing time of `t` whole seconds: `H:MM:SS` from an hour on, else
/// `M:SS`.
pub open spec fn clock_text(t: nat) -> Seq<char> {
    let h = t / 3600;
    let m = (t % 3600) / 60;
    let s = t % 60;
    if h > 0 {
        decimal_spec(h) + seq![':'] + padded_spec(m, 2) + seq![':'] + padded_spec(s, 2)
    } else {
        decimal_spec(m) + seq![':'] + padded_spec(s, 2)
    }
}

proof fn lemma_year_of_era(doe: int)
    requires
        0 <= doe <= 146096,
    ensures
        ({
            let yoe = (doe - doe / 1460 + doe / 36524 - doe / 146096) / 365;
            0 <= yoe <= 399 && year_start(yoe) <= doe < year_start(yoe + 1)
        }),
{
}

proof fn lemma_month_of_year(doy: int)
    requires
        0 <= doy <= 365,
    ensures
        ({
            let mp = (5 * doy + 2) / 153;
            0 <= mp <= 11 && month_start(mp) <= doy && (mp < 11 ==> doy < month_start(mp + 1))
        }),
{
}

/// The length of a March-based year of an era: 366 when the February it
/// ends with is a leap one.
proof fn lemma_year_len(yoe: int, era: int)
    requires
        0 <= yoe <= 399,
    ensures
        year_start(yoe + 1) - year_start(yoe) == if leap(era * 400 + yoe + 1) { 366int } else { 365int },
{
    let k = yoe + 1;
    assert(k / 4 - yoe / 4 == if k % 4 == 0 { 1int } else { 0int });
    assert(k / 100 - yoe / 100 == if k % 100 == 0 { 1int } else { 0int });
    assert(k / 400 - yoe / 400 == if k % 400 == 0 { 1int } else { 0int });
    vstd::arithmetic::div_mod::lemma_mod_multiples_vanish(era * 100, k, 4);
    vstd::arithmetic::div_mod::lemma_mod_multiples_vanish(era * 4, k, 100);
    vstd::arithmetic::div_mod::lemma_mod_multiples_vanish(era, k, 400);
    assert(4 * (era * 100) == era * 400);
    assert(100 * (era * 4) == era * 400);
}

/// Where a date falls: its era, its year in the era, and its day in that
/// (March-based) year.
proof fn lemma_date_parts(y: int, m: int, d: int)
    requires
        valid_date(y, m, d),
    ensures
        ({
            let y2 = if m <= 2 { y - 1 } else { y };
            let era = y2 / 400;
            let yoe = y2 - era * 400;
            let mp = (m + 9) % 12;
            let doy = month_start(mp) + d - 1;
            &&& 0 <= yoe <= 399
            &&& 0 <= doy < year_start(yoe + 1) - year_start(yoe)
            &&& days_from_civil(y, m, d) == era * 146097 + year_start(yoe) + doy - 719468
        }),
{
    let y2 = if m <= 2 { y - 1 } else { y };
    let era = y2 / 400;
    let yoe = y2 - era * 400;
    lemma_year_len(yoe, era);
    assert(era * 400 + yoe + 1 == y2 + 1);
}

/// A day number names one date: two real dates with the same day number
/// are the same date.
pub proof fn law_day_numbers_name_one_date(y1: int, m1: int, d1: int, y2: int, m2: int, d2: int)
    requires
        valid_date(y1, m1, d1),
        valid_date(y2, m2, d2),
        days_from_civil(y1, m1, d1) == days_from_civil(y2, m2, d2),
    ensures
        y1 == y2 && m1 == m2 && d1 == d2,
{
    lemma_date_parts(y1, m1, d1);
    lemma_date_parts(y2, m2, d2);
    let a2 = if m1 <= 2 { y1 - 1 } else { y1 };
    let b2 = if m2 <= 2 { y2 - 1 } else { y2 };
    let ea = a2 / 400;
    let eb = b2 / 400;
    let ka = a2 - ea * 400;
    let kb = b2 - eb * 400;
    let pa = (m1 + 9) % 12;
    let pb = (m2 + 9) % 12;
    let da = month_start(pa) + d1 - 1;
    let db = month_start(pb) + d2 - 1;
    assert(year_start(400) == 146097);
    if ka < 399 {
        lemma_year_start_mono(ka, 399);
    }
    if kb < 399 {
        lemma_year_start_mono(kb, 399);
    }
    lemma_unique_split(ea, year_start(ka) + da, eb, year_start(kb) + db);
    if ka < kb {
        lemma_year_start_mono(ka, kb);
    } else if kb < ka {
        lemma_year_start_mono(kb, ka);
    }
    assert(ka == kb && da == db);
    assert(a2 == b2);
    lemma_month_in_year(y1, m1, d1);
    lemma_month_in_year(y2, m2, d2);
    if pa < pb {
        lemma_month_start_mono(pa, pb);
    } else if pb < pa {
        lemma_month_start_mono(pb, pa);
    }
    assert(pa == pb);
}

/// A date's day lies inside its month's stretch of the March-based year.
proof fn lemma_month_in_year(y: int, m: int, d: int)
    requires
        valid_date(y, m, d),
    ensures
        (m + 9) % 12 < 11 ==> d - 1 < month_start((m + 9) % 12 + 1) - month_start((m + 9) % 12),
        (m + 9) % 12 == 11 <==> m == 2,
{
}

proof fn lemma_month_start_mono(a: int, b: int)
    requires
        0 <= a < b <= 11,
    ensures
        month_start(a + 1) <= month_start(b),
{
}

proof fn lemma_year_start_mono(a: int, b: int)
    requires
        0 <= a < b <= 399,
    ensures
        year_start(a + 1) <= year_start(b),
{
}

proof fn lemma_unique_split(e1: int, r1: int, e2: int, r2: int)
    requires
        0 <= r1 < 146097,
        0 <= r2 < 146097,
        e1 * 146097 + r1 == e2 * 146097 + r2,
    ensures
        e1 == e2 && r1 == r2,
{
    if e1 < e2 {
        assert(e1 * 146097 + 146097 <= e2 * 146097);
    } else if e2 < e1 {
        assert(e2 * 146097 + 146097 <= e1 * 146097);
    }
}

/// Appends `n` in decimal with at least `w` digits.
fn push_padded(out: &mut String, n: u64, w: usize)
    ensures
        final(out)@ == old(out)@ + padded_spec(n as nat, w as nat),
{
    let d = decimal(n);
    let v = crate::text::chars_of(d.as_str());
    if v.len() < w {
        let ghost head = out@;
        let mut k: usize = v.len();
        while k < w
            invariant
                v.len() <= k <= w,
                out@ == head + Seq::new((k - v.len()) as nat, |i: int| '0'),
            decreases w - k,
        {
            let ghost before = out@;
            push_char(out, '0');
            k += 1;
            assert(out@ =~= head + Seq::new((k - v.len()) as nat, |i: int| '0'));
        }
    }
    let ghost mid = out@;
    out.append(d.as_str());
    assert(out@ =~= old(out)@ + padded_spec(n as nat, w as nat));
}

/// A time in seconds since 1970 as `YYYY-MM-DD HH:MM` (UTC); nothing for
/// times up to 1970 itself.
pub fn format_unix_time(unix: i64) -> (r: String)
    ensures
        unix <= 0 ==> r@.len() == 0,
        unix > 0 ==> exists|y: int, m: int, d: int| {
            &&& y >= 1970
            &&& valid_date(y, m, d)
            &&& days_from_civil(y, m, d) == unix / 86400
            &&& r@ == stamp_text(y as nat, m as nat, d as nat, ((unix % 86400) / 3600) as nat,
                ((unix % 86400) % 3600 / 60) as nat)
        },
{
    if unix <= 0 {
        return String::new();
    }
    let u: u64 = unix as u64;
    let days: u64 = u / 86400;
    let secs_of_day: u64 = u % 86400;
    let z: u64 = days + 719468;
    let era: u64 = z / 146097;
    let doe: u64 = z - era * 146097;
    proof {
        lemma_year_of_era(doe as int);
    }
    let yoe: u64 = (doe - doe / 1460 + doe / 36524 - doe / 146096) / 365;
    proof {
        lemma_year_len(yoe as int, era as int);
    }
    let y0: u64 = yoe + era * 400;
    let doy: u64 = doe - (365 * yoe + yoe / 4 - yoe / 100);
    assert(doy == doe - year_start(yoe as int));
    proof {
        lemma_month_of_year(doy as int);
    }
    let mp: u64 = (5 * doy + 2) / 153;
    let d: u64 = doy - (153 * mp + 2) / 5 + 1;
    let m: u64 = if mp < 10 { mp + 3 } else { mp - 9 };
    let y: u64 = if m <= 2 { y0 + 1 } else { y0 };
    proof {
        let y2 = if m <= 2 { y - 1 } else { y as int };
        assert(y2 == era * 400 + yoe);
        assert(y2 / 400 == era);
        assert((m + 9) % 12 == mp);
        assert(days_from_civil(y as int, m as int, d as int) == days);
        assert(valid_date(y as int, m as int, d as int));
        assert(y >= 1970);
    }
    let mut out = String::new();
    push_padded(&mut out, y, 4);
    push_char(&mut out, '-');
    push_padded(&mut out, m, 2);
    push_char(&mut out, '-');
    push_padded(&mut out, d, 2);
    push_char(&mut out, ' ');
    push_padded(&mut out, secs_of_day / 3600, 2);
    push_char(&mut out, ':');
    push_padded(&mut out, (secs_of_day % 3600) / 60, 2);
    assert(out@ =~= stamp_text(y as nat, m as nat, d as nat, ((unix % 86400) / 3600) as nat,
        ((unix % 86400) % 3600 / 60) as nat));
    out
}

/// A playing time given in whole seconds (see `clock_text`).
pub fn duration_text(t: u64) -> (r: String)
    ensures
        r@ == clock_text(t as nat),
{
    let h = t / 3600;
    let m = (t % 3600) / 60;
    let s = t % 60;
    let mut out = String::new();
    if h > 0 {
        out = decimal(h);
        push_char(&mut out, ':');
        push_padded(&mut out, m, 2);
    } else {
        out = decimal(m);
    }
    push_char(&mut out, ':');
    push_padded(&mut out, s, 2);
    assert(out@ =~= clock_text(t as nat));
    out
}

} // verus!
