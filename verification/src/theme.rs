//! Theme names and accent colors as the settings store them.
use vstd::prelude::*;
use crate::text::{chars_of, owned, push_char, trim, trim_bounds};
use crate::paths::chars_eq;

verus! {

/// The themes there are.
#[derive(Clone, Copy, Debug, PartialEq, Eq, Structural)]
pub enum ThemeId {
    Amoled,
    AmoledAmber,
    AmoledViolet,
    Dark,
    Light,
    LightWarm,
}

/// `(id, label)` pairs shown in View → Theme and Settings → Appearance.
pub fn catalog() -> (r: Vec<(&'static str, &'static str)>)
    ensures
        r@.len() == 4,
        r@[0].0@ == "amoled"@ && r@[0].1@ == "AMOLED"@,
        r@[1].0@ == "dark"@ && r@[1].1@ == "Dark"@,
        r@[2].0@ == "light"@ && r@[2].1@ == "Light"@,
        r@[3].0@ == "light_warm"@ && r@[3].1@ == "Light Warm"@,
{
    vec![("amoled", "AMOLED"), ("dark", "Dark"), ("light", "Light"), ("light_warm", "Light Warm")]
}

/// Whether a theme name is one of the AMOLED family.
pub fn is_amoled(name: &str) -> (r: bool)
    ensures
        r == crate::text::starts_with_seq(name@, "amoled"@),
{
    let v = chars_of(name);
    let p = chars_of("amoled");
    if v.len() < p.len() {
        return false;
    }
    let mut i: usize = 0;
    while i < p.len()
        invariant
            p.len() <= v.len(),
            i <= p.len(),
            v@ == name@,
            p@ == "amoled"@,
            forall|k: int| 0 <= k < i ==> v@[k] == p@[k],
        decreases p.len() - i,
    {
        if v[i] != p[i] {
            assert(v@.take(p.len() as int)[i as int] != p@[i as int]);
            return false;
        }
        i += 1;
    }
    assert(v@.take(p.len() as int) =~= p@);
    true
}

/// The theme a stored name selects; unknown names fall back to AMOLED.
pub open spec fn theme_spec(name: Seq<char>) -> ThemeId {
    if name == "amoled_amber"@ {
        ThemeId::AmoledAmber
    } else if name == "amoled_violet"@ {
        ThemeId::AmoledViolet
    } else if name == "dark"@ {
        ThemeId::Dark
    } else if name == "light"@ {
        ThemeId::Light
    } else if name == "light_warm"@ {
        ThemeId::LightWarm
    } else {
        ThemeId::Amoled
    }
}

/// The theme a stored name selects.
pub fn theme_for_name(name: &str) -> (r: ThemeId)
    ensures
        r == theme_spec(name@),
{
    let v = chars_of(name);
    if chars_eq(&v, &chars_of("amoled_amber")) {
        ThemeId::AmoledAmber
    } else if chars_eq(&v, &chars_of("amoled_violet")) {
        ThemeId::AmoledViolet
    } else if chars_eq(&v, &chars_of("dark")) {
        ThemeId::Dark
    } else if chars_eq(&v, &chars_of("light")) {
        ThemeId::Light
    } else if chars_eq(&v, &chars_of("light_warm")) {
        ThemeId::LightWarm
    } else {
        ThemeId::Amoled
    }
}

/// The value of a hex digit (either case), or -1.
pub open spec fn hex_val(c: char) -> int {
    if '0' <= c && c <= '9' {
        c as int - '0' as int
    } else if 'a' <= c && c <= 'f' {
        c as int - 'a' as int + 10
    } else if 'A' <= c && c <= 'F' {
        c as int - 'A' as int + 10
    } else {
        -1
    }
}

/// The number the hex digits `s` spell.
pub open spec fn hex_value(s: Seq<char>) -> int
    decreases s.len(),
{
    if s.len() == 0 { 0 } else { hex_value(s.drop_last()) * 16 + hex_val(s.last()) }
}

/// Number of leading `#` characters.
pub open spec fn lead_hashes(s: Seq<char>) -> int
    decreases s.len(),
{
    if s.len() > 0 && s[0] == '#' { 1 + lead_hashes(s.drop_first()) } else { 0 }
}

/// The accent as stored: trimmed, without leading `#`s.
pub open spec fn accent_text(s: Seq<char>) -> Seq<char> {
    trim(s).skip(lead_hashes(trim(s)))
}

/// The digits `u32::from_str_radix(_, 16)` reads from `s`: all of it, after
/// one optional leading `+`.
pub open spec fn radix_digits(s: Seq<char>) -> Seq<char> {
    if s.len() > 0 && s[0] == '+' { s.drop_first() } else { s }
}

/// An accent string: six characters after trimming and dropping leading
/// `#`s, which `u32::from_str_radix` reads as hex; the color is its three
/// low bytes.
pub open spec fn parse_hex_spec(s: Seq<char>) -> Option<(u8, u8, u8)> {
    let t = accent_text(s);
    let d = radix_digits(t);
    if t.len() == 6 && d.len() > 0 && forall|i: int| 0 <= i < d.len() ==> hex_val(#[trigger] d[i]) >= 0 {
        let n = hex_value(d);
        Some(((n / 65536) as u8, ((n / 256) % 256) as u8, (n % 256) as u8))
    } else {
        None
    }
}

fn hex_val_exec(c: char) -> (r: i32)
    ensures
        r as int == hex_val(c),
{
    if '0' <= c && c <= '9' {
        (c as u32 - '0' as u32) as i32
    } else if 'a' <= c && c <= 'f' {
        (c as u32 - 'a' as u32 + 10) as i32
    } else if 'A' <= c && c <= 'F' {
        (c as u32 - 'A' as u32 + 10) as i32
    } else {
        -1
    }
}

proof fn lemma_hex_value_bound(s: Seq<char>)
    requires
        forall|i: int| 0 <= i < s.len() ==> hex_val(#[trigger] s[i]) >= 0,
    ensures
        0 <= hex_value(s),
        s.len() <= 6 ==> hex_value(s) < 16777216,
        s.len() <= 5 ==> hex_value(s) < 1048576,
        s.len() <= 4 ==> hex_value(s) < 65536,
        s.len() <= 3 ==> hex_value(s) < 4096,
        s.len() <= 2 ==> hex_value(s) < 256,
        s.len() <= 1 ==> hex_value(s) < 16,
    decreases s.len(),
{
    if s.len() > 0 {
        assert(hex_val(s.last()) >= 0);
        assert forall|i: int| 0 <= i < s.drop_last().len() implies hex_val(#[trigger] s.drop_last()[i]) >= 0 by {
            assert(s.drop_last()[i] == s[i]);
        }
        lemma_hex_value_bound(s.drop_last());
    }
}

/// The trimmed accent text without leading `#`s.
pub fn accent_setting(hex: &str) -> (r: String)
    ensures
        r@ == accent_text(hex@),
{
    let v = chars_of(hex);
    let (lo, hi) = trim_bounds(&v);
    let mut i: usize = lo;
    let ghost t = v@.subrange(lo as int, hi as int);
    assert(t.skip(0) =~= t);
    while i < hi && v[i] == '#'
        invariant
            lo <= i <= hi <= v.len(),
            t == v@.subrange(lo as int, hi as int),
            lead_hashes(t) == (i - lo) + lead_hashes(v@.subrange(i as int, hi as int)),
        decreases hi - i,
    {
        assert(v@.subrange(i as int, hi as int).drop_first() =~= v@.subrange(i + 1, hi as int));
        i += 1;
    }
    assert(t.skip(i - lo) =~= v@.subrange(i as int, hi as int));
    crate::text::string_of(&v, i, hi)
}

/// Parses an accent string into red, green and blue.
pub fn parse_hex(s: &str) -> (r: Option<(u8, u8, u8)>)
    ensures
        r == parse_hex_spec(s@),
{
    let t = accent_setting(s);
    let v = chars_of(t.as_str());
    if v.len() != 6 {
        return None;
    }
    let start: usize = if v[0] == '+' { 1 } else { 0 };
    let ghost d = radix_digits(t@);
    assert(d =~= v@.skip(start as int));
    if start == v.len() {
        return None;
    }
    let mut n: u32 = 0;
    let mut i: usize = start;
    while i < v.len()
        invariant
            start <= i <= v.len(),
            v.len() == 6,
            d == v@.skip(start as int),
            v@ == t@,
            t@ == accent_text(s@),
            d == radix_digits(t@),
            d.len() > 0,
            forall|k: int| 0 <= k < i - start ==> hex_val(#[trigger] d[k]) >= 0,
            n as int == hex_value(d.take(i - start)),
            n < 16777216,
        decreases v.len() - i,
    {
        let h = hex_val_exec(v[i]);
        if h < 0 {
            assert(hex_val(d[i - start]) < 0);
            return None;
        }
        assert(d.take(i + 1 - start).drop_last() =~= d.take(i - start));
        assert(d.take(i + 1 - start).last() == v@[i as int]);
        proof {
            assert forall|k: int| 0 <= k < i + 1 - start implies hex_val(#[trigger] d.take(i + 1 - start)[k]) >= 0 by {
                assert(d.take(i + 1 - start)[k] == d[k]);
            }
            lemma_hex_value_bound(d.take(i + 1 - start));
        }
        n = n * 16 + h as u32;
        i += 1;
    }
    assert(d.take(v.len() - start) =~= d);
    Some(((n / 65536) as u8, ((n / 256) % 256) as u8, (n % 256) as u8))
}

/// A color as six lower-case hex digits.
pub open spec fn lower_hex2(b: u8) -> Seq<char> {
    seq![lower_digit((b / 16) as int), lower_digit((b % 16) as int)]
}

pub open spec fn lower_digit(d: int) -> char {
    if d < 10 { (48 + d) as char } else { (87 + d) as char }
}

fn lower_digit_exec(d: u8) -> (r: char)
    requires
        d < 16,
    ensures
        r == lower_digit(d as int),
{
    if d < 10 { (48u8 + d) as char } else { (87u8 + d) as char }
}

/// `rrggbb` in lower-case hex.
pub fn hex_of(r: u8, g: u8, b: u8) -> (s: String)
    ensures
        s@ == lower_hex2(r) + lower_hex2(g) + lower_hex2(b),
{
    let mut s = String::new();
    push_char(&mut s, lower_digit_exec(r / 16));
    push_char(&mut s, lower_digit_exec(r % 16));
    push_char(&mut s, lower_digit_exec(g / 16));
    push_char(&mut s, lower_digit_exec(g % 16));
    push_char(&mut s, lower_digit_exec(b / 16));
    push_char(&mut s, lower_digit_exec(b % 16));
    assert(s@ =~= lower_hex2(r) + lower_hex2(g) + lower_hex2(b));
    s
}

} // verus!
