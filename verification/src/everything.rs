//! The message format of the Everything search service: the query the
//! program sends and the result list it gets back, both as little-endian
//! byte buffers with UTF-16 text.
use vstd::prelude::*;
use crate::text::{chars_of, owned, push_char, string_of, trim, trim_bounds};

verus! {

/// Result flag: the item is a folder.
pub const IPC_FOLDER: u32 = 1;

/// Bytes of the query header: five 32-bit fields.
pub const QUERY_HEADER_LEN: usize = 20;

/// Bytes of the result list header: seven 32-bit fields.
pub const LIST_HEADER_LEN: usize = 28;

/// Bytes of one result record: flags, name offset, path offset.
pub const ITEM_LEN: usize = 12;

/// The UTF-16 code units of one character.
pub open spec fn utf16_of(c: char) -> Seq<u16> {
    let x = c as u32 as int;
    if x < 0x10000 {
        seq![x as u16]
    } else {
        seq![(0xD800 + (x - 0x10000) / 1024) as u16, (0xDC00 + (x - 0x10000) % 1024) as u16]
    }
}

/// `str::encode_utf16`.
pub open spec fn utf16_encode(s: Seq<char>) -> Seq<u16>
    decreases s.len(),
{
    if s.len() == 0 { Seq::empty() } else { utf16_encode(s.drop_last()) + utf16_of(s.last()) }
}

pub open spec fn is_high(u: u16) -> bool {
    0xD800 <= u <= 0xDBFF
}

pub open spec fn is_low(u: u16) -> bool {
    0xDC00 <= u <= 0xDFFF
}

/// UTF-16 decoding with each unpaired surrogate replaced by U+FFFD.
pub open spec fn utf16_decode(u: Seq<u16>) -> Seq<char>
    decreases u.len(),
{
    if u.len() == 0 {
        Seq::empty()
    } else if is_high(u[0]) && u.len() > 1 && is_low(u[1]) {
        seq![(0x10000 + (u[0] - 0xD800) * 1024 + (u[1] - 0xDC00)) as char] + utf16_decode(u.skip(2))
    } else if is_high(u[0]) || is_low(u[0]) {
        seq!['\u{FFFD}'] + utf16_decode(u.skip(1))
    } else {
        seq![u[0] as char] + utf16_decode(u.skip(1))
    }
}

fn push_code(out: &mut String, code: u32)
    requires
        code < 0xD800 || (0xE000 <= code && code <= 0x10FFFF),
    ensures
        final(out)@ == old(out)@.push(code as char),
{
    match crate::plugins::char_from_code(code) {
        Some(c) => {
            proof {
                vstd::utf8::char_u32_cast(c, code);
            }
            push_char(out, c)
        },
        None => {},
    }
}

/// Decodes UTF-16, replacing each unpaired surrogate with U+FFFD (what
/// `String::from_utf16_lossy` does).
pub(crate) fn from_utf16_lossy(units: &[u16]) -> (r: String)
    ensures
        r@ == utf16_decode(units@),
{
    let mut out = String::new();
    let mut i: usize = 0;
    assert(units@.skip(0) =~= units@);
    while i < units.len()
        invariant
            i <= units.len(),
            out@ + utf16_decode(units@.skip(i as int)) == utf16_decode(units@),
        decreases units.len() - i,
    {
        let ghost rest = units@.skip(i as int);
        let u = units[i];
        assert(rest[0] == u);
        if 0xD800 <= u && u <= 0xDBFF && i + 1 < units.len() && 0xDC00 <= units[i + 1] && units[i + 1] <= 0xDFFF {
            let w = units[i + 1];
            assert(rest[1] == w);
            assert(rest.skip(2) =~= units@.skip(i + 2));
            let code: u32 = 0x10000 + ((u as u32) - 0xD800) * 1024 + ((w as u32) - 0xDC00);
            let ghost o0 = out@;
            push_code(&mut out, code);
            assert(out@ + utf16_decode(units@.skip(i + 2)) =~= o0 + utf16_decode(rest));
            i += 2;
        } else {
            assert(rest.skip(1) =~= units@.skip(i + 1));
            let ghost o0 = out@;
            if (0xD800 <= u && u <= 0xDBFF) || (0xDC00 <= u && u <= 0xDFFF) {
                push_char(&mut out, '\u{FFFD}');
            } else {
                push_code(&mut out, u as u32);
            }
            assert(out@ + utf16_decode(units@.skip(i + 1)) =~= o0 + utf16_decode(rest));
            i += 1;
        }
    }
    assert(units@.skip(i as int) =~= Seq::<u16>::empty());
    assert(out@ + Seq::<char>::empty() =~= out@);
    out
}

/// Little-endian 32-bit value at `off`.
pub open spec fn le_u32(b: Seq<u8>, off: int) -> int {
    b[off] + 256 * b[off + 1] + 65536 * b[off + 2] + 16777216 * b[off + 3]
}

/// The four little-endian bytes of `x`.
pub open spec fn le_bytes(x: u32) -> Seq<u8> {
    seq![(x % 256) as u8, ((x / 256) % 256) as u8, ((x / 65536) % 256) as u8, (x / 16777216) as u8]
}

fn push_u32(buf: &mut Vec<u8>, x: u32)
    ensures
        final(buf)@ == old(buf)@ + le_bytes(x),
{
    buf.push((x % 256) as u8);
    buf.push(((x / 256) % 256) as u8);
    buf.push(((x / 65536) % 256) as u8);
    buf.push((x / 16777216) as u8);
    assert(final(buf)@ =~= old(buf)@ + le_bytes(x));
}

/// The units of `s` as little-endian bytes.
pub open spec fn units_bytes(u: Seq<u16>) -> Seq<u8>
    decreases u.len(),
{
    if u.len() == 0 {
        Seq::empty()
    } else {
        units_bytes(u.drop_last()) + seq![(u.last() % 256) as u8, (u.last() / 256) as u8]
    }
}

/// The query message: the header (reply window, reply message id 0, no
/// flags, offset 0, result limit), then the query in UTF-16 with a
/// terminating zero.
pub open spec fn query_message(reply_hwnd: u32, max: u32, query: Seq<char>) -> Seq<u8> {
    le_bytes(reply_hwnd) + le_bytes(0) + le_bytes(0) + le_bytes(0) + le_bytes(max) + units_bytes(
        utf16_encode(query).push(0),
    )
}

/// The UTF-16 code units of a string.
pub fn utf16_units(s: &str) -> (r: Vec<u16>)
    ensures
        r@ == utf16_encode(s@),
{
    let v = chars_of(s);
    let mut units: Vec<u16> = Vec::new();
    let mut i: usize = 0;
    assert(v@.take(0) =~= Seq::<char>::empty());
    while i < v.len()
        invariant
            i <= v.len(),
            v@ == s@,
            units@ == utf16_encode(v@.take(i as int)),
        decreases v.len() - i,
    {
        assert(v@.take(i + 1).drop_last() =~= v@.take(i as int));
        let x: u32 = v[i] as u32;
        let ghost before = units@;
        if x < 0x10000 {
            units.push(x as u16);
            assert(units@ =~= before + utf16_of(v@[i as int]));
        } else {
            units.push((0xD800 + (x - 0x10000) / 1024) as u16);
            units.push((0xDC00 + (x - 0x10000) % 1024) as u16);
            assert(units@ =~= before + utf16_of(v@[i as int]));
        }
        i += 1;
    }
    assert(v@.take(v.len() as int) =~= v@);
    units
}

/// Encodes a query for the Everything service.
pub fn encode_query(reply_hwnd: u32, max: u32, query: &str) -> (r: Vec<u8>)
    ensures
        r@ == query_message(reply_hwnd, max, query@),
{
    let mut buf: Vec<u8> = Vec::new();
    push_u32(&mut buf, reply_hwnd);
    push_u32(&mut buf, 0);
    push_u32(&mut buf, 0);
    push_u32(&mut buf, 0);
    push_u32(&mut buf, max);
    let ghost head = buf@;
    let mut units = utf16_units(query);
    units.push(0);
    let mut k: usize = 0;
    assert(units@.take(0) =~= Seq::<u16>::empty());
    while k < units.len()
        invariant
            k <= units.len(),
            buf@ == head + units_bytes(units@.take(k as int)),
        decreases units.len() - k,
    {
        assert(units@.take(k + 1).drop_last() =~= units@.take(k as int));
        let u = units[k];
        let ghost before = buf@;
        buf.push((u % 256) as u8);
        buf.push((u / 256) as u8);
        assert(buf@ =~= before + seq![(u % 256) as u8, (u / 256) as u8]);
        k += 1;
    }
    assert(units@.take(units.len() as int) =~= units@);
    buf
}

/// The UTF-16 units of the zero-terminated string at byte `off`, up to
/// the terminator or the end of the buffer.
pub open spec fn wcs_units(b: Seq<u8>, off: int) -> Seq<u16>
    decreases b.len() - off,
{
    if off < 0 || off + 2 > b.len() {
        Seq::empty()
    } else {
        let u = b[off] + 256 * b[off + 1];
        if u == 0 { Seq::empty() } else { seq![u as u16] + wcs_units(b, off + 2) }
    }
}

/// The string at byte `off`: none when the offset lies outside the buffer
/// or is odd.
pub open spec fn read_wcs_spec(b: Seq<u8>, off: int) -> Option<Seq<char>> {
    if off >= b.len() || off % 2 != 0 {
        None
    } else {
        let u = wcs_units(b, off);
        if u.len() == 0 { Some(Seq::empty()) } else { Some(utf16_decode(u)) }
    }
}

fn read_wcs(b: &[u8], offset: u32) -> (r: Option<String>)
    ensures
        r matches Some(s) ==> read_wcs_spec(b@, offset as int) == Some(s@),
        r is None ==> read_wcs_spec(b@, offset as int) is None,
{
    let off = offset as usize;
    if off >= b.len() || off % 2 != 0 {
        return None;
    }
    let mut units: Vec<u16> = Vec::new();
    let mut p: usize = off;
    assert(wcs_units(b@, off as int) == units@ + wcs_units(b@, p as int));
    while p < b.len() && b.len() - p >= 2 && (b[p] as u16 + 256 * b[p + 1] as u16) != 0
        invariant
            off <= p <= b.len(),
            wcs_units(b@, off as int) == units@ + wcs_units(b@, p as int),
        decreases b.len() - p,
    {
        let u: u16 = b[p] as u16 + 256 * b[p + 1] as u16;
        let ghost before = units@;
        units.push(u);
        assert(wcs_units(b@, p as int) == seq![u] + wcs_units(b@, p + 2));
        p = p + 2;
        assert(units@ =~= before.push(u));
        assert(before + (seq![u] + wcs_units(b@, p as int)) =~= units@ + wcs_units(b@, p as int));
    }
    assert(wcs_units(b@, p as int) =~= Seq::<u16>::empty());
    assert(units@ =~= wcs_units(b@, off as int));
    if units.len() == 0 {
        return Some(String::new());
    }
    Some(from_utf16_lossy(units.as_slice()))
}

/// A result path: the folder and the name joined with `\` unless the
/// folder is empty or already ends in a separator.
pub open spec fn join_ev_spec(path: Seq<char>, name: Seq<char>) -> Seq<char> {
    if path.len() == 0 {
        name
    } else if path.last() == '\\' || path.last() == '/' {
        path + name
    } else {
        path + seq!['\\'] + name
    }
}

/// Joins a result's folder and name.
pub fn join_ev(path: &str, name: &str) -> (r: String)
    ensures
        r@ == join_ev_spec(path@, name@),
{
    let v = chars_of(path);
    if v.len() == 0 {
        return owned(name);
    }
    let mut s = owned(path);
    let last = v[v.len() - 1];
    if !(last == '\\' || last == '/') {
        push_char(&mut s, '\\');
    }
    s.append(name);
    s
}

/// The hits a result list holds: nothing when the buffer is shorter than
/// the header or too short for the records it announces; else one hit per
/// record whose name can be read, its folder read (empty when it cannot
/// be), joined, and marked as a folder by its flag.
pub open spec fn parse_list_spec(b: Seq<u8>) -> Seq<(Seq<char>, bool)> {
    if b.len() < LIST_HEADER_LEN {
        Seq::empty()
    } else {
        let n = le_u32(b, 20);
        if LIST_HEADER_LEN + ITEM_LEN * n > b.len() {
            Seq::empty()
        } else {
            items_upto(b, n as nat)
        }
    }
}

/// The hits of the first `k` records.
pub open spec fn items_upto(b: Seq<u8>, k: nat) -> Seq<(Seq<char>, bool)>
    decreases k,
{
    if k == 0 {
        Seq::empty()
    } else {
        let prev = items_upto(b, (k - 1) as nat);
        let at = LIST_HEADER_LEN + ITEM_LEN * (k - 1);
        match read_wcs_spec(b, le_u32(b, at + 4)) {
            None => prev,
            Some(name) => {
                let path = match read_wcs_spec(b, le_u32(b, at + 8)) {
                    Some(p) => p,
                    None => Seq::empty(),
                };
                prev.push((join_ev_spec(path, name), le_u32(b, at) % 2 == 1))
            },
        }
    }
}

fn read_u32(b: &[u8], off: usize) -> (r: u32)
    requires
        off + 4 <= b.len(),
    ensures
        r as int == le_u32(b@, off as int),
{
    b[off] as u32 + 256 * b[off + 1] as u32 + 65536 * b[off + 2] as u32 + 16777216 * b[off + 3] as u32
}

pub open spec fn hits_view(s: Seq<(String, bool)>) -> Seq<(Seq<char>, bool)> {
    s.map_values(|h: (String, bool)| (h.0@, h.1))
}

/// Parses a result list into `(path, is_folder)` hits.
pub fn parse_list(b: &[u8]) -> (r: Vec<(String, bool)>)
    ensures
        hits_view(r@) == parse_list_spec(b@),
{
    let mut out: Vec<(String, bool)> = Vec::new();
    if b.len() < LIST_HEADER_LEN {
        return out;
    }
    let n = read_u32(b, 20);
    let need: u128 = LIST_HEADER_LEN as u128 + ITEM_LEN as u128 * n as u128;
    if need > b.len() as u128 {
        return out;
    }
    let mut i: usize = 0;
    while i < n as usize
        invariant
            i <= n,
            LIST_HEADER_LEN + ITEM_LEN * n <= b.len(),
            hits_view(out@) == items_upto(b@, i as nat),
        decreases n - i,
    {
        let at = LIST_HEADER_LEN + ITEM_LEN * i;
        let flags = read_u32(b, at);
        let name_off = read_u32(b, at + 4);
        let path_off = read_u32(b, at + 8);
        match read_wcs(b, name_off) {
            None => {},
            Some(name) => {
                let path = match read_wcs(b, path_off) {
                    Some(p) => p,
                    None => String::new(),
                };
                let full = join_ev(path.as_str(), name.as_str());
                let is_dir = flags & IPC_FOLDER != 0;
                assert(flags & 1 != 0 <==> flags % 2 == 1) by (bit_vector);
                let ghost before = hits_view(out@);
                out.push((full, is_dir));
                assert(hits_view(out@) =~= before.push((full@, is_dir)));
            },
        }
        i += 1;
    }
    out
}

/// What the service is asked: the query trimmed, at least one result.
pub open spec fn service_request(query: Seq<char>, max: usize) -> (Seq<char>, u32) {
    (trim(query), if max < 1 { 1 } else { max as u32 })
}

/// The trimmed query and result limit sent for a search; `None` for a blank
/// query, which finds nothing without asking.
pub fn prepare_search(query: &str, max: usize) -> (r: Option<(String, u32)>)
    ensures
        trim(query@).len() == 0 ==> r is None,
        trim(query@).len() > 0 ==> (r matches Some((q, m)) && (q@, m) == service_request(query@, max)),
{
    let v = chars_of(query);
    let (lo, hi) = trim_bounds(&v);
    if lo == hi {
        return None;
    }
    let q = string_of(&v, lo, hi);
    let m: usize = if max < 1 { 1 } else { max };
    Some((q, m as u32))
}

/// `s` without `"` characters.
pub open spec fn drop_quotes(s: Seq<char>) -> Seq<char>
    decreases s.len(),
{
    if s.len() == 0 {
        s
    } else if s.last() == '"' {
        drop_quotes(s.drop_last())
    } else {
        drop_quotes(s.drop_last()).push(s.last())
    }
}

/// Number of trailing `\` and `/` characters.
pub open spec fn trail_seps(s: Seq<char>) -> int
    decreases s.len(),
{
    if s.len() > 0 && (s.last() == '\\' || s.last() == '/') { 1 + trail_seps(s.drop_last()) } else { 0 }
}

/// The query that restricts `query` to folder `dir` and below: the folder
/// (without quotes or trailing separators) as a `path:` term in front; the
/// plain query when nothing of the folder is left.
pub open spec fn search_in_spec(dir: Seq<char>, query: Seq<char>) -> Seq<char> {
    let d = drop_quotes(dir);
    let t = d.take(d.len() - trail_seps(d));
    if t.len() == 0 {
        query
    } else {
        "path:\""@ + t + "\" "@ + query
    }
}

proof fn lemma_trail_seps(s: Seq<char>)
    ensures
        0 <= trail_seps(s) <= s.len(),
    decreases s.len(),
{
    if s.len() > 0 && (s.last() == '\\' || s.last() == '/') {
        lemma_trail_seps(s.drop_last());
    }
}

fn strip_quotes(v: &Vec<char>) -> (d: Vec<char>)
    ensures
        d@ == drop_quotes(v@),
{
    let mut d: Vec<char> = Vec::new();
    let mut i: usize = 0;
    assert(v@.take(0) =~= Seq::<char>::empty());
    while i < v.len()
        invariant
            i <= v.len(),
            d@ == drop_quotes(v@.take(i as int)),
        decreases v.len() - i,
    {
        assert(v@.take(i + 1).drop_last() =~= v@.take(i as int));
        if v[i] != '"' {
            d.push(v[i]);
        }
        i += 1;
    }
    assert(v@.take(v.len() as int) =~= v@);
    d
}

fn kept_len(d: &Vec<char>) -> (end: usize)
    ensures
        end as int == d@.len() - trail_seps(d@),
{
    let mut end: usize = d.len();
    assert(d@.take(end as int) =~= d@);
    while end > 0 && (d[end - 1] == '\\' || d[end - 1] == '/')
        invariant
            end <= d.len(),
            trail_seps(d@) == (d.len() - end) + trail_seps(d@.take(end as int)),
        decreases end,
    {
        assert(d@.take(end as int).drop_last() =~= d@.take(end - 1));
        end -= 1;
    }
    proof {
        lemma_trail_seps(d@);
    }
    end
}

/// The query to send for a search inside `dir`.
pub fn search_in_query(dir: &str, query: &str) -> (r: String)
    ensures
        r@ == search_in_spec(dir@, query@),
{
    let v = chars_of(dir);
    let d = strip_quotes(&v);
    let end = kept_len(&d);
    proof {
        lemma_trail_seps(d@);
    }
    if end == 0 {
        return owned(query);
    }
    let t = string_of(&d, 0, end);
    assert(d@.subrange(0, end as int) =~= d@.take(end as int));
    let mut s = owned("path:\"");
    s.append(t.as_str());
    s.append("\" ");
    s.append(query);
    s
}

} // verus!
