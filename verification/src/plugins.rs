//! Plugins: what a plugin declares, what the user has installed and granted,
//! the packed pointer/length values that cross the sandbox boundary, the
//! byte formats the bundled plugins read, and the texts they hand back.
use vstd::prelude::*;
use crate::paths::{components, same_path};
use crate::text::owned;
use vstd::utf8::{decode_utf8, encode_utf8, is_char_boundary, valid_utf8};

verus! {

/// Declared by the plugin itself.
#[derive(Clone, Debug)]
pub struct PluginManifest {
    pub name: String,
    pub version: String,
    pub description: String,
    /// Any of: "command", "column", "preview", "vfs".
    pub kinds: Vec<String>,
    /// For column/preview plugins: file extensions handled (lowercase, no dot).
    pub extensions: Vec<String>,
    /// Requested capabilities: "read-files", "write-files".
    pub permissions: Vec<String>,
    /// Column header, for column plugins.
    pub column_title: String,
    /// Menu label, for command plugins.
    pub command_label: String,
}

/// Whether `s` holds `x`.
pub open spec fn lists(s: Seq<String>, x: Seq<char>) -> bool {
    exists|i: int| 0 <= i < s.len() && (#[trigger] s[i])@ == x
}

fn find_string(s: &Vec<String>, x: &str) -> (r: bool)
    ensures
        r == lists(s@, x@),
{
    let mut i: usize = 0;
    while i < s.len()
        invariant
            i <= s.len(),
            forall|k: int| 0 <= k < i ==> (#[trigger] s@[k])@ != x@,
        decreases s.len() - i,
    {
        if crate::paths::chars_eq(&crate::text::chars_of(s[i].as_str()), &crate::text::chars_of(x)) {
            return true;
        }
        i += 1;
    }
    false
}

impl PluginManifest {
    /// A command plugin (offers a menu entry).
    pub fn is_command(&self) -> (r: bool)
        ensures
            r == lists(self.kinds@, "command"@),
    {
        find_string(&self.kinds, "command")
    }

    /// A column plugin (adds a file-list column).
    pub fn is_column(&self) -> (r: bool)
        ensures
            r == lists(self.kinds@, "column"@),
    {
        find_string(&self.kinds, "column")
    }

    /// Whether the plugin handles files with extension `ext`: all of them
    /// when it names none.
    pub fn handles_ext(&self, ext: &str) -> (r: bool)
        ensures
            r == (self.extensions@.len() == 0 || lists(self.extensions@, ext@)),
    {
        self.extensions.len() == 0 || find_string(&self.extensions, ext)
    }
}

/// What the user has installed: which plugins, enabled or not, with which
/// permissions granted.
#[derive(Clone, Debug)]
pub struct PluginRegistry {
    pub plugins: Vec<PluginRecord>,
}

#[derive(Clone, Debug)]
pub struct PluginRecord {
    pub path: String,
    pub enabled: bool,
    /// Permissions the user has granted.
    pub granted: Vec<String>,
}

impl Default for PluginRegistry {
    fn default() -> (r: PluginRegistry)
        ensures
            r.plugins@.len() == 0,
    {
        PluginRegistry { plugins: Vec::new() }
    }
}

/// A record with its strings taken as character sequences.
pub open spec fn record_view(r: PluginRecord) -> (Seq<char>, bool, Seq<Seq<char>>) {
    (r.path@, r.enabled, r.granted.deep_view())
}

pub open spec fn records_view(s: Seq<PluginRecord>) -> Seq<(Seq<char>, bool, Seq<Seq<char>>)> {
    s.map_values(|r: PluginRecord| record_view(r))
}

/// The records whose path differs (component-wise) from `path`, in order.
pub open spec fn without_path(s: Seq<(Seq<char>, bool, Seq<Seq<char>>)>, path: Seq<char>) -> Seq<(Seq<char>, bool, Seq<Seq<char>>)>
    decreases s.len(),
{
    if s.len() == 0 {
        s
    } else if components(s.last().0) == components(path) {
        without_path(s.drop_last(), path)
    } else {
        without_path(s.drop_last(), path).push(s.last())
    }
}

fn dup_record(r: &PluginRecord) -> (c: PluginRecord)
    ensures
        record_view(c) == record_view(*r),
{
    PluginRecord { path: r.path.clone(), enabled: r.enabled, granted: crate::ops::dup_strings(&r.granted) }
}

impl PluginRegistry {
    /// Registers a plugin, replacing any earlier record for the same path.
    pub fn upsert(&mut self, record: PluginRecord)
        ensures
            records_view(final(self).plugins@) == without_path(records_view(old(self).plugins@), record.path@).push(record_view(record)),
    {
        let mut old_list: Vec<PluginRecord> = Vec::new();
        std::mem::swap(&mut old_list, &mut self.plugins);
        let ghost ov = records_view(old_list@);
        let mut kept: Vec<PluginRecord> = Vec::new();
        let mut i: usize = 0;
        assert(ov.take(0) =~= Seq::<(Seq<char>, bool, Seq<Seq<char>>)>::empty());
        while i < old_list.len()
            invariant
                i <= old_list.len(),
                ov == records_view(old_list@),
                records_view(kept@) == without_path(ov.take(i as int), record.path@),
            decreases old_list.len() - i,
        {
            assert(ov.take(i + 1).drop_last() =~= ov.take(i as int));
            assert(ov.take(i + 1).last() == record_view(old_list@[i as int]));
            if !same_path(old_list[i].path.as_str(), record.path.as_str()) {
                let c = dup_record(&old_list[i]);
                let ghost before = records_view(kept@);
                kept.push(c);
                assert(records_view(kept@) =~= before.push(record_view(c)));
            }
            i += 1;
        }
        assert(ov.take(old_list.len() as int) =~= ov);
        let ghost before = records_view(kept@);
        let ghost rv = record_view(record);
        kept.push(record);
        assert(records_view(kept@) =~= before.push(rv));
        self.plugins = kept;
    }

    /// Enables or disables every record for `path`.
    pub fn set_enabled(&mut self, path: &str, enabled: bool)
        ensures
            final(self).plugins@.len() == old(self).plugins@.len(),
            forall|i: int| 0 <= i < old(self).plugins@.len() ==> record_view(#[trigger] final(self).plugins@[i]) == (if components(old(self).plugins@[i].path@) == components(path@) {
                (old(self).plugins@[i].path@, enabled, old(self).plugins@[i].granted.deep_view())
            } else {
                record_view(old(self).plugins@[i])
            }),
    {
        let mut i: usize = 0;
        while i < self.plugins.len()
            invariant
                i <= self.plugins.len(),
                self.plugins@.len() == old(self).plugins@.len(),
                forall|k: int| i <= k < self.plugins@.len() ==> #[trigger] self.plugins@[k] == old(self).plugins@[k],
                forall|k: int| 0 <= k < i ==> record_view(#[trigger] self.plugins@[k]) == (if components(old(self).plugins@[k].path@) == components(path@) {
                    (old(self).plugins@[k].path@, enabled, old(self).plugins@[k].granted.deep_view())
                } else {
                    record_view(old(self).plugins@[k])
                }),
            decreases self.plugins.len() - i,
        {
            if same_path(self.plugins[i].path.as_str(), path) {
                let r = self.plugins.remove(i);
                let nr = PluginRecord { enabled, ..r };
                self.plugins.insert(i, nr);
            }
            i += 1;
        }
    }

    /// Grants `permission` to every record for `path` that lacks it.
    pub fn grant(&mut self, path: &str, permission: &str)
        ensures
            final(self).plugins@.len() == old(self).plugins@.len(),
            forall|i: int| 0 <= i < old(self).plugins@.len() ==> record_view(#[trigger] final(self).plugins@[i]) == (if components(old(self).plugins@[i].path@) == components(path@)
                && !lists(old(self).plugins@[i].granted@, permission@) {
                (old(self).plugins@[i].path@, old(self).plugins@[i].enabled, old(self).plugins@[i].granted.deep_view().push(permission@))
            } else {
                record_view(old(self).plugins@[i])
            }),
    {
        let mut i: usize = 0;
        while i < self.plugins.len()
            invariant
                i <= self.plugins.len(),
                self.plugins@.len() == old(self).plugins@.len(),
                forall|k: int| i <= k < self.plugins@.len() ==> #[trigger] self.plugins@[k] == old(self).plugins@[k],
                forall|k: int| 0 <= k < i ==> record_view(#[trigger] self.plugins@[k]) == (if components(old(self).plugins@[k].path@) == components(path@)
                    && !lists(old(self).plugins@[k].granted@, permission@) {
                    (old(self).plugins@[k].path@, old(self).plugins@[k].enabled, old(self).plugins@[k].granted.deep_view().push(permission@))
                } else {
                    record_view(old(self).plugins@[k])
                }),
            decreases self.plugins.len() - i,
        {
            if same_path(self.plugins[i].path.as_str(), path) && !find_string(&self.plugins[i].granted, permission) {
                let r = self.plugins.remove(i);
                let mut g = r.granted;
                let ghost gv = g.deep_view();
                g.push(owned(permission));
                assert(g.deep_view() =~= gv.push(permission@));
                let nr = PluginRecord { path: r.path, enabled: r.enabled, granted: g };
                self.plugins.insert(i, nr);
            }
            i += 1;
        }
    }
}

/// Whether a record lets its plugin read files.
pub fn granted_read(record: &PluginRecord) -> (r: bool)
    ensures
        r == lists(record.granted@, "read-files"@),
{
    find_string(&record.granted, "read-files")
}

// ------------------------------------------------ command plugin input

/// Lower-case hex digit of `d < 16`.
pub open spec fn hex_lower(d: int) -> char {
    if d < 10 { (48 + d) as char } else { (87 + d) as char }
}

/// How JSON writes one character of a string: `"` and `\` behind a
/// backslash; backspace, form feed, newline, carriage return and tab as
/// `\b`, `\f`, `\n`, `\r`, `\t`; other characters below U+0020 as
/// `\u00` and two lower-case hex digits; everything else as it is.
pub open spec fn json_char(c: char) -> Seq<char> {
    if c == '"' {
        seq!['\\', '"']
    } else if c == '\\' {
        seq!['\\', '\\']
    } else if c as u32 == 8 {
        seq!['\\', 'b']
    } else if c as u32 == 12 {
        seq!['\\', 'f']
    } else if c == '\n' {
        seq!['\\', 'n']
    } else if c == '\r' {
        seq!['\\', 'r']
    } else if c == '\t' {
        seq!['\\', 't']
    } else if (c as u32) < 32 {
        seq!['\\', 'u', '0', '0', hex_lower(c as int / 16), hex_lower(c as int % 16)]
    } else {
        seq![c]
    }
}

/// The escaped characters of a string, without the quotes.
pub open spec fn json_body(s: Seq<char>) -> Seq<char>
    decreases s.len(),
{
    if s.len() == 0 { Seq::empty() } else { json_body(s.drop_last()) + json_char(s.last()) }
}

/// The strings, each quoted and escaped, separated by commas.
pub open spec fn json_items(ps: Seq<Seq<char>>) -> Seq<char>
    decreases ps.len(),
{
    if ps.len() == 0 {
        Seq::empty()
    } else if ps.len() == 1 {
        seq!['"'] + json_body(ps[0]) + seq!['"']
    } else {
        json_items(ps.drop_last()) + seq![','] + seq!['"'] + json_body(ps.last()) + seq!['"']
    }
}

/// A list of strings as a compact JSON array.
pub open spec fn json_array(ps: Seq<Seq<char>>) -> Seq<char> {
    seq!['['] + json_items(ps) + seq![']']
}

/// `serde_json::to_vec` on a list of strings. Its serializer writes `[`,
/// the strings separated by `,`, each in quotes with the escapes of
/// `json_char`, then `]`, into a `Vec`; for strings nothing can fail, so
/// the error arm (which does not occur) gives no bytes.
#[verifier::external_body]
fn json_string_list(paths: &Vec<String>) -> (r: Vec<u8>)
    ensures
        r@ == encode_utf8(json_array(paths.deep_view())),
{
    serde_json::to_vec(paths).unwrap_or_default()
}

/// What a command plugin is started with: whether it may read files, and
/// the selected paths as a JSON array of strings. An index past the
/// installed plugins is refused with "no such plugin".
pub fn command_request(records: &Vec<PluginRecord>, index: usize, paths: &Vec<String>) -> (r: Result<(bool, Vec<u8>), String>)
    ensures
        (r is Err) == (index >= records@.len()),
        r matches Err(e) ==> e@ == "no such plugin"@,
        r matches Ok(v) ==> v.0 == lists(records@[index as int].granted@, "read-files"@)
            && v.1@ == encode_utf8(json_array(paths.deep_view())),
{
    if index >= records.len() {
        return Err(owned("no such plugin"));
    }
    let read = granted_read(&records[index]);
    Ok((read, json_string_list(paths)))
}

/// Most bytes handed into a plugin in one read.
pub const MAX_READ_BYTES: u64 = 67108864;

/// A plugin's read request is served only with the permission granted and
/// for files of at most `MAX_READ_BYTES`.
pub fn read_allowed(granted: bool, file_size: u64) -> (r: bool)
    ensures
        r == (granted && file_size <= MAX_READ_BYTES),
{
    granted && file_size <= MAX_READ_BYTES
}

/// A pointer and length packed into one value: pointer in the high 32
/// bits, length in the low 32 bits.
pub fn pack(ptr: i32, len: i32) -> (r: i64)
    ensures
        r == ((ptr as i64) << 32u64) | ((len as i64) & 0xFFFF_FFFFi64),
{
    ((ptr as i64) << 32u64) | ((len as i64) & 0xFFFF_FFFFi64)
}

/// The pointer and length of a packed value.
pub fn unpack(packed: i64) -> (r: (i32, i32))
    ensures
        r == (((packed >> 32u64) & 0xFFFF_FFFFi64) as i32, (packed & 0xFFFF_FFFFi64) as i32),
{
    (((packed >> 32u64) & 0xFFFF_FFFFi64) as i32, (packed & 0xFFFF_FFFFi64) as i32)
}

/// Unpacking gives back what was packed.
pub proof fn law_unpack_pack(ptr: i32, len: i32)
    ensures
        ((((((ptr as i64) << 32u64) | ((len as i64) & 0xFFFF_FFFFi64)) >> 32u64) & 0xFFFF_FFFFi64) as i32) == ptr,
        (((((ptr as i64) << 32u64) | ((len as i64) & 0xFFFF_FFFFi64)) & 0xFFFF_FFFFi64) as i32) == len,
{
    assert(((((((ptr as i64) << 32u64) | ((len as i64) & 0xFFFF_FFFFi64)) >> 32u64) & 0xFFFF_FFFFi64) as i32) == ptr) by (bit_vector);
    assert((((((ptr as i64) << 32u64) | ((len as i64) & 0xFFFF_FFFFi64)) & 0xFFFF_FFFFi64) as i32) == len) by (bit_vector);
}

/// The value a column plugin shows: none for an empty answer.
pub fn column_text(s: String) -> (r: Option<String>)
    ensures
        s@.len() == 0 ==> r is None,
        s@.len() > 0 ==> r == Some(s),
{
    if s.as_str().is_empty() { None } else { Some(s) }
}

// ----------------------------------------------------- image dimensions

pub open spec fn be16(d: Seq<u8>, i: int) -> int {
    d[i] * 256 + d[i + 1]
}

pub open spec fn le16(d: Seq<u8>, i: int) -> int {
    d[i] + d[i + 1] * 256
}

pub open spec fn be32(d: Seq<u8>, i: int) -> int {
    d[i] * 16777216 + d[i + 1] * 65536 + d[i + 2] * 256 + d[i + 3]
}

pub open spec fn le32(d: Seq<u8>, i: int) -> int {
    d[i] + d[i + 1] * 256 + d[i + 2] * 65536 + d[i + 3] * 16777216
}

/// `i32::from_le_bytes(..).unsigned_abs()` of four bytes.
pub open spec fn le_i32_abs(d: Seq<u8>, i: int) -> int {
    let v = le32(d, i);
    if v < 0x8000_0000 { v } else { 0x1_0000_0000 - v }
}

pub open spec fn starts(d: Seq<u8>, p: Seq<u8>) -> bool {
    p.len() <= d.len() && d.take(p.len() as int) == p
}

/// A start-of-frame marker: C0..CF except C4, C8 and CC.
pub open spec fn is_sof(m: u8) -> bool {
    0xC0 <= m <= 0xCF && m != 0xC4 && m != 0xC8 && m != 0xCC
}

/// Walks a JPEG's segments from `i`: bytes that are not `FF` are skipped
/// one by one; a frame header gives width and height; any other segment
/// is skipped by its length (running past the end finds nothing).
pub open spec fn jpeg_scan(d: Seq<u8>, i: int) -> Option<(u32, u32)>
    decreases d.len() - i,
{
    if i < 2 || i + 9 >= d.len() {
        None
    } else if d[i] != 0xFF {
        jpeg_scan(d, i + 1)
    } else if is_sof(d[i + 1]) {
        Some((be16(d, i + 7) as u32, be16(d, i + 5) as u32))
    } else if i + 2 + be16(d, i + 2) >= d.len() {
        None
    } else {
        jpeg_scan(d, i + 2 + be16(d, i + 2))
    }
}

/// Width and height of a PNG, GIF, BMP or JPEG image, read from its header.
pub open spec fn dimensions_spec(d: Seq<u8>) -> Option<(u32, u32)> {
    if d.len() >= 24 && starts(d, seq![0x89u8, 0x50u8, 0x4Eu8, 0x47u8]) {
        Some((be32(d, 16) as u32, be32(d, 20) as u32))
    } else if d.len() >= 10 && (starts(d, seq![0x47u8, 0x49, 0x46, 0x38, 0x37, 0x61]) || starts(
        d,
        seq![0x47u8, 0x49, 0x46, 0x38, 0x39, 0x61],
    )) {
        Some((le16(d, 6) as u32, le16(d, 8) as u32))
    } else if d.len() >= 26 && starts(d, seq![0x42u8, 0x4D]) {
        Some((le_i32_abs(d, 18) as u32, le_i32_abs(d, 22) as u32))
    } else if d.len() >= 4 && d[0] == 0xFF && d[1] == 0xD8 {
        jpeg_scan(d, 2)
    } else {
        None
    }
}

fn starts_exec(d: &[u8], p: &[u8]) -> (r: bool)
    ensures
        r == starts(d@, p@),
{
    if p.len() > d.len() {
        return false;
    }
    let mut i: usize = 0;
    while i < p.len()
        invariant
            p.len() <= d.len(),
            i <= p.len(),
            forall|k: int| 0 <= k < i ==> d@[k] == p@[k],
        decreases p.len() - i,
    {
        if d[i] != p[i] {
            assert(d@.take(p.len() as int)[i as int] != p@[i as int]);
            return false;
        }
        i += 1;
    }
    assert(d@.take(p.len() as int) =~= p@);
    true
}

fn le_i32_abs_exec(d: &[u8], i: usize) -> (r: u32)
    requires
        i + 4 <= d.len(),
    ensures
        r as int == le_i32_abs(d@, i as int),
{
    let v: u32 = d[i] as u32 + d[i + 1] as u32 * 256 + d[i + 2] as u32 * 65536 + d[i + 3] as u32 * 16777216;
    if v < 0x8000_0000 {
        v
    } else {
        ((0x1_0000_0000u64 - v as u64) as u32)
    }
}

/// Width and height of a JPEG, from its first frame header.
pub fn jpeg_dimensions(d: &[u8]) -> (r: Option<(u32, u32)>)
    ensures
        r == jpeg_scan(d@, 2),
{
    let mut i: usize = 2;
    while i < d.len() && d.len() - i > 9
        invariant
            2 <= i,
            jpeg_scan(d@, 2) == jpeg_scan(d@, i as int),
        decreases d.len() - i,
    {
        if d[i] != 0xFF {
            i += 1;
            continue;
        }
        let marker = d[i + 1];
        if 0xC0 <= marker && marker <= 0xCF && marker != 0xC4 && marker != 0xC8 && marker != 0xCC {
            let h = d[i + 5] as u32 * 256 + d[i + 6] as u32;
            let w = d[i + 7] as u32 * 256 + d[i + 8] as u32;
            return Some((w, h));
        }
        let seg_len = d[i + 2] as usize * 256 + d[i + 3] as usize;
        if seg_len + 2 >= d.len() - i {
            assert(!(i + 2 + seg_len + 9 < d.len()));
            return None;
        }
        i = i + 2 + seg_len;
    }
    None
}

/// Width and height of a PNG, GIF, BMP or JPEG image.
pub fn dimensions(d: &[u8]) -> (r: Option<(u32, u32)>)
    ensures
        r == dimensions_spec(d@),
{
    if d.len() >= 24 && starts_exec(d, &[0x89u8, 0x50, 0x4E, 0x47]) {
        let w = d[16] as u32 * 16777216 + d[17] as u32 * 65536 + d[18] as u32 * 256 + d[19] as u32;
        let h = d[20] as u32 * 16777216 + d[21] as u32 * 65536 + d[22] as u32 * 256 + d[23] as u32;
        return Some((w, h));
    }
    if d.len() >= 10 && (starts_exec(d, &[0x47u8, 0x49, 0x46, 0x38, 0x37, 0x61]) || starts_exec(
        d,
        &[0x47u8, 0x49, 0x46, 0x38, 0x39, 0x61],
    )) {
        let w = d[6] as u32 + d[7] as u32 * 256;
        let h = d[8] as u32 + d[9] as u32 * 256;
        return Some((w, h));
    }
    if d.len() >= 26 && starts_exec(d, &[0x42u8, 0x4D]) {
        let w = le_i32_abs_exec(d, 18);
        let h = le_i32_abs_exec(d, 22);
        return Some((w, h));
    }
    if d.len() >= 4 && d[0] == 0xFF && d[1] == 0xD8 {
        return jpeg_dimensions(d);
    }
    None
}

// ----------------------------------------------------------------- crc32

/// One bit step of the reflected CRC-32 (polynomial EDB88320).
pub open spec fn crc_step(c: u32) -> u32 {
    if c & 1 != 0 { 0xEDB8_8320u32 ^ (c >> 1u32) } else { c >> 1u32 }
}

/// `n` bit steps.
pub open spec fn crc_steps(c: u32, n: nat) -> u32
    decreases n,
{
    if n == 0 { c } else { crc_step(crc_steps(c, (n - 1) as nat)) }
}

/// The CRC register after the bytes `d`, from `init`.
pub open spec fn crc_run(init: u32, d: Seq<u8>) -> u32
    decreases d.len(),
{
    if d.len() == 0 {
        init
    } else {
        let c = crc_run(init, d.drop_last());
        crc_steps(c ^ (d.last() as u32), 8)
    }
}

/// The CRC-32 (IEEE) of `d`.
pub open spec fn crc32_spec(d: Seq<u8>) -> u32 {
    crc_run(0xFFFF_FFFFu32, d) ^ 0xFFFF_FFFFu32
}

fn crc_byte(c: u32) -> (r: u32)
    ensures
        r == crc_steps(c, 8),
{
    let mut x = c;
    let mut k: u32 = 0;
    while k < 8
        invariant
            k <= 8,
            x == crc_steps(c, k as nat),
        decreases 8 - k,
    {
        x = if x & 1 != 0 { 0xEDB8_8320u32 ^ (x >> 1u32) } else { x >> 1u32 };
        k += 1;
    }
    x
}

/// Eight bit steps on `c ^ b` are the table entry for the low byte of
/// `c ^ b` combined with `c` shifted down a byte.
proof fn lemma_crc_table(c: u32, b: u32)
    requires
        b < 256,
    ensures
        crc_steps(c ^ b, 8) == crc_steps((c ^ b) & 0xFF, 8) ^ (c >> 8u32),
{
    reveal_with_fuel(crc_steps, 9);
    let x = c ^ b;
    assert(crc_step(crc_step(crc_step(crc_step(crc_step(crc_step(crc_step(crc_step(x)))))))) == crc_step(crc_step(crc_step(crc_step(crc_step(crc_step(crc_step(crc_step(x & 0xFF)))))))) ^ (c >> 8u32)) by (bit_vector)
        requires
            x == c ^ b,
            b < 256;
}

/// CRC-32 (IEEE) of `data`, by table.
pub fn crc32(data: &[u8]) -> (r: u32)
    ensures
        r == crc32_spec(data@),
{
    let mut table: Vec<u32> = Vec::new();
    let mut i: u32 = 0;
    while i < 256
        invariant
            i <= 256,
            table@.len() == i,
            forall|k: int| 0 <= k < i ==> #[trigger] table@[k] == crc_steps(k as u32, 8),
        decreases 256 - i,
    {
        table.push(crc_byte(i));
        i += 1;
    }
    let mut crc: u32 = 0xFFFF_FFFF;
    let mut j: usize = 0;
    assert(data@.take(0) =~= Seq::<u8>::empty());
    while j < data.len()
        invariant
            j <= data.len(),
            table@.len() == 256,
            forall|k: int| 0 <= k < 256 ==> #[trigger] table@[k] == crc_steps(k as u32, 8),
            crc == crc_run(0xFFFF_FFFFu32, data@.take(j as int)),
        decreases data.len() - j,
    {
        assert(data@.take(j + 1).drop_last() =~= data@.take(j as int));
        let b = data[j] as u32;
        let idx = (crc ^ b) & 0xFF;
        assert(idx < 256) by (bit_vector)
            requires
                idx == (crc ^ b) & 0xFF;
        proof {
            lemma_crc_table(crc, b);
            assert(table@[idx as int] == crc_steps(idx, 8));
        }
        crc = table[idx as usize] ^ (crc >> 8u32);
        j += 1;
    }
    assert(data@.take(data.len() as int) =~= data@);
    crc ^ 0xFFFF_FFFF
}


// ----------------------------------------------------- plugin output texts

/// `n` in upper-case hex, at least eight digits.
pub open spec fn hex8(n: u32) -> Seq<char> {
    crate::text::zero_pad(crate::preview::hex_spec(n as nat), 8)
}

fn push_hex8(out: &mut String, n: u32)
    ensures
        final(out)@ == old(out)@ + hex8(n),
{
    let digits = crate::preview::hex_of(n as u64);
    let ghost start = out@;
    let mut pad: usize = digits.len();
    while pad < 8
        invariant
            digits@ == crate::preview::hex_spec(n as nat),
            digits.len() <= pad <= 8 || (pad == digits.len() && pad >= 8),
            out@ == start + Seq::new((pad - digits.len()) as nat, |i: int| '0'),
        decreases 8 - pad,
    {
        crate::text::push_char(out, '0');
        pad += 1;
        assert(out@ =~= start + Seq::new((pad - digits.len()) as nat, |i: int| '0'));
    }
    let ghost lead = out@;
    let mut k: usize = 0;
    while k < digits.len()
        invariant
            k <= digits.len(),
            out@ == lead + digits@.take(k as int),
        decreases digits.len() - k,
    {
        crate::text::push_char(out, digits[k]);
        k += 1;
        assert(out@ =~= lead + digits@.take(k as int));
    }
    assert(digits@.take(digits.len() as int) =~= digits@);
    assert(out@ =~= start + hex8(n));
}

/// The checksum plugin's line for one file: its CRC-32 in eight upper-case
/// hex digits and its size, or a note that it could not be read.
pub open spec fn crc_line_spec(path: Seq<char>, data: Option<Seq<u8>>) -> Seq<char> {
    match data {
        Some(d) => path + ": "@ + hex8(crc32_spec(d)) + " ("@ + crate::text::decimal_spec(d.len()) + " bytes)\n"@,
        None => path + ": <unreadable or permission not granted>\n"@,
    }
}

/// The checksum plugin's report: one line per file, in order, or a note
/// that nothing was selected.
pub open spec fn crc_report_spec(paths: Seq<Seq<char>>, data: Seq<Option<Seq<u8>>>) -> Seq<char> {
    let lines = crc_lines(paths, data);
    if lines.len() == 0 { "No files selected."@ } else { lines }
}

pub open spec fn crc_lines(paths: Seq<Seq<char>>, data: Seq<Option<Seq<u8>>>) -> Seq<char>
    decreases paths.len(),
{
    if paths.len() == 0 {
        Seq::empty()
    } else {
        crc_lines(paths.drop_last(), data) + crc_line_spec(paths.last(), data[paths.len() - 1])
    }
}

pub open spec fn opt_bytes(o: Option<Vec<u8>>) -> Option<Seq<u8>> {
    match o {
        Some(v) => Some(v@),
        None => None,
    }
}

/// The checksum plugin's report for `paths`, where `data[i]` is what
/// reading `paths[i]` gave (nothing when it was refused).
pub fn crc_report(paths: &Vec<String>, data: &Vec<Option<Vec<u8>>>) -> (r: String)
    requires
        data.len() == paths.len(),
    ensures
        r@ == crc_report_spec(paths.deep_view(), data@.map_values(|o: Option<Vec<u8>>| opt_bytes(o))),
{
    proof {
        reveal_strlit(": ");
        reveal_strlit(" (");
        reveal_strlit(" bytes)\n");
        reveal_strlit(": <unreadable or permission not granted>\n");
    }
    let ghost pv = paths.deep_view();
    let ghost dv = data@.map_values(|o: Option<Vec<u8>>| opt_bytes(o));
    let mut out = String::new();
    let mut i: usize = 0;
    assert(pv.take(0) =~= Seq::<Seq<char>>::empty());
    while i < paths.len()
        invariant
            i <= paths.len(),
            data.len() == paths.len(),
            pv == paths.deep_view(),
            dv == data@.map_values(|o: Option<Vec<u8>>| opt_bytes(o)),
            out@ == crc_lines(pv.take(i as int), dv),
        decreases paths.len() - i,
    {
        let ghost before = out@;
        out.append(paths[i].as_str());
        match &data[i] {
            Some(d) => {
                out.append(": ");
                push_hex8(&mut out, crc32(d.as_slice()));
                out.append(" (");
                let n = crate::text::decimal(d.len() as u64);
                out.append(n.as_str());
                out.append(" bytes)\n");
            },
            None => {
                out.append(": <unreadable or permission not granted>\n");
            },
        }
        proof {
            assert(pv.take(i + 1).drop_last() =~= pv.take(i as int));
            assert(pv.take(i + 1).last() == paths@[i as int]@);
            assert(dv[i as int] == opt_bytes(data@[i as int]));
        }
        assert(out@ =~= before + crc_line_spec(paths@[i as int]@, dv[i as int]));
        i += 1;
    }
    assert(pv.take(paths.len() as int) =~= pv);
    if out.as_str().is_empty() {
        proof {
            reveal_strlit("No files selected.");
        }
        return crate::text::owned("No files selected.");
    }
    out
}

/// The dimensions column's text for an image's bytes: `W x H`, or nothing
/// for a format it does not read.
pub fn dimensions_text(d: &[u8]) -> (r: Option<String>)
    ensures
        match dimensions_spec(d@) {
            Some((w, h)) => r matches Some(t) && t@ == crate::text::decimal_spec(w as nat) + " x "@
                + crate::text::decimal_spec(h as nat),
            None => r is None,
        },
{
    proof {
        reveal_strlit(" x ");
    }
    match dimensions(d) {
        Some((w, h)) => {
            let mut s = crate::text::decimal(w as u64);
            s.append(" x ");
            let hs = crate::text::decimal(h as u64);
            s.append(hs.as_str());
            Some(s)
        },
        None => None,
    }
}


// ------------------------------------------------- the command's path list

/// `std::str::from_utf8`: the text when the bytes are valid UTF-8, as its
/// documentation says; the error otherwise.
#[verifier::external_body]
fn utf8_str(b: &[u8]) -> (r: Option<String>)
    ensures
        r is Some == valid_utf8(b@),
        r matches Some(t) ==> t@ == decode_utf8(b@),
{
    match std::str::from_utf8(b) {
        Ok(t) => Some(t.to_string()),
        Err(_) => None,
    }
}

/// `char::from_u32`: the character with that code, none for surrogates and
/// codes past U+10FFFF, as its documentation says.
#[verifier::external_body]
pub(crate) fn char_from_code(code: u32) -> (r: Option<char>)
    ensures
        r is Some == (code < 0xD800 || (0xE000 <= code && code <= 0x10FFFF)),
        r matches Some(c) ==> c as u32 == code,
{
    char::from_u32(code)
}

/// The bytes a UTF-8 sequence starting with `b` takes, as the plugin
/// guesses them from the first byte.
pub open spec fn lead_width(b: u8) -> int {
    if b <= 0x7F { 1 } else if 0xC0 <= b <= 0xDF { 2 } else if 0xE0 <= b <= 0xEF { 3 } else { 4 }
}

/// The value of an ASCII hex digit.
pub open spec fn hex_digit_value(c: u8) -> Option<u32> {
    if 48 <= c <= 57 {
        Some((c - 48) as u32)
    } else if 97 <= c <= 102 {
        Some((c - 87) as u32)
    } else if 65 <= c <= 70 {
        Some((c - 55) as u32)
    } else {
        None
    }
}

/// The value of a run of hex digits (zero when empty), none if any byte is
/// not one.
pub open spec fn hex_run(q: Seq<u8>) -> Option<int>
    decreases q.len(),
{
    if q.len() == 0 {
        Some(0)
    } else {
        match (hex_run(q.drop_last()), hex_digit_value(q.last())) {
            (Some(v), Some(d)) => Some(v * 16 + d),
            _ => None,
        }
    }
}

/// `u32::from_str_radix(_, 16)` on four bytes: an optional `+`, then only
/// hex digits.
pub open spec fn hex4(q: Seq<u8>) -> Option<int> {
    let d = if q.len() > 0 && q[0] == 43u8 { q.drop_first() } else { q };
    if d.len() == 0 { None } else { hex_run(d) }
}

/// What the plugin does at byte `i` inside a quoted string: the characters
/// it adds and where it goes on; none where it would slice the text off a
/// character boundary (and stop).
pub open spec fn body_step(b: Seq<u8>, i: int) -> Option<(Seq<char>, int)> {
    if b[i] == 92u8 && i + 1 < b.len() {
        let e = b[i + 1];
        if e == 34u8 {
            Some((seq!['"'], i + 2))
        } else if e == 92u8 {
            Some((seq!['\\'], i + 2))
        } else if e == 47u8 {
            Some((seq!['/'], i + 2))
        } else if e == 110u8 {
            Some((seq!['\n'], i + 2))
        } else if e == 116u8 {
            Some((seq!['\t'], i + 2))
        } else if e == 114u8 {
            Some((seq!['\r'], i + 2))
        } else if e == 117u8 && i + 5 < b.len() {
            if !is_char_boundary(b, i + 2) || !is_char_boundary(b, i + 6) {
                None
            } else {
                let piece = match hex4(b.subrange(i + 2, i + 6)) {
                    Some(code) => if code < 0xD800 || (0xE000 <= code && code <= 0x10FFFF) {
                        seq![(code as u32) as char]
                    } else {
                        Seq::empty()
                    },
                    None => Seq::empty(),
                };
                Some((piece, i + 6))
            }
        } else {
            Some((Seq::empty(), i + 2))
        }
    } else {
        let n = lead_width(b[i]);
        let chunk = b.subrange(i, if i + n < b.len() { i + n } else { b.len() as int });
        Some((if valid_utf8(chunk) { decode_utf8(chunk) } else { Seq::empty() }, i + n))
    }
}

/// A quoted string's characters from byte `i` up to its closing quote (or
/// the end), and where it stopped.
pub open spec fn string_body(b: Seq<u8>, i: int) -> Option<(Seq<char>, int)>
    decreases b.len() - i,
{
    if i < 0 || i >= b.len() || b[i] == 34u8 {
        Some((Seq::empty(), i))
    } else {
        match body_step(b, i) {
            Some((piece, next)) => if next <= i {
                None
            } else if next >= b.len() {
                Some((piece, next))
            } else {
                match string_body(b, next) {
                    Some((rest, end)) => Some((piece + rest, end)),
                    None => None,
                }
            },
            None => None,
        }
    }
}

/// The strings of a JSON array of strings from byte `i` on, as the plugin
/// reads them: each `"` opens one, read up to the next unescaped `"`;
/// bytes between strings are skipped.
pub open spec fn json_strings_from(b: Seq<u8>, i: int) -> Option<Seq<Seq<char>>>
    decreases b.len() - i,
{
    if i < 0 || i >= b.len() {
        Some(Seq::empty())
    } else if b[i] == 34u8 {
        match string_body(b, i + 1) {
            Some((cur, end)) => if end + 1 <= i {
                None
            } else if end + 1 >= b.len() {
                Some(seq![cur])
            } else {
                match json_strings_from(b, end + 1) {
                    Some(r) => Some(seq![cur] + r),
                    None => None,
                }
            },
            None => None,
        }
    } else {
        json_strings_from(b, i + 1)
    }
}

proof fn lemma_body_end(b: Seq<u8>, i: int)
    requires
        0 <= i,
        string_body(b, i) is Some,
    ensures
        string_body(b, i).unwrap().1 >= i,
    decreases b.len() - i,
{
    if i < b.len() && b[i] != 34u8 {
        let (piece, next) = body_step(b, i).unwrap();
        if next < b.len() && next > i {
            lemma_body_end(b, next);
        }
    }
}

fn hex_value(d: u8) -> (r: Option<u32>)
    ensures
        r == hex_digit_value(d),
{
    if 48 <= d && d <= 57 {
        Some((d - 48) as u32)
    } else if 97 <= d && d <= 102 {
        Some((d - 87) as u32)
    } else if 65 <= d && d <= 70 {
        Some((d - 55) as u32)
    } else {
        None
    }
}

fn hex4_exec(b: &[u8], lo: usize) -> (r: Option<u32>)
    requires
        lo + 4 <= b.len(),
    ensures
        match hex4(b@.subrange(lo as int, lo + 4)) {
            Some(v) => r matches Some(x) && x as int == v,
            None => r is None,
        },
{
    let ghost q = b@.subrange(lo as int, lo + 4);
    let start: usize = if b[lo] == 43u8 { lo + 1 } else { lo };
    let ghost d = if q.len() > 0 && q[0] == 43u8 { q.drop_first() } else { q };
    assert(d =~= b@.subrange(start as int, lo + 4));
    let mut v: u32 = 0;
    let mut k: usize = start;
    assert(d.take(0) =~= Seq::<u8>::empty());
    while k < lo + 4
        invariant
            lo + 4 <= b.len(),
            start <= k <= lo + 4,
            start == lo || start == lo + 1,
            q == b@.subrange(lo as int, lo + 4),
            d == (if q.len() > 0 && q[0] == 43u8 { q.drop_first() } else { q }),
            d =~= b@.subrange(start as int, lo + 4),
            hex_run(d.take(k - start)) == Some(v as int),
            k - start <= 0 ==> v < 1,
            k - start <= 1 ==> v < 16,
            k - start <= 2 ==> v < 256,
            k - start <= 3 ==> v < 4096,
            v < 65536,
        decreases lo + 4 - k,
    {
        assert(d.take(k + 1 - start).drop_last() =~= d.take(k - start));
        assert(d.take(k + 1 - start).last() == b@[k as int]);
        match hex_value(b[k]) {
            Some(x) => {
                v = v * 16 + x;
            },
            None => {
                proof {
                    assert(d[k - start] == b@[k as int]);
                    lemma_hex_run_none(d, k - start);
                }
                return None;
            },
        }
        k += 1;
    }
    assert(d.take(d.len() as int) =~= d);
    if start == lo + 4 {
        return None;
    }
    Some(v)
}

proof fn lemma_hex_run_none(d: Seq<u8>, k: int)
    requires
        0 <= k < d.len(),
        hex_digit_value(d[k]) is None,
    ensures
        hex_run(d) is None,
    decreases d.len(),
{
    if k < d.len() - 1 {
        assert(d.drop_last()[k] == d[k]);
        lemma_hex_run_none(d.drop_last(), k);
    }
}


fn lead_width_exec(x: u8) -> (r: usize)
    ensures
        r as int == lead_width(x),
{
    if x <= 0x7F { 1 } else if 0xC0 <= x && x <= 0xDF { 2 } else if 0xE0 <= x && x <= 0xEF { 3 } else { 4 }
}

fn one_char(c: char) -> (r: String)
    ensures
        r@ == seq![c],
{
    let mut t = String::new();
    crate::text::push_char(&mut t, c);
    assert(t@ =~= seq![c]);
    t
}

fn body_step_exec(b: &[u8], i: usize) -> (r: (String, usize))
    requires
        i < b.len(),
        b.len() + 8 <= usize::MAX,
        body_step(b@, i as int) is Some,
    ensures
        body_step(b@, i as int) == Some((r.0@, r.1 as int)),
{
    if b[i] == 92u8 && i + 1 < b.len() {
        let e = b[i + 1];
        if e == 34u8 {
            (one_char('"'), i + 2)
        } else if e == 92u8 {
            (one_char('\\'), i + 2)
        } else if e == 47u8 {
            (one_char('/'), i + 2)
        } else if e == 110u8 {
            (one_char('\n'), i + 2)
        } else if e == 116u8 {
            (one_char('\t'), i + 2)
        } else if e == 114u8 {
            (one_char('\r'), i + 2)
        } else if e == 117u8 && i + 5 < b.len() {
            let piece = match hex4_exec(b, i + 2) {
                Some(code) => match char_from_code(code) {
                    Some(c) => {
                        proof {
                            vstd::utf8::char_u32_cast(c, code);
                        }
                        one_char(c)
                    },
                    None => String::new(),
                },
                None => String::new(),
            };
            assert(piece@.len() == 0 ==> piece@ =~= Seq::<char>::empty());
            (piece, i + 6)
        } else {
            let t = String::new();
            assert(t@ =~= Seq::<char>::empty());
            (t, i + 2)
        }
    } else {
        let n = lead_width_exec(b[i]);
        let end = if i + n < b.len() { i + n } else { b.len() };
        let chunk = vstd::slice::slice_subrange(b, i, end);
        match utf8_str(chunk) {
            Some(t) => (t, i + n),
            None => {
                let t = String::new();
                assert(t@ =~= Seq::<char>::empty());
                (t, i + n)
            },
        }
    }
}

/// Reads the path list a command gets: the strings of a JSON array of
/// strings (see `json_strings_from`); escapes `\"`, `\\`, `\/`, `\n`, `\t`,
/// `\r` and `\uXXXX` are decoded, other escapes dropped.
pub fn parse_json_string_array(s: &str) -> (r: Vec<String>)
    requires
        json_strings_from(encode_utf8(s@), 0) is Some,
        encode_utf8(s@).len() + 8 <= usize::MAX,
    ensures
        r.deep_view() == json_strings_from(encode_utf8(s@), 0).unwrap(),
{
    let b = s.as_bytes();
    let mut out: Vec<String> = Vec::new();
    let mut i: usize = 0;
    assert(out.deep_view() + json_strings_from(b@, 0).unwrap() =~= json_strings_from(b@, 0).unwrap());
    while i < b.len()
        invariant
            b@ == encode_utf8(s@),
            b.len() + 8 <= usize::MAX,
            i <= b.len() + 5,
            json_strings_from(b@, i as int) is Some,
            json_strings_from(b@, 0) == Some(out.deep_view() + json_strings_from(b@, i as int).unwrap()),
        decreases b.len() + 8 - i,
    {
        if b[i] == 34u8 {
            let ghost i0 = i as int;
            let ghost st = i0 + 1;
            proof {
                lemma_body_end(b@, st);
            }
            let mut cur = String::new();
            i += 1;
            assert(cur@ + string_body(b@, st).unwrap().0 =~= string_body(b@, st).unwrap().0);
            while i < b.len() && b[i] != 34u8
                invariant
                    b.len() + 8 <= usize::MAX,
                    st <= i <= b.len() + 4,
                    string_body(b@, st) is Some,
                    string_body(b@, i as int) is Some,
                    string_body(b@, st) == Some((cur@ + string_body(b@, i as int).unwrap().0, string_body(b@, i as int).unwrap().1)),
                decreases b.len() + 8 - i,
            {
                let (piece, next) = body_step_exec(b, i);
                let ghost before = cur@;
                cur.append(piece.as_str());
                proof {
                    if next as int >= b.len() {
                        assert(string_body(b@, next as int) == Some((Seq::<char>::empty(), next as int)));
                        assert(cur@ + Seq::<char>::empty() =~= cur@);
                    } else {
                        assert(before + (piece@ + string_body(b@, next as int).unwrap().0) =~= cur@ + string_body(b@, next as int).unwrap().0);
                    }
                }
                i = next;
            }
            proof {
                assert(string_body(b@, i as int) == Some((Seq::<char>::empty(), i as int)));
                assert(cur@ + Seq::<char>::empty() =~= cur@);
            }
            let ghost before = out.deep_view();
            out.push(cur);
            proof {
                assert(out.deep_view() =~= before.push(cur@));
                if i + 1 >= b.len() {
                    assert(json_strings_from(b@, i0) == Some(seq![cur@]));
                    assert(json_strings_from(b@, i + 1) == Some(Seq::<Seq<char>>::empty()));
                    assert(before + seq![cur@] =~= out.deep_view() + Seq::<Seq<char>>::empty());
                } else {
                    assert(before + (seq![cur@] + json_strings_from(b@, i + 1).unwrap()) =~= out.deep_view() + json_strings_from(b@, i + 1).unwrap());
                }
            }
            i += 1;
        } else {
            i += 1;
        }
    }
    proof {
        assert(json_strings_from(b@, i as int) == Some(Seq::<Seq<char>>::empty()));
        assert(out.deep_view() + Seq::<Seq<char>>::empty() =~= out.deep_view());
    }
    out
}

} // verus!
