//! The NTFS change journal as the file-name index reads it: a buffer of
//! version-2 records, and what each record does to the index.
use vstd::prelude::*;
use std::collections::HashMap;
use crate::everything::{from_utf16_lossy, utf16_decode};
use crate::rename::{lower_string, unicode_lower};
use crate::text::push_char;

verus! {

broadcast use vstd::std_specs::hash::group_hash_axioms;

/// Bytes of a version-2 record up to its name.
pub const USN_RECORD_LEN: usize = 64;

pub const USN_REASON_FILE_CREATE: u32 = 0x0000_0100;
pub const USN_REASON_FILE_DELETE: u32 = 0x0000_0200;
pub const USN_REASON_RENAME_OLD_NAME: u32 = 0x0000_1000;
pub const USN_REASON_RENAME_NEW_NAME: u32 = 0x0000_2000;

/// One journal record.
#[derive(Clone, Debug)]
pub struct UsnRecord {
    pub frn: u64,
    pub parent: u64,
    pub reason: u32,
    pub attributes: u32,
    pub name: String,
}

pub open spec fn le16(b: Seq<u8>, i: int) -> int {
    b[i] + 256 * b[i + 1]
}

pub open spec fn le32(b: Seq<u8>, i: int) -> int {
    b[i] + 256 * b[i + 1] + 65536 * b[i + 2] + 16777216 * b[i + 3]
}

pub open spec fn le64(b: Seq<u8>, i: int) -> int {
    le32(b, i) + 4294967296 * le32(b, i + 4)
}

/// The UTF-16 units `n` units long at byte `at`.
pub open spec fn units_at(b: Seq<u8>, at: int, n: nat) -> Seq<u16>
    decreases n,
{
    if n == 0 { Seq::empty() } else { units_at(b, at, (n - 1) as nat).push(le16(b, at + 2 * (n - 1)) as u16) }
}

/// A record as (file, parent, reason, attributes, name).
pub open spec fn rec_view(r: UsnRecord) -> (u64, u64, u32, u32, Seq<char>) {
    (r.frn, r.parent, r.reason, r.attributes, r.name@)
}

/// The record at `off`, when its name lies inside the buffer.
pub open spec fn record_at(b: Seq<u8>, off: int) -> Option<(u64, u64, u32, u32, Seq<char>)> {
    let name_at = off + le16(b, off + 58);
    let name_len = le16(b, off + 56) / 2;
    if name_at + 2 * name_len > b.len() {
        None
    } else {
        Some((le64(b, off + 8) as u64, le64(b, off + 16) as u64, le32(b, off + 40) as u32, le32(b, off + 52) as u32,
            utf16_decode(units_at(b, name_at, name_len as nat))))
    }
}

/// The version-2 records of a buffer from `off`, walked by their lengths:
/// the walk ends where a whole header no longer fits, at a zero or
/// overlong length, or at a name that runs past the buffer; records of
/// other versions are stepped over.
pub open spec fn records_from(b: Seq<u8>, off: int) -> Seq<(u64, u64, u32, u32, Seq<char>)>
    decreases b.len() - off,
{
    if off < 0 || off + USN_RECORD_LEN > b.len() {
        Seq::empty()
    } else {
        let len = le32(b, off);
        if len == 0 || off + len > b.len() {
            Seq::empty()
        } else if le16(b, off + 4) != 2 {
            records_from(b, off + len)
        } else {
            match record_at(b, off) {
                None => Seq::empty(),
                Some(r) => seq![r] + records_from(b, off + len),
            }
        }
    }
}

fn rd16(b: &[u8], i: usize) -> (r: u16)
    requires
        i + 2 <= b.len(),
    ensures
        r as int == le16(b@, i as int),
{
    b[i] as u16 + 256 * b[i + 1] as u16
}

fn rd32(b: &[u8], i: usize) -> (r: u32)
    requires
        i + 4 <= b.len(),
    ensures
        r as int == le32(b@, i as int),
{
    b[i] as u32 + 256 * b[i + 1] as u32 + 65536 * b[i + 2] as u32 + 16777216 * b[i + 3] as u32
}

fn rd64(b: &[u8], i: usize) -> (r: u64)
    requires
        i + 8 <= b.len(),
    ensures
        r as int == le64(b@, i as int),
{
    rd32(b, i) as u64 + 4294967296 * rd32(b, i + 4) as u64
}

/// The records of a journal buffer (see `records_from`).
pub fn parse_usn_records(b: &[u8]) -> (r: Vec<UsnRecord>)
    ensures
        r@.map_values(|x: UsnRecord| rec_view(x)) == records_from(b@, 0),
{
    let mut out: Vec<UsnRecord> = Vec::new();
    let mut off: usize = 0;
    let ghost whole = records_from(b@, 0);
    assert(whole =~= Seq::<(u64, u64, u32, u32, Seq<char>)>::empty() + records_from(b@, 0));
    while off < b.len() && b.len() - off >= USN_RECORD_LEN
        invariant
            off <= b.len(),
            whole == records_from(b@, 0),
            whole == out@.map_values(|x: UsnRecord| rec_view(x)) + records_from(b@, off as int),
        ensures
            records_from(b@, off as int) =~= Seq::empty(),
        decreases b.len() - off,
    {
        let len = rd32(b, off) as usize;
        if len == 0 || len > b.len() - off {
            assert(records_from(b@, off as int) =~= Seq::empty());
            break;
        }
        let ghost before = out@.map_values(|x: UsnRecord| rec_view(x));
        if rd16(b, off + 4) == 2 {
            let noff = rd16(b, off + 58) as usize;
            if noff > b.len() - off {
                assert(records_from(b@, off as int) =~= Seq::empty());
                break;
            }
            let name_at = off + noff;
            let name_len = rd16(b, off + 56) as usize / 2;
            if name_len > (b.len() - name_at) / 2 {
                assert(records_from(b@, off as int) =~= Seq::empty());
                break;
            }
            let mut units: Vec<u16> = Vec::new();
            let mut k: usize = 0;
            while k < name_len
                invariant
                    k <= name_len,
                    name_at + 2 * name_len <= b.len(),
                    units@ == units_at(b@, name_at as int, k as nat),
                decreases name_len - k,
            {
                units.push(rd16(b, name_at + 2 * k));
                k += 1;
            }
            let name = from_utf16_lossy(units.as_slice());
            let rec = UsnRecord {
                frn: rd64(b, off + 8),
                parent: rd64(b, off + 16),
                reason: rd32(b, off + 40),
                attributes: rd32(b, off + 52),
                name,
            };
            out.push(rec);
            assert(out@.map_values(|x: UsnRecord| rec_view(x)) =~= before.push(rec_view(rec)));
        }
        off = off + len;
    }
    assert(out@.map_values(|x: UsnRecord| rec_view(x)) =~= whole);
    out
}

/// One file of the index.
#[derive(Clone, Debug)]
pub struct IndexEntry {
    pub parent: u64,
    pub name: String,
    pub name_lower: String,
    pub is_dir: bool,
}

/// The entry a record describes: its parent, its name and the name
/// lowercased, and whether it is a folder.
pub open spec fn entry_of(r: (u64, u64, u32, u32, Seq<char>)) -> (u64, Seq<char>, Seq<char>, bool) {
    (r.1, r.4, unicode_lower(r.4), r.3 & 0x10u32 != 0)
}

pub open spec fn entry_view(e: IndexEntry) -> (u64, Seq<char>, Seq<char>, bool) {
    (e.parent, e.name@, e.name_lower@, e.is_dir)
}

/// The index as a map from file reference numbers to entries.
pub open spec fn index_view(m: Map<u64, IndexEntry>) -> Map<u64, (u64, Seq<char>, Seq<char>, bool)> {
    Map::new(|k: u64| m.dom().contains(k), |k: u64| entry_view(m[k]))
}

fn entry_for(r: &UsnRecord) -> (e: IndexEntry)
    ensures
        entry_view(e) == entry_of(rec_view(*r)),
{
    IndexEntry {
        parent: r.parent,
        name: r.name.clone(),
        name_lower: lower_string(r.name.as_str()),
        is_dir: r.attributes & 0x10 != 0,
    }
}

/// Adds the file a record describes, replacing what was known of it.
pub fn index_insert(entries: &mut HashMap<u64, IndexEntry>, r: &UsnRecord)
    ensures
        index_view(final(entries)@) == index_view(old(entries)@).insert(r.frn, entry_of(rec_view(*r))),
{
    let e = entry_for(r);
    entries.insert(r.frn, e);
    assert(index_view(final(entries)@) =~= index_view(old(entries)@).insert(r.frn, entry_of(rec_view(*r))));
}

/// What a journal record does to the index: a delete or the old side of a
/// rename removes the file; a create or the new side of a rename adds it
/// (both may apply, removal first).
pub open spec fn apply_spec(m: Map<u64, (u64, Seq<char>, Seq<char>, bool)>, r: (u64, u64, u32, u32, Seq<char>)) -> Map<u64, (u64, Seq<char>, Seq<char>, bool)> {
    let removed = if r.2 & USN_REASON_FILE_DELETE != 0 || r.2 & USN_REASON_RENAME_OLD_NAME != 0 {
        m.remove(r.0)
    } else {
        m
    };
    if r.2 & USN_REASON_FILE_CREATE != 0 || r.2 & USN_REASON_RENAME_NEW_NAME != 0 {
        removed.insert(r.0, entry_of(r))
    } else {
        removed
    }
}

/// A record whose reason includes a create or the new side of a rename
/// leaves its file in the index under the record's parent, name and kind; a
/// record with only a delete or the old side of a rename leaves it out; no
/// other file changes.
pub proof fn law_journal_record_effect(m: Map<u64, (u64, Seq<char>, Seq<char>, bool)>, r: (u64, u64, u32, u32, Seq<char>))
    ensures
        (r.2 & USN_REASON_FILE_CREATE != 0 || r.2 & USN_REASON_RENAME_NEW_NAME != 0) ==> {
            &&& apply_spec(m, r).contains_key(r.0)
            &&& apply_spec(m, r)[r.0].0 == r.1
            &&& apply_spec(m, r)[r.0].1 == r.4
            &&& apply_spec(m, r)[r.0].3 == (r.3 & 0x10u32 != 0)
        },
        (r.2 & USN_REASON_FILE_CREATE == 0 && r.2 & USN_REASON_RENAME_NEW_NAME == 0
            && (r.2 & USN_REASON_FILE_DELETE != 0 || r.2 & USN_REASON_RENAME_OLD_NAME != 0))
            ==> !apply_spec(m, r).contains_key(r.0),
        forall|k: u64| k != r.0 ==> (#[trigger] apply_spec(m, r).contains_key(k) == m.contains_key(k))
            && (m.contains_key(k) ==> apply_spec(m, r)[k] == m[k]),
{
}

/// Applies one journal record to the index.
pub fn apply_usn_record(entries: &mut HashMap<u64, IndexEntry>, r: &UsnRecord)
    ensures
        index_view(final(entries)@) == apply_spec(index_view(old(entries)@), rec_view(*r)),
{
    let reason = r.reason;
    if reason & USN_REASON_FILE_DELETE != 0 || reason & USN_REASON_RENAME_OLD_NAME != 0 {
        let _ = entries.remove(&r.frn);
    }
    let ghost mid = index_view(entries@);
    assert(mid =~= (if reason & USN_REASON_FILE_DELETE != 0 || reason & USN_REASON_RENAME_OLD_NAME != 0 {
        index_view(old(entries)@).remove(r.frn)
    } else {
        index_view(old(entries)@)
    }));
    if reason & USN_REASON_FILE_CREATE != 0 || reason & USN_REASON_RENAME_NEW_NAME != 0 {
        index_insert(entries, r);
    }
}

/// The reference number the next enumeration call starts from: the first
/// eight bytes of its answer.
pub fn next_start(b: &[u8]) -> (r: u64)
    requires
        b@.len() >= 8,
    ensures
        r as int == le64(b@, 0),
{
    rd64(b, 0)
}

/// The folder path of file `frn` in an index (`m` from reference numbers
/// to (parent, name, lowercased name, is a folder)), following parents up
/// to the volume's root `root` (written `X:`) in at most `fuel` steps.
pub open spec fn dir_path(m: Map<u64, (u64, Seq<char>, Seq<char>, bool)>, root: u64, drive: char, frn: u64, fuel: nat) -> Option<Seq<char>>
    decreases fuel,
{
    if frn == root {
        Some(seq![drive, ':'])
    } else if fuel == 0 || !m.contains_key(frn) {
        None
    } else {
        match dir_path(m, root, drive, m[frn].0, (fuel - 1) as nat) {
            Some(p) => Some(p + seq!['\\'] + m[frn].1),
            None => None,
        }
    }
}

/// More steps never change a path that was found.
pub proof fn lemma_dir_path_more_fuel(m: Map<u64, (u64, Seq<char>, Seq<char>, bool)>, root: u64, drive: char, frn: u64, f: nat, g: nat)
    requires
        f <= g,
        dir_path(m, root, drive, frn, f) is Some,
    ensures
        dir_path(m, root, drive, frn, g) == dir_path(m, root, drive, frn, f),
    decreases f,
{
    if frn != root {
        lemma_dir_path_more_fuel(m, root, drive, m[frn].0, (f - 1) as nat, (g - 1) as nat);
    }
}

/// A folder path, once found, is the same however many steps were allowed.
pub proof fn lemma_dir_path_unique(m: Map<u64, (u64, Seq<char>, Seq<char>, bool)>, root: u64, drive: char, frn: u64, f: nat, g: nat)
    requires
        dir_path(m, root, drive, frn, f) is Some,
        dir_path(m, root, drive, frn, g) is Some,
    ensures
        dir_path(m, root, drive, frn, g) == dir_path(m, root, drive, frn, f),
{
    if f <= g {
        lemma_dir_path_more_fuel(m, root, drive, frn, f, g);
    } else {
        lemma_dir_path_more_fuel(m, root, drive, frn, g, f);
    }
}

/// Every remembered path is the folder path of its file.
pub open spec fn cache_ok(m: Map<u64, (u64, Seq<char>, Seq<char>, bool)>, root: u64, drive: char, cache: Map<u64, String>) -> bool {
    forall|k: u64| #[trigger] cache.contains_key(k) ==> exists|f: nat| dir_path(m, root, drive, k, f) == Some(cache[k]@)
}

/// A path with one more name: `p\name`.
pub open spec fn ext(p: Option<Seq<char>>, name: Seq<char>) -> Option<Seq<char>> {
    match p {
        Some(q) => Some(q + seq!['\\'] + name),
        None => None,
    }
}

/// The path reached from `base` by adding the names of `chain`, last
/// first (the files of a chain from a file up to an ancestor).
pub open spec fn chain_up(m: Map<u64, (u64, Seq<char>, Seq<char>, bool)>, chain: Seq<u64>, base: Option<Seq<char>>) -> Option<Seq<char>>
    decreases chain.len(),
{
    if chain.len() == 0 {
        base
    } else {
        ext(chain_up(m, chain.drop_first(), base), m[chain[0]].1)
    }
}

/// `chain` leads from its first file up through parents, never at the
/// root, to `cur`.
pub open spec fn walked(m: Map<u64, (u64, Seq<char>, Seq<char>, bool)>, root: u64, chain: Seq<u64>, cur: u64) -> bool {
    &&& forall|j: int| 0 <= j < chain.len() ==> m.contains_key(#[trigger] chain[j]) && chain[j] != root
    &&& forall|j: int| 0 <= j < chain.len() - 1 ==> m[#[trigger] chain[j]].0 == chain[j + 1]
    &&& chain.len() > 0 ==> m[chain.last()].0 == cur
}

proof fn lemma_chain_none(m: Map<u64, (u64, Seq<char>, Seq<char>, bool)>, chain: Seq<u64>)
    ensures
        chain_up(m, chain, None) is None,
    decreases chain.len(),
{
    if chain.len() > 0 {
        lemma_chain_none(m, chain.drop_first());
    }
}

/// Following a walked chain: the folder path of its first file is the
/// path of where it leads, with the chain's names added.
proof fn lemma_walk(m: Map<u64, (u64, Seq<char>, Seq<char>, bool)>, root: u64, drive: char, chain: Seq<u64>, cur: u64, g: nat)
    requires
        walked(m, root, chain, cur),
        chain.len() > 0,
        g >= chain.len(),
    ensures
        dir_path(m, root, drive, chain[0], g) == chain_up(m, chain, dir_path(m, root, drive, cur, (g - chain.len()) as nat)),
    decreases chain.len(),
{
    let rest = chain.drop_first();
    if chain.len() == 1 {
        assert(rest.len() == 0);
    } else {
        assert(walked(m, root, rest, cur)) by {
            assert forall|j: int| 0 <= j < rest.len() - 1 implies m[#[trigger] rest[j]].0 == rest[j + 1] by {
                assert(rest[j] == chain[j + 1] && rest[j + 1] == chain[j + 2]);
            }
            assert forall|j: int| 0 <= j < rest.len() implies m.contains_key(#[trigger] rest[j]) && rest[j] != root by {
                assert(rest[j] == chain[j + 1]);
            }
        }
        lemma_walk(m, root, drive, rest, cur, (g - 1) as nat);
        assert(m[chain[0]].0 == chain[1]);
    }
}

/// Most parents followed when resolving a folder path.
pub const MAX_DEPTH: usize = 128;

/// The folder path of file `frn`: remembered paths are used and the new
/// ones remembered. The answer, when there is one, is the folder path;
/// there always is one when the root lies within `MAX_DEPTH - 1` parents.
pub fn resolve_dir(entries: &HashMap<u64, IndexEntry>, root: u64, frn: u64, drive: char, cache: &mut HashMap<u64, String>) -> (r: Option<String>)
    requires
        cache_ok(index_view(entries@), root, drive, old(cache)@),
    ensures
        cache_ok(index_view(entries@), root, drive, final(cache)@),
        r matches Some(p) ==> exists|f: nat| dir_path(index_view(entries@), root, drive, frn, f) == Some(p@),
        dir_path(index_view(entries@), root, drive, frn, (MAX_DEPTH - 1) as nat) matches Some(p)
            ==> (r matches Some(q) && q@ == p),
{
    let ghost m = index_view(entries@);
    let mut drive_text = String::new();
    push_char(&mut drive_text, drive);
    push_char(&mut drive_text, ':');
    assert(drive_text@ =~= seq![drive, ':']);
    if frn == root {
        return Some(drive_text);
    }
    match cache.get(&frn) {
        Some(c) => {
            let r = c.clone();
            proof {
                let f = choose|f: nat| dir_path(m, root, drive, frn, f) == Some(cache@[frn]@);
                if dir_path(m, root, drive, frn, (MAX_DEPTH - 1) as nat) is Some {
                    lemma_dir_path_unique(m, root, drive, frn, f, (MAX_DEPTH - 1) as nat);
                }
            }
            return Some(r);
        },
        None => {},
    }
    let mut chain: Vec<u64> = Vec::new();
    let mut cur = frn;
    let mut resolved: Option<String> = None;
    let ghost mut rf: nat = 0;
    let mut done = false;
    while !done && chain.len() < MAX_DEPTH
        invariant
            chain@.len() <= MAX_DEPTH,
            m == index_view(entries@),
            cache_ok(m, root, drive, cache@),
            frn != root,
            chain@.len() > 0 ==> chain@[0] == frn,
            chain@.len() == 0 ==> cur == frn,
            walked(m, root, chain@, cur),
            !done ==> resolved is None,
            resolved matches Some(p) ==> dir_path(m, root, drive, cur, rf) == Some(p@),
            done && resolved is None ==> cur != root && !m.contains_key(cur),
            drive_text@ == seq![drive, ':'],
        decreases (MAX_DEPTH - chain@.len()) * 2 + if done { 0int } else { 1int },
    {
        if cur == root {
            resolved = Some(drive_text.clone());
            proof {
                rf = 0;
            }
            done = true;
        } else {
            match cache.get(&cur) {
                Some(hit) => {
                    resolved = Some(hit.clone());
                    proof {
                        rf = choose|f: nat| dir_path(m, root, drive, cur, f) == Some(cache@[cur]@);
                    }
                    done = true;
                },
                None => {
                    match entries.get(&cur) {
                        Some(e) => {
                            let ghost before = chain@;
                            chain.push(cur);
                            cur = e.parent;
                            proof {
                                assert(chain@ == before.push(chain@.last()));
                                assert(walked(m, root, chain@, cur)) by {
                                    assert forall|j: int| 0 <= j < chain@.len() - 1 implies m[#[trigger] chain@[j]].0 == chain@[j + 1] by {
                                        if j < before.len() - 1 {
                                            assert(chain@[j] == before[j] && chain@[j + 1] == before[j + 1]);
                                        } else {
                                            assert(chain@[j] == before.last());
                                        }
                                    }
                                }
                            }
                        },
                        None => {
                            done = true;
                        },
                    }
                },
            }
        }
    }
    let mut path = match resolved {
        Some(p) => p,
        None => {
            proof {
                let n = chain@.len();
                if n == MAX_DEPTH {
                    let t = chain@.take((MAX_DEPTH - 1) as int);
                    assert(walked(m, root, t, chain@[(MAX_DEPTH - 1) as int])) by {
                        assert forall|j: int| 0 <= j < t.len() - 1 implies m[#[trigger] t[j]].0 == t[j + 1] by {
                            assert(t[j] == chain@[j] && t[j + 1] == chain@[j + 1]);
                        }
                        assert forall|j: int| 0 <= j < t.len() implies m.contains_key(#[trigger] t[j]) && t[j] != root by {
                            assert(t[j] == chain@[j]);
                        }
                        assert(t.last() == chain@[(MAX_DEPTH - 2) as int]);
                    }
                    lemma_walk(m, root, drive, t, chain@[(MAX_DEPTH - 1) as int], (MAX_DEPTH - 1) as nat);
                    lemma_chain_none(m, t);
                } else {
                    assert(done);
                    if n > 0 {
                        lemma_walk(m, root, drive, chain@, cur, (MAX_DEPTH - 1) as nat);
                        lemma_chain_none(m, chain@);
                    }
                }
            }
            return None;
        },
    };
    let ghost base = path@;
    let mut k: usize = chain.len();
    assert(chain@.skip(chain@.len() as int) =~= Seq::<u64>::empty());
    while k > 0
        invariant
            k <= chain@.len(),
            m == index_view(entries@),
            cache_ok(m, root, drive, cache@),
            walked(m, root, chain@, cur),
            dir_path(m, root, drive, cur, rf) == Some(base),
            chain_up(m, chain@.skip(k as int), Some(base)) == Some(path@),
        decreases k,
    {
        k -= 1;
        let f = chain[k];
        assert(m.contains_key(chain@[k as int]));
        match entries.get(&f) {
            Some(e) => {
                assert(chain@.skip(k as int).drop_first() =~= chain@.skip(k + 1));
                push_char(&mut path, '\\');
                path.append(e.name.as_str());
                proof {
                    let s = chain@.skip(k as int);
                    assert(walked(m, root, s, cur)) by {
                        assert forall|j: int| 0 <= j < s.len() - 1 implies m[#[trigger] s[j]].0 == s[j + 1] by {
                            assert(s[j] == chain@[k + j] && s[j + 1] == chain@[k + j + 1]);
                        }
                        assert forall|j: int| 0 <= j < s.len() implies m.contains_key(#[trigger] s[j]) && s[j] != root by {
                            assert(s[j] == chain@[k + j]);
                        }
                    }
                    lemma_walk(m, root, drive, s, cur, rf + s.len());
                }
                let ghost old_cache = cache@;
                cache.insert(f, path.clone());
                proof {
                    assert forall|x: u64| #[trigger] cache@.contains_key(x) implies exists|g: nat| dir_path(m, root, drive, x, g) == Some(cache@[x]@) by {
                        if x == f {
                            let g = rf + chain@.skip(k as int).len();
                            assert(dir_path(m, root, drive, x, g) == Some(cache@[x]@));
                        } else {
                            assert(old_cache.contains_key(x));
                        }
                    }
                }
            },
            None => {
                return None;
            },
        }
    }
    proof {
        assert(chain@.skip(0) =~= chain@);
        if chain@.len() > 0 {
            lemma_walk(m, root, drive, chain@, cur, rf + chain@.len());
            if dir_path(m, root, drive, frn, (MAX_DEPTH - 1) as nat) is Some {
                lemma_dir_path_unique(m, root, drive, frn, rf + chain@.len(), (MAX_DEPTH - 1) as nat);
            }
        } else {
            if dir_path(m, root, drive, frn, (MAX_DEPTH - 1) as nat) is Some {
                lemma_dir_path_unique(m, root, drive, frn, rf, (MAX_DEPTH - 1) as nat);
            }
        }
    }
    Some(path)
}

/// Whether indexed file `frn` (with `e` its entry) is a hit: a folder when
/// only folders are asked for, its lowercased name ending with `suffix`
/// when given, its folder found within `MAX_DEPTH - 1` parents, and its
/// full path passing the query.
pub open spec fn index_hit(m: Map<u64, (u64, Seq<char>, Seq<char>, bool)>, root: u64, drive: char, frn: u64,
    qv: Seq<Seq<crate::query::TermV>>, suffix: Option<Seq<char>>, dirs_only: bool) -> Option<(Seq<char>, bool)> {
    let e = m[frn];
    let suffix_ok = match suffix {
        Some(s) => s.len() <= e.2.len() && e.2.skip(e.2.len() - s.len()) == s,
        None => true,
    };
    if m.contains_key(frn) && (!dirs_only || e.3) && suffix_ok {
        match dir_path(m, root, drive, e.0, (MAX_DEPTH - 1) as nat) {
            Some(d) => {
                let full = d + seq!['\\'] + e.1;
                if crate::query::query_holds(qv, crate::query::normalize(full)) { Some((full, e.3)) } else { None }
            },
            None => None,
        }
    } else {
        None
    }
}

pub open spec fn suffix_view(s: Option<&str>) -> Option<Seq<char>> {
    match s {
        Some(t) => Some(t@),
        None => None,
    }
}

/// `h` is the full path and kind of indexed file `frn`, with its folder
/// found along its parents.
pub open spec fn names_file(m: Map<u64, (u64, Seq<char>, Seq<char>, bool)>, root: u64, drive: char, frn: u64, h: (Seq<char>, bool)) -> bool {
    &&& m.contains_key(frn)
    &&& h.1 == m[frn].3
    &&& exists|f: nat| #[trigger] dir_path(m, root, drive, m[frn].0, f) matches Some(d) && h.0 == d + seq!['\\'] + m[frn].1
}

/// A hit is among `added`.
pub open spec fn found(hit: Option<(Seq<char>, bool)>, added: Seq<(Seq<char>, bool)>) -> bool {
    match hit {
        Some(h) => added.contains(h),
        None => true,
    }
}

/// `hits` name, one each, the different files `from`.
pub open spec fn from_files(m: Map<u64, (u64, Seq<char>, Seq<char>, bool)>, root: u64, drive: char, dirs_only: bool,
    from: Seq<u64>, hits: Seq<(Seq<char>, bool)>) -> bool {
    &&& from.len() == hits.len()
    &&& forall|k: int| 0 <= k < from.len() ==> names_file(m, root, drive, #[trigger] from[k], hits[k]) && (!dirs_only || m[from[k]].3)
    &&& forall|a: int, b: int| 0 <= a < b < from.len() ==> from[a] != from[b]
}

pub open spec fn out_view(v: Seq<(String, bool)>) -> Seq<(Seq<char>, bool)> {
    v.map_values(|h: (String, bool)| (h.0@, h.1))
}

/// Adds to `out` hits from a volume index (see `index_hit`), walking the
/// index in no stated order, until `out` holds `max` results. Each added
/// result names a different indexed file (a folder when only folders are
/// asked for) by its full path, its folder found along its parents. When
/// fewer than `max` results come out, every hit is among them.
pub fn index_search(entries: &HashMap<u64, IndexEntry>, root: u64, drive: char, query: &crate::query::Query,
    suffix: Option<&str>, max: usize, dirs_only: bool, out: &mut Vec<(String, bool)>)
    ensures
        final(out)@.take(old(out)@.len() as int) == old(out)@,
        old(out)@.len() <= final(out)@.len(),
        final(out)@.len() <= if old(out)@.len() > max { old(out)@.len() as int } else { max as int },
        exists|from: Seq<u64>| #[trigger] from_files(index_view(entries@), root, drive, dirs_only, from,
            out_view(final(out)@).skip(old(out)@.len() as int)),
        final(out)@.len() < max ==> forall|x: u64| found(#[trigger] index_hit(index_view(entries@), root, drive, x, query.view_clauses(),
            suffix_view(suffix), dirs_only), out_view(final(out)@).skip(old(out)@.len() as int)),
{
    broadcast use vstd::std_specs::hash::axiom_spec_hash_map_iter;
    let mut cache: HashMap<u64, String> = HashMap::new();
    let ghost m = index_view(entries@);
    let ghost qv = query.view_clauses();
    let ghost sv = suffix_view(suffix);
    let ghost start = out@;
    let ghost mut from: Seq<u64> = Seq::empty();
    let ghost mut from_at: Seq<int> = Seq::empty();
    let ghost mut pushed = false;
    let ghost mut complete = entries@.dom().len() == 0;
    let sfx: Option<Vec<char>> = match suffix { Some(s) => Some(crate::text::chars_of(s)), None => None };
    assert(cache@ =~= Map::<u64, String>::empty());
    assert(out_view(out@).skip(start.len() as int) =~= Seq::<(Seq<char>, bool)>::empty());
    for kv in it: entries.iter()
        invariant
            m == index_view(entries@),
            qv == query.view_clauses(),
            sv == suffix_view(suffix),
            match sfx { Some(v) => sv == Some(v@), None => sv is None },
            start == old(out)@,
            out@.take(start.len() as int) == start,
            start.len() <= out@.len(),
            out@.len() <= if start.len() > max { start.len() as int } else { max as int },
            start.len() >= max ==> out@.len() == start.len(),
            cache_ok(m, root, drive, cache@),
            from_files(m, root, drive, dirs_only, from, out_view(out@).skip(start.len() as int)),
            from_at.len() == from.len(),
            forall|k: int| 0 <= k < from.len() ==> 0 <= #[trigger] from_at[k] < it.index() && *it.seq()[from_at[k]].0 == from[k],
            it.seq().no_duplicates(),
            out@.len() < max ==> forall|j: int| 0 <= j < it.index() ==> found(#[trigger] index_hit(m, root, drive, *it.seq()[j].0, qv, sv, dirs_only),
                out_view(out@).skip(start.len() as int)),
            it.seq().len() == entries@.dom().len(),
            forall|k: u64| #[trigger] entries@.contains_key(k) ==> it.seq().contains((&k, &entries@[k])),
            it.index() == entries@.dom().len() ==> complete,
            complete ==> out@.len() < max ==> forall|x: u64| found(#[trigger] index_hit(m, root, drive, x, qv, sv, dirs_only),
                out_view(out@).skip(start.len() as int)),
    {
        let (frn, e) = kv;
        if out.len() >= max {
            return;
        }
        let ghost idx = it.index();
        let ghost before = out_view(out@).skip(start.len() as int);
        let x: u64 = *frn;
        proof {
            assert(kv == it.seq()[idx]);
            assert(m.contains_key(x) && m[x] == entry_view(*e));
        }
        proof {
            pushed = false;
        }
        if !dirs_only || e.is_dir {
            let suffix_ok = match &sfx {
                Some(v) => crate::names::ends_with_chars(&crate::text::chars_of(e.name_lower.as_str()), v),
                None => true,
            };
            if suffix_ok {
                match resolve_dir(entries, root, e.parent, drive, &mut cache) {
                    Some(d) => {
                        let mut full = d;
                        let ghost dv = full@;
                        push_char(&mut full, '\\');
                        full.append(e.name.as_str());
                        assert(full@ == dv + seq!['\\'] + m[x].1);
                        let ok = query.matches(full.as_str());
                        proof {
                            if dir_path(m, root, drive, m[x].0, (MAX_DEPTH - 1) as nat) is Some {
                                assert(index_hit(m, root, drive, x, qv, sv, dirs_only) == if crate::query::query_holds(qv, crate::query::normalize(full@)) {
                                    Some((full@, m[x].3))
                                } else {
                                    None::<(Seq<char>, bool)>
                                });
                            }
                        }
                        proof {
                            if !ok && dir_path(m, root, drive, m[x].0, (MAX_DEPTH - 1) as nat) is Some {
                                assert(index_hit(m, root, drive, x, qv, sv, dirs_only) is None);
                            }
                            if dir_path(m, root, drive, m[x].0, (MAX_DEPTH - 1) as nat) is Some {
                                assert(dir_path(m, root, drive, m[x].0, (MAX_DEPTH - 1) as nat) == Some(dv));
                            }
                        }
                        if ok {
                            let ghost o0 = out@;
                            out.push((full, e.is_dir));
                            proof {
                                pushed = true;
                                assert(out@.take(start.len() as int) =~= o0.take(start.len() as int));
                                assert(out_view(out@).skip(start.len() as int) =~= before.push((full@, m[x].3)));
                                assert forall|k: int| 0 <= k < from.len() implies from[k] != x by {
                                    let j = from_at[k];
                                    assert(it.seq()[j] != it.seq()[idx]);
                                }
                                from = from.push(x);
                                from_at = from_at.push(idx);
                                assert(names_file(m, root, drive, x, (full@, m[x].3)));
                            }
                        }
                    },
                    None => {
                        proof {
                            assert(dir_path(m, root, drive, m[x].0, (MAX_DEPTH - 1) as nat) is None);
                            assert(index_hit(m, root, drive, x, qv, sv, dirs_only) is None);
                        }
                    },
                }
            } else {
                proof {
                    assert(index_hit(m, root, drive, x, qv, sv, dirs_only) is None);
                }
            }
        } else {
            proof {
                assert(index_hit(m, root, drive, x, qv, sv, dirs_only) is None);
            }
        }
        proof {
            let after = out_view(out@).skip(start.len() as int);
            assert forall|k: int| 0 <= k < before.len() implies after[k] == before[k] by {
                if pushed {
                } else {
                }
            }
            assert forall|h: (Seq<char>, bool)| before.contains(h) implies after.contains(h) by {
                let k = choose|k: int| 0 <= k < before.len() && before[k] == h;
                assert(after[k] == h);
            }
            if out@.len() < max {
                assert forall|j: int| 0 <= j < idx + 1 implies found(#[trigger] index_hit(m, root, drive, *it.seq()[j].0, qv, sv, dirs_only), after) by {
                    if j < idx {
                        assert(found(index_hit(m, root, drive, *it.seq()[j].0, qv, sv, dirs_only), before));
                        match index_hit(m, root, drive, *it.seq()[j].0, qv, sv, dirs_only) {
                            Some(h) => {
                                assert(before.contains(h));
                            },
                            None => {},
                        }
                    } else {
                        assert(*it.seq()[j].0 == x);
                        match index_hit(m, root, drive, x, qv, sv, dirs_only) {
                            Some(h) => {
                                assert(pushed);
                                assert(after[after.len() - 1] == h);
                            },
                            None => {},
                        }
                    }
                }
            }
            if it.index() + 1 == entries@.dom().len() {
                complete = true;
                if out@.len() < max {
                    assert forall|y: u64| found(#[trigger] index_hit(m, root, drive, y, qv, sv, dirs_only), after) by {
                        if index_hit(m, root, drive, y, qv, sv, dirs_only) is Some {
                            assert(m.contains_key(y));
                            assert(it.seq().contains((&y, &entries@[y])));
                            let j = choose|j: int| 0 <= j < it.seq().len() && it.seq()[j] == (&y, &entries@[y]);
                            assert(*it.seq()[j].0 == y);
                            assert(found(index_hit(m, root, drive, *it.seq()[j].0, qv, sv, dirs_only), after));
                        }
                    }
                }
            }
        }
    }
    proof {
        if out@.len() < max {
            assert(complete);
        }
    }
}

} // verus!
