//! What the library knows of the Windows shell without calling it: the
//! Recycle Bin's place among paths, which volume a path lies on, which
//! files need an icon of their own, and where a registered icon lives.
use vstd::prelude::*;
use crate::entry::{FsEntry, ATTR_DIRECTORY};
use crate::keymap::ascii_ci_eq;
use crate::search::utf8_len;
use crate::text::{chars_of, owned, trim, trim_bounds, string_of, parse_i32, parse_i32_spec};

verus! {

/// The path tabs showing the Recycle Bin have.
pub open spec fn recycle_path() -> Seq<char> {
    "recycle:\\"@
}

/// The Recycle Bin's path.
pub fn recycle_root() -> (r: String)
    ensures
        r@ == recycle_path(),
{
    owned("recycle:\\")
}

/// Number of trailing `\` and `/` characters.
pub open spec fn trail_seps(s: Seq<char>) -> int
    decreases s.len(),
{
    if s.len() > 0 && (s.last() == '\\' || s.last() == '/') { 1 + trail_seps(s.drop_last()) } else { 0 }
}

proof fn lemma_trail_seps(s: Seq<char>)
    ensures
        0 <= trail_seps(s) <= s.len(),
    decreases s.len(),
{
    if s.len() > 0 && (s.last() == '\\' || s.last() == '/') {
        lemma_trail_seps(s.drop_last());
    }
}

fn ci_eq(a: &Vec<char>, b: &str) -> (r: bool)
    ensures
        r == ascii_ci_eq(a@, b@),
{
    let bv = chars_of(b);
    if a.len() != bv.len() {
        return false;
    }
    let mut i: usize = 0;
    while i < a.len()
        invariant
            a.len() == bv.len(),
            bv@ == b@,
            i <= a.len(),
            forall|k: int| 0 <= k < i ==> crate::text::lower(#[trigger] a@[k]) == crate::text::lower(bv@[k]),
        decreases a.len() - i,
    {
        if crate::text::ascii_lower(a[i]) != crate::text::ascii_lower(bv[i]) {
            return false;
        }
        i += 1;
    }
    true
}

/// Whether a path names the Recycle Bin: `recycle:` or `recycle` (any
/// ASCII case) with any trailing separators.
pub fn is_recycle_path(p: &str) -> (r: bool)
    ensures
        r == ({
            let t = p@.take(p@.len() - trail_seps(p@));
            ascii_ci_eq(t, "recycle:"@) || ascii_ci_eq(t, "recycle"@)
        }),
{
    let v = chars_of(p);
    let mut end: usize = v.len();
    assert(v@.take(end as int) =~= v@);
    while end > 0 && (v[end - 1] == '\\' || v[end - 1] == '/')
        invariant
            end <= v.len(),
            trail_seps(v@) == (v.len() - end) + trail_seps(v@.take(end as int)),
        decreases end,
    {
        assert(v@.take(end as int).drop_last() =~= v@.take(end - 1));
        end -= 1;
    }
    proof {
        lemma_trail_seps(v@);
    }
    let mut t: Vec<char> = Vec::new();
    let mut i: usize = 0;
    while i < end
        invariant
            i <= end <= v.len(),
            t@ == v@.take(i as int),
        decreases end - i,
    {
        t.push(v[i]);
        i += 1;
        assert(t@ =~= v@.take(i as int));
    }
    ci_eq(&t, "recycle:") || ci_eq(&t, "recycle")
}

/// An item in the Recycle Bin.
#[derive(Clone, Debug)]
pub struct RecycleItem {
    pub name: String,
    pub original_path: Option<String>,
    pub size: u64,
    pub deleted: u64,
    pub is_dir: bool,
    pub parsing_name: String,
}

impl RecycleItem {
    /// The item as a listing entry: deleted time as both times, a directory
    /// attribute for folders and none otherwise.
    pub fn to_entry(&self) -> (r: FsEntry)
        ensures
            r.name@ == self.name@,
            r.size == self.size,
            r.modified == self.deleted,
            r.created == self.deleted,
            r.attributes == (if self.is_dir { ATTR_DIRECTORY } else { 0 }),
    {
        FsEntry {
            name: self.name.clone(),
            size: self.size,
            modified: self.deleted,
            created: self.deleted,
            attributes: if self.is_dir { ATTR_DIRECTORY } else { 0 },
        }
    }
}

#[derive(Clone, Copy, Debug, PartialEq, Eq, Structural)]
pub enum DriveType {
    Fixed,
    Removable,
    Network,
    CdRom,
    Ram,
    Unknown,
}

/// A mounted volume.
#[derive(Clone, Debug)]
pub struct VolumeInfo {
    pub root: String,
    pub label: String,
    pub drive_type: DriveType,
    pub total_bytes: u64,
    pub free_bytes: u64,
}

/// ASCII upper-casing of one character.
pub open spec fn upper(c: char) -> char {
    if 'a' <= c && c <= 'z' { ((c as u32) - 32) as char } else { c }
}

pub open spec fn upper_all(s: Seq<char>) -> Seq<char> {
    s.map_values(|c: char| upper(c))
}

fn ascii_upper(c: char) -> (r: char)
    ensures
        r == upper(c),
{
    if 'a' <= c && c <= 'z' {
        let b: u8 = c as u8;
        ((b - 32) as u8) as char
    } else {
        c
    }
}

fn upper_chars(s: &str) -> (r: Vec<char>)
    ensures
        r@ == upper_all(s@),
{
    let v = chars_of(s);
    let mut out: Vec<char> = Vec::new();
    let mut i: usize = 0;
    while i < v.len()
        invariant
            i <= v.len(),
            v@ == s@,
            out@ == upper_all(v@.take(i as int)),
        decreases v.len() - i,
    {
        out.push(ascii_upper(v[i]));
        i += 1;
        assert(out@ =~= upper_all(v@.take(i as int)));
    }
    assert(v@.take(v.len() as int) =~= v@);
    out
}

/// A volume can hold `path` when the path starts with its root (without
/// trailing `\`), ignoring ASCII case.
pub open spec fn holds(root: Seq<char>, path: Seq<char>) -> bool {
    let r = upper_all(root);
    let r2 = r.take(r.len() - trail_backslashes(r));
    crate::text::starts_with_seq(upper_all(path), r2)
}

/// Number of trailing `\` characters.
pub open spec fn trail_backslashes(s: Seq<char>) -> int
    decreases s.len(),
{
    if s.len() > 0 && s.last() == '\\' { 1 + trail_backslashes(s.drop_last()) } else { 0 }
}

proof fn lemma_trail_backslashes(s: Seq<char>)
    ensures
        0 <= trail_backslashes(s) <= s.len(),
    decreases s.len(),
{
    if s.len() > 0 && s.last() == '\\' {
        lemma_trail_backslashes(s.drop_last());
    }
}

/// Volume `i` holds the path and no volume holding it has a longer root;
/// among equally long roots the last one wins.
pub open spec fn best_volume(vs: Seq<VolumeInfo>, path: Seq<char>, i: int) -> bool {
    &&& 0 <= i < vs.len()
    &&& holds(vs[i].root@, path)
    &&& forall|j: int| 0 <= j < vs.len() && #[trigger] holds(vs[j].root@, path) ==> utf8_len(vs[j].root@) <= utf8_len(vs[i].root@)
        && (j > i ==> utf8_len(vs[j].root@) < utf8_len(vs[i].root@))
}

fn holds_exec(root: &str, path_up: &Vec<char>, Ghost(path): Ghost<Seq<char>>) -> (r: bool)
    requires
        path_up@ == upper_all(path),
    ensures
        r == holds(root@, path),
{
    let r = upper_chars(root);
    let mut end: usize = r.len();
    assert(r@.take(end as int) =~= r@);
    while end > 0 && r[end - 1] == '\\'
        invariant
            end <= r.len(),
            trail_backslashes(r@) == (r.len() - end) + trail_backslashes(r@.take(end as int)),
        decreases end,
    {
        assert(r@.take(end as int).drop_last() =~= r@.take(end - 1));
        end -= 1;
    }
    proof {
        lemma_trail_backslashes(r@);
    }
    if end > path_up.len() {
        return false;
    }
    let mut i: usize = 0;
    while i < end
        invariant
            end <= path_up.len(),
            end <= r.len(),
            i <= end,
            r@ == upper_all(root@),
            path_up@ == upper_all(path),
            end as int == r@.len() - trail_backslashes(r@),
            forall|k: int| 0 <= k < i ==> r@[k] == path_up@[k],
        decreases end - i,
    {
        if r[i] != path_up[i] {
            assert(path_up@.take(end as int)[i as int] != r@.take(end as int)[i as int]);
            return false;
        }
        i += 1;
    }
    assert(path_up@.take(end as int) =~= r@.take(end as int));
    true
}

fn byte_len(s: &str) -> (r: usize)
    requires
        s@.len() <= usize::MAX / 4,
    ensures
        r as int == utf8_len(s@),
{
    let v = chars_of(s);
    let mut n: usize = 0;
    let mut i: usize = 0;
    assert(v@.take(0) =~= Seq::<char>::empty());
    while i < v.len()
        invariant
            i <= v.len(),
            v@ == s@,
            v.len() <= usize::MAX / 4,
            n as int == utf8_len(v@.take(i as int)),
            n <= 4 * i,
        decreases v.len() - i,
    {
        assert(v@.take(i + 1).drop_last() =~= v@.take(i as int));
        let c = v[i] as u32;
        let w: usize = if c < 0x80 { 1 } else if c < 0x800 { 2 } else if c < 0x10000 { 3 } else { 4 };
        n = n + w;
        i += 1;
    }
    assert(v@.take(v.len() as int) =~= v@);
    n
}

/// The mounted volume a path lies on: the one with the longest root that
/// the path starts with (ignoring ASCII case), the last of equals.
pub fn volume_for_path<'a>(volumes: &'a [VolumeInfo], path: &str) -> (r: Option<&'a VolumeInfo>)
    requires
        forall|i: int| 0 <= i < volumes@.len() ==> (#[trigger] volumes@[i]).root@.len() <= usize::MAX / 4,
    ensures
        r matches Some(v) ==> exists|i: int| best_volume(volumes@, path@, i) && *v == volumes@[i],
        r is None ==> forall|j: int| 0 <= j < volumes@.len() ==> !holds(#[trigger] volumes@[j].root@, path@),
{
    let needle = upper_chars(path);
    let mut best: Option<usize> = None;
    let mut best_len: usize = 0;
    let mut i: usize = 0;
    while i < volumes.len()
        invariant
            i <= volumes.len(),
            needle@ == upper_all(path@),
            forall|k: int| 0 <= k < volumes@.len() ==> (#[trigger] volumes@[k]).root@.len() <= usize::MAX / 4,
            best is None ==> forall|j: int| 0 <= j < i ==> !holds(#[trigger] volumes@[j].root@, path@),
            best matches Some(b) ==> {
                &&& b < i
                &&& holds(volumes@[b as int].root@, path@)
                &&& best_len as int == utf8_len(volumes@[b as int].root@)
                &&& forall|j: int| 0 <= j < i && #[trigger] holds(volumes@[j].root@, path@) ==> utf8_len(volumes@[j].root@) <= best_len
                    && (j > b ==> utf8_len(volumes@[j].root@) < best_len)
            },
        decreases volumes.len() - i,
    {
        if holds_exec(volumes[i].root.as_str(), &needle, Ghost(path@)) {
            let len = byte_len(volumes[i].root.as_str());
            let take = match best {
                None => true,
                Some(_) => len >= best_len,
            };
            if take {
                best = Some(i);
                best_len = len;
            }
        }
        i += 1;
    }
    match best {
        Some(b) => {
            assert(best_volume(volumes@, path@, b as int));
            Some(&volumes[b])
        },
        None => None,
    }
}

/// Extensions whose icon differs from file to file.
pub open spec fn per_file_icon(ext: Seq<char>) -> bool {
    ascii_ci_eq(ext, "exe"@) || ascii_ci_eq(ext, "lnk"@) || ascii_ci_eq(ext, "ico"@)
        || ascii_ci_eq(ext, "cur"@) || ascii_ci_eq(ext, "url"@) || ascii_ci_eq(ext, "appref-ms"@)
}

/// Whether files with this extension need their own icon looked up.
pub fn needs_per_file_icon(ext: &str) -> (r: bool)
    ensures
        r == per_file_icon(ext@),
{
    let v = chars_of(ext);
    ci_eq(&v, "exe") || ci_eq(&v, "lnk") || ci_eq(&v, "ico") || ci_eq(&v, "cur") || ci_eq(&v, "url")
        || ci_eq(&v, "appref-ms")
}

/// A small icon as RGBA pixels.
#[derive(Clone, Debug)]
pub struct IconRgba {
    pub width: u32,
    pub height: u32,
    pub rgba: Vec<u8>,
}


/// Number of leading `c` characters.
pub open spec fn lead_run(s: Seq<char>, c: char) -> int
    decreases s.len(),
{
    if s.len() > 0 && s[0] == c { 1 + lead_run(s.drop_first(), c) } else { 0 }
}

/// Number of trailing `c` characters.
pub open spec fn trail_run(s: Seq<char>, c: char) -> int
    decreases s.len(),
{
    if s.len() > 0 && s.last() == c { 1 + trail_run(s.drop_last(), c) } else { 0 }
}

/// `str::trim_matches(c)`: without leading and trailing `c`.
pub open spec fn trim_char(s: Seq<char>, c: char) -> Seq<char> {
    let t = s.skip(lead_run(s, c));
    t.take(t.len() - trail_run(t, c))
}

/// Index of the last `,`, or -1.
pub open spec fn last_comma(s: Seq<char>) -> int
    decreases s.len(),
{
    if s.len() == 0 {
        -1
    } else if s.last() == ',' {
        s.len() - 1
    } else {
        last_comma(s.drop_last())
    }
}

/// The icon a registry `DefaultIcon` value names: the file (quotes and
/// blanks around it removed, environment variables still in it) and the
/// icon index after the last comma (0 without one). None for an empty
/// value, one that defers to the file itself (`%1`), an index that is not
/// a number, or an empty file.
pub open spec fn default_icon_spec(raw: Seq<char>) -> Option<(Seq<char>, i32)> {
    let s = trim(raw);
    if s.len() == 0 || s == "%1"@ || s == "\"%1\""@ {
        None
    } else {
        let c = last_comma(s);
        let split: Option<(Seq<char>, i32)> = if c >= 0 {
            match parse_i32_spec(trim(s.skip(c + 1))) {
                Some(n) => Some((trim(s.take(c)), n)),
                None => None,
            }
        } else {
            Some((s, 0))
        };
        match split {
            Some((p, n)) => {
                let q = trim(trim_char(p, '"'));
                if q.len() == 0 { None } else { Some((q, n)) }
            },
            None => None,
        }
    }
}

proof fn lemma_last_comma(s: Seq<char>)
    ensures
        -1 <= last_comma(s) < s.len(),
        last_comma(s) >= 0 ==> s[last_comma(s)] == ',',
        forall|k: int| last_comma(s) < k < s.len() ==> s[k] != ',',
    decreases s.len(),
{
    if s.len() > 0 && s.last() != ',' {
        lemma_last_comma(s.drop_last());
        assert forall|k: int| last_comma(s) < k < s.len() implies s[k] != ',' by {
            if k < s.len() - 1 {
                assert(s.drop_last()[k] == s[k]);
            }
        }
    }
}

fn last_comma_exec(v: &Vec<char>) -> (r: Option<usize>)
    ensures
        r matches Some(d) ==> d as int == last_comma(v@) && d < v.len(),
        r is None ==> last_comma(v@) == -1,
{
    let mut i: usize = v.len();
    while i > 0
        invariant
            i <= v.len(),
            forall|k: int| i <= k < v.len() ==> v@[k] != ',',
        decreases i,
    {
        if v[i - 1] == ',' {
            proof {
                lemma_last_comma(v@);
                if last_comma(v@) != i - 1 {
                    assert(v@[last_comma(v@)] == ',');
                }
            }
            return Some(i - 1);
        }
        i -= 1;
    }
    proof {
        lemma_last_comma(v@);
        if last_comma(v@) >= 0 {
            assert(v@[last_comma(v@)] == ',');
        }
    }
    None
}

fn trim_char_exec(v: &Vec<char>, c: char) -> (r: Vec<char>)
    ensures
        r@ == trim_char(v@, c),
{
    let mut lo: usize = 0;
    assert(v@.skip(0) =~= v@);
    while lo < v.len() && v[lo] == c
        invariant
            lo <= v.len(),
            lead_run(v@, c) == lo + lead_run(v@.skip(lo as int), c),
        decreases v.len() - lo,
    {
        assert(v@.skip(lo as int).drop_first() =~= v@.skip(lo + 1));
        lo += 1;
    }
    let ghost t = v@.skip(lo as int);
    let mut hi: usize = v.len();
    assert(t =~= v@.subrange(lo as int, hi as int));
    while hi > lo && v[hi - 1] == c
        invariant
            lo <= hi <= v.len(),
            t == v@.skip(lo as int),
            trail_run(t, c) == (v.len() - hi) + trail_run(v@.subrange(lo as int, hi as int), c),
        decreases hi,
    {
        assert(v@.subrange(lo as int, hi as int).drop_last() =~= v@.subrange(lo as int, hi - 1));
        hi -= 1;
    }
    let mut out: Vec<char> = Vec::new();
    let mut k: usize = lo;
    while k < hi
        invariant
            lo <= k <= hi <= v.len(),
            out@ == v@.subrange(lo as int, k as int),
        decreases hi - k,
    {
        out.push(v[k]);
        k += 1;
        assert(out@ =~= v@.subrange(lo as int, k as int));
    }
    proof {
        assert(trail_run(v@.subrange(lo as int, hi as int), c) == 0);
        assert(t.take(t.len() - trail_run(t, c)) =~= v@.subrange(lo as int, hi as int));
    }
    out
}

fn sub_chars(v: &Vec<char>, lo: usize, hi: usize) -> (r: Vec<char>)
    requires
        lo <= hi <= v.len(),
    ensures
        r@ == v@.subrange(lo as int, hi as int),
{
    let mut out: Vec<char> = Vec::new();
    let mut k: usize = lo;
    while k < hi
        invariant
            lo <= k <= hi <= v.len(),
            out@ == v@.subrange(lo as int, k as int),
        decreases hi - k,
    {
        out.push(v[k]);
        k += 1;
        assert(out@ =~= v@.subrange(lo as int, k as int));
    }
    out
}

fn trimmed(v: &Vec<char>) -> (r: Vec<char>)
    ensures
        r@ == trim(v@),
{
    let (lo, hi) = trim_bounds(v);
    sub_chars(v, lo, hi)
}

/// Reads a registry `DefaultIcon` value (see `default_icon_spec`); the
/// file keeps its environment variables, for the shell to expand.
pub fn parse_default_icon(spec: &str) -> (r: Option<(String, i32)>)
    ensures
        match r {
            Some((p, n)) => default_icon_spec(spec@) == Some((p@, n)),
            None => default_icon_spec(spec@) is None,
        },
{
    proof {
        reveal_strlit("%1");
        reveal_strlit("\"%1\"");
    }
    let raw = chars_of(spec);
    let s = trimmed(&raw);
    let pct = chars_of("%1");
    let quoted = chars_of("\"%1\"");
    if s.len() == 0 || crate::paths::chars_eq(&s, &pct) || crate::paths::chars_eq(&s, &quoted) {
        return None;
    }
    let (path, index) = match last_comma_exec(&s) {
        Some(c) => {
            let after = trimmed(&sub_chars(&s, c + 1, s.len()));
            assert(s@.subrange(c + 1, s.len() as int) =~= s@.skip(c + 1));
            match parse_i32(&after) {
                Some(n) => {
                    let before = trimmed(&sub_chars(&s, 0, c));
                    assert(s@.subrange(0, c as int) =~= s@.take(c as int));
                    (before, n)
                },
                None => return None,
            }
        },
        None => (s, 0i32),
    };
    let q = trimmed(&trim_char_exec(&path, '"'));
    if q.len() == 0 {
        return None;
    }
    let out = string_of(&q, 0, q.len());
    assert(q@.subrange(0, q.len() as int) =~= q@);
    Some((out, index))
}

} // verus!
