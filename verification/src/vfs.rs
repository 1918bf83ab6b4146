//! Archives as folders: a path that passes through a `.zip` file, such as
//! `C:\data\backup.zip\photos\2024`, lists the archive's entries instead of
//! the file system; extracting a folder writes every file below it.
use vstd::prelude::*;
use crate::entry::{FsEntry, ATTR_DIRECTORY, ATTR_READONLY};
use crate::keymap::ascii_ci_eq;
use crate::ops::split_stem_ext;
use crate::paths::{components, components_chars, file_name, file_name_spec, join, join_spec, stem_ext};
use crate::text::{chars_of, string_from_chars, string_of, owned, lower};
use crate::activate::{back_slashed, back_slash};

verus! {

/// Whether `p` names an existing regular file (`std::path::Path::is_file`).
/// Nothing is stated of the answer: it depends on what is on disk.
#[verifier::external_body]
fn is_file(p: &str) -> bool {
    std::path::Path::new(p).is_file()
}

/// The path built by pushing components one by one onto an empty path: the
/// root marker is appended, names are joined.
pub open spec fn assemble(cs: Seq<Seq<char>>) -> Seq<char>
    decreases cs.len(),
{
    if cs.len() == 0 {
        Seq::empty()
    } else {
        let acc = assemble(cs.drop_last());
        if cs.last() == seq!['\\'] {
            acc + cs.last()
        } else {
            join_spec(acc, cs.last())
        }
    }
}

/// Names joined with `/`.
pub open spec fn slash_join(names: Seq<Seq<char>>) -> Seq<char>
    decreases names.len(),
{
    if names.len() == 0 {
        Seq::empty()
    } else if names.len() == 1 {
        names[0]
    } else {
        slash_join(names.drop_last()) + seq!['/'] + names.last()
    }
}

/// A path whose file name has the extension `zip` (any ASCII case).
pub open spec fn has_zip_ext(p: Seq<char>) -> bool {
    match file_name_spec(p) {
        Some(n) => match stem_ext(n).1 {
            Some(e) => ascii_ci_eq(e, "zip"@),
            None => false,
        },
        None => false,
    }
}

pub(crate) fn zip_ext_exec(p: &str) -> (r: bool)
    ensures
        r == has_zip_ext(p@),
{
    match file_name(p) {
        Some(n) => {
            let (_, e) = split_stem_ext(n.as_str());
            match e {
                Some(ext) => ci_eq_str(ext.as_str(), "zip"),
                None => false,
            }
        },
        None => false,
    }
}

fn ci_eq_str(a: &str, b: &str) -> (r: bool)
    ensures
        r == ascii_ci_eq(a@, b@),
{
    let av = chars_of(a);
    let bv = chars_of(b);
    if av.len() != bv.len() {
        return false;
    }
    let mut i: usize = 0;
    while i < av.len()
        invariant
            av@ == a@,
            bv@ == b@,
            av.len() == bv.len(),
            i <= av.len(),
            forall|k: int| 0 <= k < i ==> lower(#[trigger] av@[k]) == lower(bv@[k]),
        decreases av.len() - i,
    {
        if crate::text::ascii_lower(av[i]) != crate::text::ascii_lower(bv[i]) {
            return false;
        }
        i += 1;
    }
    true
}

pub open spec fn comps_view(s: Seq<Vec<char>>) -> Seq<Seq<char>> {
    s.map_values(|v: Vec<char>| v@)
}

/// Whether the first `k` components of a path make a zip archive: a prefix
/// with a `zip` extension that the file check (`files[k - 1]`) found to be
/// a file.
pub open spec fn is_zip_at(cv: Seq<Seq<char>>, files: Seq<bool>, k: int) -> bool {
    &&& 0 < k <= cv.len()
    &&& k - 1 < files.len()
    &&& files[k - 1]
    &&& has_zip_ext(assemble(cv.take(k)))
}

/// The first `k` at or after `from` where `is_zip_at` holds.
pub open spec fn first_zip_from(cv: Seq<Seq<char>>, files: Seq<bool>, from: int) -> Option<int>
    decreases cv.len() + 1 - from,
{
    if from < 1 || from > cv.len() {
        None
    } else if is_zip_at(cv, files, from) {
        Some(from)
    } else {
        first_zip_from(cv, files, from + 1)
    }
}

/// How `path` splits at a zip archive, given what the file check said of
/// each prefix (`files[k - 1]` for the first `k` components): at the first
/// prefix with a `zip` extension found to be a file, into that prefix and
/// the rest joined with `/`; nothing when there is none.
pub open spec fn zip_split_spec(path: Seq<char>, files: Seq<bool>) -> Option<(Seq<char>, Seq<char>)> {
    let cv = components(path);
    match first_zip_from(cv, files, 1) {
        Some(k) => Some((assemble(cv.take(k)), slash_join(cv.skip(k)))),
        None => None,
    }
}

/// File check answers that only a prefix with a `zip` extension can have.
pub open spec fn checks_only_zips(path: Seq<char>, files: Seq<bool>) -> bool {
    forall|j: int| 0 <= j < files.len() && #[trigger] files[j] ==> has_zip_ext(assemble(components(path).take(j + 1)))
}

pub open spec fn pair_view(r: Option<(String, String)>) -> Option<(Seq<char>, Seq<char>)> {
    match r {
        Some((a, b)) => Some((a@, b@)),
        None => None,
    }
}

proof fn lemma_first_zip(cv: Seq<Seq<char>>, files: Seq<bool>, from: int)
    requires
        first_zip_from(cv, files, from) is Some,
    ensures
        from <= first_zip_from(cv, files, from).unwrap(),
        is_zip_at(cv, files, first_zip_from(cv, files, from).unwrap()),
    decreases cv.len() + 1 - from,
{
    if from >= 1 && from <= cv.len() && !is_zip_at(cv, files, from) {
        lemma_first_zip(cv, files, from + 1);
    }
}

/// Splits `path` at a zip archive as `zip_split_spec` says, with `files`
/// the file check's answers for its prefixes.
pub fn split_zip_path_with(path: &str, files: &Vec<bool>) -> (r: Option<(String, String)>)
    ensures
        pair_view(r) == zip_split_spec(path@, files@),
{
    let v = chars_of(path);
    let cs = components_chars(&v);
    let ghost cv = comps_view(cs@);
    assert(cv == components(path@));
    let mut current = String::new();
    let mut k: usize = 0;
    assert(cv.take(0) =~= Seq::<Seq<char>>::empty());
    while k < cs.len()
        invariant
            k <= cs.len(),
            cv == comps_view(cs@),
            cv == components(path@),
            current@ == assemble(cv.take(k as int)),
            first_zip_from(cv, files@, 1) == first_zip_from(cv, files@, k + 1),
        decreases cs.len() - k,
    {
        assert(cv.take(k + 1).drop_last() =~= cv.take(k as int));
        assert(cv.take(k + 1).last() == cs@[k as int]@);
        let c = &cs[k];
        let is_root = c.len() == 1 && c[0] == '\\';
        if is_root {
            assert(c@ =~= seq!['\\']);
            let s = string_from_chars(c);
            current.append(s.as_str());
        } else {
            assert(c@ != seq!['\\']);
            let s = string_from_chars(c);
            current = join(current.as_str(), s.as_str());
        }
        k += 1;
        if k - 1 < files.len() && files[k - 1] && zip_ext_exec(current.as_str()) {
            assert(is_zip_at(cv, files@, k as int));
            let inner = slash_join_exec(&cs, k);
            return Some((current, inner));
        }
        assert(!is_zip_at(cv, files@, k as int));
    }
    None
}

/// If `path` runs through a zip file, splits it into the archive's path and
/// the path inside it (with `/` separators): the archive is the first prefix
/// of the path, built component by component, that has a `zip` extension
/// and is a file on disk. The file check is made, in order, on the prefixes
/// with a `zip` extension up to the first that is a file; the answer is
/// `split_zip_path_with` applied to what it said.
pub fn split_zip_path(path: &str) -> (r: Option<(String, String)>)
    ensures
        r matches Some((zip, inner)) ==> exists|k: int| 0 < k <= components(path@).len()
            && zip@ == assemble(#[trigger] components(path@).take(k))
            && has_zip_ext(zip@)
            && inner@ == slash_join(components(path@).skip(k)),
        exists|files: Seq<bool>| checks_only_zips(path@, files) && pair_view(r) == zip_split_spec(path@, files),
{
    let v = chars_of(path);
    let cs = components_chars(&v);
    let ghost cv = comps_view(cs@);
    assert(cv == components(path@));
    let mut current = String::new();
    let mut files: Vec<bool> = Vec::new();
    let mut found = false;
    let mut k: usize = 0;
    assert(cv.take(0) =~= Seq::<Seq<char>>::empty());
    while k < cs.len() && !found
        invariant
            k <= cs.len(),
            files@.len() == k,
            cv == comps_view(cs@),
            cv == components(path@),
            current@ == assemble(cv.take(k as int)),
            checks_only_zips(path@, files@),
        decreases cs.len() - k,
    {
        assert(cv.take(k + 1).drop_last() =~= cv.take(k as int));
        assert(cv.take(k + 1).last() == cs@[k as int]@);
        let c = &cs[k];
        let is_root = c.len() == 1 && c[0] == '\\';
        if is_root {
            assert(c@ =~= seq!['\\']);
            let s = string_from_chars(c);
            current.append(s.as_str());
        } else {
            assert(c@ != seq!['\\']);
            let s = string_from_chars(c);
            current = join(current.as_str(), s.as_str());
        }
        let hit = zip_ext_exec(current.as_str()) && is_file(current.as_str());
        let ghost before = files@;
        files.push(hit);
        proof {
            assert forall|j: int| 0 <= j < files@.len() && #[trigger] files@[j] implies has_zip_ext(assemble(components(path@).take(j + 1))) by {
                if j < before.len() {
                    assert(before[j] == files@[j]);
                }
            }
        }
        found = hit;
        k += 1;
    }
    let r = split_zip_path_with(path, &files);
    proof {
        if r is Some {
            let f = files@;
            lemma_first_zip(cv, f, 1);
            let kk = first_zip_from(cv, f, 1).unwrap();
            assert(components(path@).take(kk) == cv.take(kk));
        }
    }
    r
}

fn slash_join_exec(cs: &Vec<Vec<char>>, from: usize) -> (r: String)
    requires
        from <= cs.len(),
    ensures
        r@ == slash_join(comps_view(cs@).skip(from as int)),
{
    let ghost cv = comps_view(cs@);
    let mut out = String::new();
    let mut i: usize = from;
    assert(cv.skip(from as int).take(0) =~= Seq::<Seq<char>>::empty());
    while i < cs.len()
        invariant
            from <= i <= cs.len(),
            cv == comps_view(cs@),
            out@ == slash_join(cv.skip(from as int).take(i - from)),
        decreases cs.len() - i,
    {
        let ghost t = cv.skip(from as int).take(i + 1 - from);
        assert(t.drop_last() =~= cv.skip(from as int).take(i - from));
        assert(t.last() == cs@[i as int]@);
        if i > from {
            crate::text::push_char(&mut out, '/');
        }
        let s = string_from_chars(&cs[i]);
        out.append(s.as_str());
        proof {
            if i == from {
                assert(t.len() == 1);
                assert(t[0] == cs@[i as int]@);
            }
        }
        i += 1;
    }
    assert(cv.skip(from as int).take(cs.len() - from) =~= cv.skip(from as int));
    out
}

/// Which archive and inner folder a path lists, given whether the whole
/// path was found to be a file (`whole`) and the file check's answers for
/// its prefixes: the path itself as an archive's root when it has a `zip`
/// extension and is a file, else how it splits (see `zip_split_spec`).
pub open spec fn zip_place_spec(path: Seq<char>, whole: bool, files: Seq<bool>) -> Option<(Seq<char>, Seq<char>)> {
    if has_zip_ext(path) && whole {
        Some((path, Seq::empty()))
    } else {
        zip_split_spec(path, files)
    }
}

/// Which archive and inner folder a path lists, as `zip_place_spec` says.
pub fn zip_listing_with(path: &str, whole: bool, files: &Vec<bool>) -> (r: Option<(String, String)>)
    ensures
        pair_view(r) == zip_place_spec(path@, whole, files@),
{
    if whole && zip_ext_exec(path) {
        let e = String::new();
        assert(e@ =~= Seq::<char>::empty());
        return Some((owned(path), e));
    }
    split_zip_path_with(path, files)
}

/// Which archive and inner folder a path lists, when it is a zip file (the
/// archive's root) or runs through one. The whole path is checked for being
/// a file only when it has a `zip` extension; the answer is
/// `zip_listing_with` applied to what the file checks said.
pub fn zip_listing(path: &str) -> (r: Option<(String, String)>)
    ensures
        r matches Some((zip, inner)) ==> (zip@ == path@ && inner@.len() == 0 && has_zip_ext(path@))
            || exists|k: int| 0 < k <= components(path@).len()
                && zip@ == assemble(#[trigger] components(path@).take(k))
                && has_zip_ext(zip@)
                && inner@ == slash_join(components(path@).skip(k)),
        exists|whole: bool, files: Seq<bool>| (whole ==> has_zip_ext(path@)) && checks_only_zips(path@, files)
            && pair_view(r) == zip_place_spec(path@, whole, files),
{
    if zip_ext_exec(path) && is_file(path) {
        let e = String::new();
        assert(e@ =~= Seq::<char>::empty());
        let r = Some((owned(path), e));
        assert(pair_view(r) == zip_place_spec(path@, true, Seq::<bool>::empty()));
        return r;
    }
    let r = split_zip_path(path);
    proof {
        let files = choose|files: Seq<bool>| checks_only_zips(path@, files) && pair_view(r) == zip_split_spec(path@, files);
        assert(pair_view(r) == zip_place_spec(path@, false, files));
    }
    r
}

/// A DOS date and time as a zip entry stores it: the year is 1980..=2107
/// by construction, the other fields are unchecked.
#[derive(Clone, Copy, Debug, PartialEq, Eq, Structural)]
pub struct DosTime {
    pub year: u16,
    pub month: u8,
    pub day: u8,
    pub hour: u8,
    pub minute: u8,
    pub second: u8,
}

/// Days from 1970-01-01 to the given civil date (proleptic Gregorian), for
/// years from 1 on.
pub open spec fn days_from_civil(y: int, m: int, d: int) -> int {
    let y2 = if m <= 2 { y - 1 } else { y };
    let era = y2 / 400;
    let yoe = y2 - era * 400;
    let mp = (m + 9) % 12;
    let doy = (153 * mp + 2) / 5 + d - 1;
    let doe = yoe * 365 + yoe / 4 - yoe / 100 + doy;
    era * 146097 + doe - 719468
}

/// Unix seconds of a DOS time.
pub open spec fn dos_unix(t: DosTime) -> int {
    days_from_civil(t.year as int, t.month as int, t.day as int) * 86400 + t.hour * 3600
        + t.minute * 60 + t.second
}

/// FILETIME ticks of an entry's time: 0 without a time or before 1970.
pub open spec fn dos_filetime(t: Option<DosTime>) -> int {
    match t {
        Some(d) => if dos_unix(d) <= 0 { 0 } else { (dos_unix(d) + 11_644_473_600) * 10_000_000 },
        None => 0,
    }
}

/// Converts a zip entry's DOS time to FILETIME ticks.
pub fn dos_time_to_filetime(dt: Option<DosTime>) -> (r: u64)
    requires
        dt matches Some(d) ==> 1 <= d.year <= 2107,
    ensures
        r == dos_filetime(dt),
{
    match dt {
        None => 0,
        Some(d) => {
            let m: u64 = d.month as u64;
            let y: u64 = if m <= 2 { d.year as u64 - 1 } else { d.year as u64 };
            let era: u64 = y / 400;
            let yoe: u64 = y - era * 400;
            let mp: u64 = (m + 9) % 12;
            let doy: i64 = ((153 * mp + 2) / 5) as i64 + d.day as i64 - 1;
            let doe: i64 = (yoe * 365 + yoe / 4 - yoe / 100) as i64 + doy;
            let days: i64 = (era * 146097) as i64 + doe - 719468;
            assert(era <= 5);
            assert(yoe < 400);
            assert(mp < 12);
            assert((153 * mp + 2) / 5 <= 337);
            assert(doe <= 399 * 365 + 99 + 337 + 255);
            assert(days <= 5 * 146097 + 399 * 365 + 99 + 337 + 255);
            let secs: i64 = days * 86400 + d.hour as i64 * 3600 + d.minute as i64 * 60 + d.second as i64;
            assert(secs == dos_unix(d));
            if secs <= 0 {
                0
            } else {
                (secs as u64 + 11_644_473_600) * 10_000_000
            }
        },
    }
}

/// One entry of a zip's central directory, as the listing reads it.
#[derive(Clone, Debug)]
pub struct ZipItem {
    pub name: String,
    pub is_dir: bool,
    pub size: u64,
    pub modified: Option<DosTime>,
}

/// Number of leading `/` characters.
pub open spec fn lead_slashes(s: Seq<char>) -> int
    decreases s.len(),
{
    if s.len() > 0 && s[0] == '/' { 1 + lead_slashes(s.drop_first()) } else { 0 }
}

/// Number of trailing `/` characters.
pub open spec fn trail_slashes(s: Seq<char>) -> int
    decreases s.len(),
{
    if s.len() > 0 && s.last() == '/' { 1 + trail_slashes(s.drop_last()) } else { 0 }
}

/// `str::trim_matches('/')`.
pub open spec fn trim_slashes(s: Seq<char>) -> Seq<char> {
    let t = s.skip(lead_slashes(s));
    t.take(t.len() - trail_slashes(t))
}

/// The prefix an entry name must have to sit in folder `inner`.
pub open spec fn zip_prefix(inner: Seq<char>) -> Seq<char> {
    if inner.len() == 0 { Seq::empty() } else { trim_slashes(inner) + seq!['/'] }
}

/// Index of the first `/` in `s`, or -1.
pub open spec fn first_slash(s: Seq<char>) -> int
    decreases s.len(),
{
    if s.len() == 0 {
        -1
    } else if s[0] == '/' {
        0
    } else if first_slash(s.drop_first()) < 0 {
        -1
    } else {
        1 + first_slash(s.drop_first())
    }
}

/// What an entry contributes to the listing of the folder with `prefix`.
pub enum Pick {
    Skip,
    Dir(Seq<char>),
    File(Seq<char>),
}

/// Entries outside the folder, and the folder's own entry, are skipped; an
/// entry further down surfaces its first path segment as a folder; a direct
/// entry is a folder or a file as the archive says.
pub open spec fn pick(name: Seq<char>, is_dir: bool, prefix: Seq<char>) -> Pick {
    let n = name.skip(lead_slashes(name));
    if !(prefix.len() <= n.len() && n.take(prefix.len() as int) == prefix) {
        Pick::Skip
    } else {
        let rest = n.skip(prefix.len() as int);
        if rest.len() == 0 {
            Pick::Skip
        } else if first_slash(rest) >= 0 {
            Pick::Dir(rest.take(first_slash(rest)))
        } else if is_dir {
            Pick::Dir(rest)
        } else {
            Pick::File(rest)
        }
    }
}

/// The folder names surfaced by `items`, first occurrence first, each once.
pub open spec fn zip_dirs(items: Seq<ZipItem>, prefix: Seq<char>) -> Seq<Seq<char>>
    decreases items.len(),
{
    if items.len() == 0 {
        Seq::empty()
    } else {
        let r = zip_dirs(items.drop_last(), prefix);
        match pick(items.last().name@, items.last().is_dir, prefix) {
            Pick::Dir(d) => if r.contains(d) { r } else { r.push(d) },
            _ => r,
        }
    }
}

/// An entry as (name, size, modified, created, attributes).
pub open spec fn entry_view(e: FsEntry) -> (Seq<char>, u64, u64, u64, u32) {
    (e.name@, e.size, e.modified, e.created, e.attributes)
}

pub open spec fn entries_view(s: Seq<FsEntry>) -> Seq<(Seq<char>, u64, u64, u64, u32)> {
    s.map_values(|e: FsEntry| entry_view(e))
}

/// The file entries listed from `items`, in archive order.
pub open spec fn zip_files(items: Seq<ZipItem>, prefix: Seq<char>) -> Seq<(Seq<char>, u64, u64, u64, u32)>
    decreases items.len(),
{
    if items.len() == 0 {
        Seq::empty()
    } else {
        let r = zip_files(items.drop_last(), prefix);
        match pick(items.last().name@, items.last().is_dir, prefix) {
            Pick::File(f) => r.push(
                (f, items.last().size, dos_filetime(items.last().modified) as u64, 0u64, ATTR_READONLY),
            ),
            _ => r,
        }
    }
}

/// The listing of folder `inner` of an archive: its folders (read-only
/// directories, no size or time), then its files (read-only).
pub open spec fn zip_listing_spec(items: Seq<ZipItem>, inner: Seq<char>) -> Seq<(Seq<char>, u64, u64, u64, u32)> {
    let prefix = zip_prefix(inner);
    zip_dirs(items, prefix).map_values(
        |d: Seq<char>| (d, 0u64, 0u64, 0u64, (ATTR_DIRECTORY | ATTR_READONLY) as u32),
    ) + zip_files(items, prefix)
}

proof fn lemma_lead_slashes(s: Seq<char>)
    ensures
        0 <= lead_slashes(s) <= s.len(),
    decreases s.len(),
{
    if s.len() > 0 && s[0] == '/' {
        lemma_lead_slashes(s.drop_first());
    }
}

proof fn lemma_trail_slashes(s: Seq<char>)
    ensures
        0 <= trail_slashes(s) <= s.len(),
    decreases s.len(),
{
    if s.len() > 0 && s.last() == '/' {
        lemma_trail_slashes(s.drop_last());
    }
}

proof fn lemma_first_slash(s: Seq<char>)
    ensures
        -1 <= first_slash(s) < s.len(),
        first_slash(s) >= 0 ==> s[first_slash(s)] == '/',
        forall|k: int| 0 <= k < s.len() && (first_slash(s) < 0 || k < first_slash(s)) ==> s[k] != '/',
    decreases s.len(),
{
    if s.len() > 0 && s[0] != '/' {
        lemma_first_slash(s.drop_first());
        assert forall|k: int| 0 <= k < s.len() && (first_slash(s) < 0 || k < first_slash(s)) implies s[k] != '/' by {
            if k > 0 {
                assert(s.drop_first()[k - 1] == s[k]);
            }
        }
    }
}

fn lead_slashes_exec(v: &Vec<char>) -> (r: usize)
    ensures
        r as int == lead_slashes(v@),
        r <= v.len(),
{
    let mut i: usize = 0;
    assert(v@.skip(0) =~= v@);
    while i < v.len() && v[i] == '/'
        invariant
            i <= v.len(),
            lead_slashes(v@) == i + lead_slashes(v@.skip(i as int)),
        decreases v.len() - i,
    {
        assert(v@.skip(i as int).drop_first() =~= v@.skip(i + 1));
        i += 1;
    }
    i
}

fn prefix_of(inner: &str) -> (r: Vec<char>)
    ensures
        r@ == zip_prefix(inner@),
{
    let v = chars_of(inner);
    if v.len() == 0 {
        return Vec::new();
    }
    let lo = lead_slashes_exec(&v);
    proof {
        lemma_lead_slashes(v@);
    }
    let ghost t = v@.skip(lo as int);
    let mut hi: usize = v.len();
    assert(t =~= v@.subrange(lo as int, hi as int));
    while hi > lo && v[hi - 1] == '/'
        invariant
            lo <= hi <= v.len(),
            t == v@.skip(lo as int),
            trail_slashes(t) == (v.len() - hi) + trail_slashes(v@.subrange(lo as int, hi as int)),
        decreases hi,
    {
        assert(v@.subrange(lo as int, hi as int).drop_last() =~= v@.subrange(lo as int, hi - 1));
        hi -= 1;
    }
    proof {
        lemma_trail_slashes(t);
        assert(t.take(t.len() - trail_slashes(t)) =~= v@.subrange(lo as int, hi as int));
    }
    let mut out: Vec<char> = Vec::new();
    let mut k: usize = lo;
    while k < hi
        invariant
            lo <= k <= hi <= v.len(),
            out@ == v@.subrange(lo as int, k as int),
        decreases hi - k,
    {
        out.push(v[k]);
        k += 1;
        assert(out@ =~= v@.subrange(lo as int, k as int));
    }
    out.push('/');
    out
}

/// What `name` contributes under `prefix` (see `pick`), computed.
fn pick_exec(name: &str, is_dir: bool, prefix: &Vec<char>) -> (r: (u8, String))
    ensures
        r.0 == 0 ==> pick(name@, is_dir, prefix@) is Skip,
        r.0 == 1 ==> pick(name@, is_dir, prefix@) == Pick::Dir(r.1@),
        r.0 == 2 ==> pick(name@, is_dir, prefix@) == Pick::File(r.1@),
        r.0 <= 2,
{
    let v = chars_of(name);
    let lo = lead_slashes_exec(&v);
    let ghost n = v@.skip(lo as int);
    assert(n.len() == v.len() - lo);
    if v.len() - lo < prefix.len() {
        return (0, String::new());
    }
    let mut j: usize = 0;
    while j < prefix.len()
        invariant
            lo + prefix.len() <= v.len(),
            j <= prefix.len(),
            n == v@.skip(lo as int),
            v@ == name@,
            lo as int == lead_slashes(name@),
            forall|k: int| 0 <= k < j ==> v@[lo + k] == prefix@[k],
        decreases prefix.len() - j,
    {
        if v[lo + j] != prefix[j] {
            assert(n.take(prefix.len() as int)[j as int] != prefix@[j as int]);
            return (0, String::new());
        }
        j += 1;
    }
    assert(n.take(prefix.len() as int) =~= prefix@);
    let start = lo + prefix.len();
    let ghost rest = n.skip(prefix.len() as int);
    assert(rest =~= v@.subrange(start as int, v.len() as int));
    if start == v.len() {
        return (0, String::new());
    }
    let mut s: usize = start;
    while s < v.len() && v[s] != '/'
        invariant
            start <= s <= v.len(),
            forall|k: int| start <= k < s ==> v@[k] != '/',
        decreases v.len() - s,
    {
        s += 1;
    }
    proof {
        lemma_first_slash(rest);
    }
    if s < v.len() {
        assert(rest[s - start] == '/');
        assert(first_slash(rest) == s - start) by {
            if first_slash(rest) < 0 || first_slash(rest) > s - start {
                assert(rest[s - start] != '/');
            }
            if 0 <= first_slash(rest) < s - start {
                assert(v@[start + first_slash(rest)] != '/');
            }
        }
        let d = string_of(&v, start, s);
        assert(rest.take(s - start) =~= v@.subrange(start as int, s as int));
        (1, d)
    } else {
        assert(first_slash(rest) < 0) by {
            if first_slash(rest) >= 0 {
                assert(v@[start + first_slash(rest)] == '/');
            }
        }
        let f = string_of(&v, start, v.len());
        if is_dir {
            (1, f)
        } else {
            (2, f)
        }
    }
}

fn contains_string(v: &Vec<String>, s: &String) -> (r: bool)
    ensures
        r == v.deep_view().contains(s@),
{
    let mut i: usize = 0;
    while i < v.len()
        invariant
            i <= v.len(),
            forall|k: int| 0 <= k < i ==> v.deep_view()[k] != s@,
        decreases v.len() - i,
    {
        if v[i] == *s {
            assert(v.deep_view()[i as int] == s@);
            return true;
        }
        i += 1;
    }
    false
}

/// Lists folder `inner` (with `/` separators, empty for the root) of an
/// archive whose entries are `items`.
pub fn list_zip_dir(items: &Vec<ZipItem>, inner: &str) -> (r: Vec<FsEntry>)
    requires
        forall|i: int| 0 <= i < items@.len() ==> ((#[trigger] items@[i]).modified matches Some(d) ==> 1 <= d.year <= 2107),
    ensures
        entries_view(r@) == zip_listing_spec(items@, inner@),
{
    let prefix = prefix_of(inner);
    let mut dirs: Vec<String> = Vec::new();
    let mut files: Vec<FsEntry> = Vec::new();
    let mut i: usize = 0;
    assert(items@.take(0) =~= Seq::<ZipItem>::empty());
    while i < items.len()
        invariant
            i <= items.len(),
            prefix@ == zip_prefix(inner@),
            forall|k: int| 0 <= k < items@.len() ==> ((#[trigger] items@[k]).modified matches Some(d) ==> 1 <= d.year <= 2107),
            dirs.deep_view() == zip_dirs(items@.take(i as int), prefix@),
            entries_view(files@) == zip_files(items@.take(i as int), prefix@),
        decreases items.len() - i,
    {
        assert(items@.take(i + 1).drop_last() =~= items@.take(i as int));
        assert(items@.take(i + 1).last() == items@[i as int]);
        let it = &items[i];
        let (kind, piece) = pick_exec(it.name.as_str(), it.is_dir, &prefix);
        if kind == 1 {
            if !contains_string(&dirs, &piece) {
                let ghost before = dirs.deep_view();
                dirs.push(piece);
                assert(dirs.deep_view() =~= before.push(piece@));
            }
        } else if kind == 2 {
            let ft = dos_time_to_filetime(it.modified);
            let e = FsEntry { name: piece, size: it.size, modified: ft, created: 0, attributes: ATTR_READONLY };
            let ghost before = entries_view(files@);
            files.push(e);
            assert(entries_view(files@) =~= before.push(entry_view(e)));
        }
        i += 1;
    }
    assert(items@.take(items.len() as int) =~= items@);
    let mut out: Vec<FsEntry> = Vec::new();
    let mut k: usize = 0;
    let ghost dv = dirs.deep_view();
    while k < dirs.len()
        invariant
            k <= dirs.len(),
            dv == dirs.deep_view(),
            entries_view(out@) == dv.take(k as int).map_values(
                |d: Seq<char>| (d, 0u64, 0u64, 0u64, (ATTR_DIRECTORY | ATTR_READONLY) as u32),
            ),
        decreases dirs.len() - k,
    {
        let e = FsEntry {
            name: dirs[k].clone(),
            size: 0,
            modified: 0,
            created: 0,
            attributes: ATTR_DIRECTORY | ATTR_READONLY,
        };
        let ghost before = entries_view(out@);
        out.push(e);
        assert(entries_view(out@) =~= before.push(entry_view(e)));
        k += 1;
        assert(entries_view(out@) =~= dv.take(k as int).map_values(
            |d: Seq<char>| (d, 0u64, 0u64, 0u64, (ATTR_DIRECTORY | ATTR_READONLY) as u32),
        ));
    }
    assert(dv.take(dirs.len() as int) =~= dv);
    let ghost dirs_part = entries_view(out@);
    let mut m: usize = 0;
    while m < files.len()
        invariant
            m <= files.len(),
            entries_view(out@) == dirs_part + entries_view(files@).take(m as int),
        decreases files.len() - m,
    {
        let e = files[m].dup();
        let ghost before = entries_view(out@);
        out.push(e);
        assert(entries_view(out@) =~= before.push(entry_view(e)));
        m += 1;
        assert(entries_view(out@) =~= dirs_part + entries_view(files@).take(m as int));
    }
    assert(entries_view(files@).take(files.len() as int) =~= entries_view(files@));
    out
}


// ------------------------------------------------------------ extraction

/// The text after the last `/` (all of it when there is none): the name an
/// inner path is extracted under.
pub open spec fn after_slash(s: Seq<char>) -> Seq<char>
    decreases s.len(),
{
    if s.len() == 0 {
        s
    } else if s.last() == '/' {
        Seq::empty()
    } else {
        after_slash(s.drop_last()).push(s.last())
    }
}

/// The name `inner` is extracted under (see `after_slash`).
pub fn extract_name(inner: &str) -> (r: String)
    ensures
        r@ == after_slash(inner@),
{
    let v = chars_of(inner);
    let mut i: usize = v.len();
    assert(v@.take(i as int) =~= v@);
    assert(v@.subrange(i as int, v.len() as int) =~= Seq::<char>::empty());
    assert(after_slash(v@) =~= after_slash(v@.take(i as int)) + v@.subrange(i as int, v.len() as int));
    while i > 0 && v[i - 1] != '/'
        invariant
            i <= v.len(),
            after_slash(v@) == after_slash(v@.take(i as int)) + v@.subrange(i as int, v.len() as int),
        decreases i,
    {
        let ghost t = v@.take(i as int);
        assert(t.drop_last() =~= v@.take(i - 1));
        assert(v@.subrange(i - 1, v.len() as int) =~= seq![t.last()] + v@.subrange(i as int, v.len() as int));
        i -= 1;
    }
    proof {
        let t = v@.take(i as int);
        if i > 0 {
            assert(t.last() == '/');
        }
        assert(after_slash(t) =~= Seq::<char>::empty());
        assert(v@.subrange(i as int, v.len() as int) =~= v@.subrange(i as int, v.len() as int));
    }
    let r = string_of(&v, i, v.len());
    assert(r@ =~= after_slash(v@));
    r
}

/// The rest of an entry's name (leading slashes dropped) after `prefix`,
/// when it starts with it.
pub open spec fn under_prefix(name: Seq<char>, prefix: Seq<char>) -> Option<Seq<char>> {
    let n = name.skip(lead_slashes(name));
    if prefix.len() <= n.len() && n.take(prefix.len() as int) == prefix {
        Some(n.skip(prefix.len() as int))
    } else {
        None
    }
}

fn under_prefix_exec(name: &str, prefix: &Vec<char>) -> (r: Option<String>)
    ensures
        match r {
            Some(t) => under_prefix(name@, prefix@) == Some(t@),
            None => under_prefix(name@, prefix@) is None,
        },
{
    let v = chars_of(name);
    let lo = lead_slashes_exec(&v);
    let ghost n = v@.skip(lo as int);
    if v.len() - lo < prefix.len() {
        return None;
    }
    let mut j: usize = 0;
    while j < prefix.len()
        invariant
            lo + prefix.len() <= v.len(),
            j <= prefix.len(),
            n == v@.skip(lo as int),
            v@ == name@,
            lo as int == lead_slashes(name@),
            forall|k: int| 0 <= k < j ==> v@[lo + k] == prefix@[k],
        decreases prefix.len() - j,
    {
        if v[lo + j] != prefix[j] {
            assert(n.take(prefix.len() as int)[j as int] != prefix@[j as int]);
            return None;
        }
        j += 1;
    }
    assert(n.take(prefix.len() as int) =~= prefix@);
    let start = lo + prefix.len();
    let rest = string_of(&v, start, v.len());
    assert(rest@ =~= n.skip(prefix.len() as int));
    Some(rest)
}

/// Where a file entry of a folder being extracted goes, relative to the
/// folder's own copy: its path below the folder with `\` separators. Not
/// for entries outside the folder, the folder's own entry, or directories.
pub open spec fn extract_rel(name: Seq<char>, is_dir: bool, prefix: Seq<char>) -> Option<Seq<char>> {
    match under_prefix(name, prefix) {
        Some(rest) => if rest.len() == 0 || is_dir { None } else { Some(back_slashed(rest)) },
        None => None,
    }
}

/// The files a folder extraction writes, in archive order: each entry's
/// name in the archive and its relative destination.
pub open spec fn extract_plan_spec(items: Seq<ZipItem>, prefix: Seq<char>) -> Seq<(Seq<char>, Seq<char>)>
    decreases items.len(),
{
    if items.len() == 0 {
        Seq::empty()
    } else {
        let r = extract_plan_spec(items.drop_last(), prefix);
        match extract_rel(items.last().name@, items.last().is_dir, prefix) {
            Some(rel) => r.push((items.last().name@, rel)),
            None => r,
        }
    }
}

/// The prefix of the entries below folder `inner`: its path without outer
/// slashes, then `/`.
pub open spec fn folder_prefix(inner: Seq<char>) -> Seq<char> {
    trim_slashes(inner) + seq!['/']
}

/// The files that extracting folder `inner` of an archive with entries
/// `items` writes (see `extract_plan_spec`).
pub fn folder_extract_plan(items: &Vec<ZipItem>, inner: &str) -> (r: Vec<(String, String)>)
    ensures
        r@.map_values(|p: (String, String)| (p.0@, p.1@)) == extract_plan_spec(items@, folder_prefix(inner@)),
{
    let prefix = if inner.is_empty() {
        let v = vec!['/'];
        proof {
            let e = inner@;
            assert(e.len() == 0);
            assert(lead_slashes(e) == 0);
            assert(e.skip(0) =~= e);
            assert(trail_slashes(e) == 0);
            assert(trim_slashes(e) =~= Seq::<char>::empty());
        }
        assert(v@ =~= folder_prefix(inner@));
        v
    } else {
        prefix_of(inner)
    };
    let ghost pv = prefix@;
    let mut out: Vec<(String, String)> = Vec::new();
    let mut i: usize = 0;
    assert(items@.take(0) =~= Seq::<ZipItem>::empty());
    while i < items.len()
        invariant
            i <= items.len(),
            pv == prefix@,
            pv == folder_prefix(inner@),
            out@.map_values(|p: (String, String)| (p.0@, p.1@)) == extract_plan_spec(items@.take(i as int), pv),
        decreases items.len() - i,
    {
        assert(items@.take(i + 1).drop_last() =~= items@.take(i as int));
        assert(items@.take(i + 1).last() == items@[i as int]);
        let it = &items[i];
        match under_prefix_exec(it.name.as_str(), &prefix) {
            Some(rest) => {
                if !rest.as_str().is_empty() && !it.is_dir {
                    let rel = back_slash(rest.as_str());
                    let ghost before = out@.map_values(|p: (String, String)| (p.0@, p.1@));
                    out.push((it.name.clone(), rel));
                    assert(out@.map_values(|p: (String, String)| (p.0@, p.1@)) =~= before.push((it.name@, back_slashed(rest@))));
                }
            },
            None => {},
        }
        i += 1;
    }
    assert(items@.take(items.len() as int) =~= items@);
    out
}

} // verus!
