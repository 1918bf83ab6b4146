//! Data the program exchanges with the Windows shell: the file list of a
//! drag or a clipboard copy, the search pattern a directory listing starts
//! from, the entry a directory record becomes, and the order a folder tree
//! is walked in.
use vstd::prelude::*;
use crate::entry::{FsEntry, attr_dir};
use crate::everything::{utf16_encode, utf16_units, utf16_decode, from_utf16_lossy};
use crate::paths::{join, join_spec};
use crate::text::{chars_of, owned, push_char};

verus! {

/// Bytes of the `DROPFILES` header: list offset, a point, two flags.
pub const DROPFILES_LEN: usize = 20;

/// The little-endian bytes of a 16-bit unit list.
pub open spec fn unit_bytes(u: Seq<u16>) -> Seq<u8>
    decreases u.len(),
{
    if u.len() == 0 {
        Seq::empty()
    } else {
        unit_bytes(u.drop_last()) + seq![(u.last() % 256) as u8, (u.last() / 256) as u8]
    }
}

/// Each path in UTF-16 with a terminating zero, then one more zero.
pub open spec fn path_list(paths: Seq<Seq<char>>) -> Seq<u16>
    decreases paths.len(),
{
    if paths.len() == 0 {
        seq![0u16]
    } else {
        path_list(paths.drop_last()).drop_last() + utf16_encode(paths.last()).push(0u16).push(0u16)
    }
}

/// A `DROPFILES` block: the header (list at offset 20, point (0, 0), not
/// client coordinates, wide characters) then the path list.
pub open spec fn drop_files_spec(paths: Seq<Seq<char>>) -> Seq<u8> {
    seq![20u8, 0, 0, 0, 0, 0, 0, 0, 0, 0, 0, 0, 0, 0, 0, 0, 1, 0, 0, 0] + unit_bytes(path_list(paths))
}

fn push_units(buf: &mut Vec<u8>, u: &Vec<u16>)
    ensures
        final(buf)@ == old(buf)@ + unit_bytes(u@),
{
    let ghost head = buf@;
    let mut k: usize = 0;
    assert(u@.take(0) =~= Seq::<u16>::empty());
    assert(head + unit_bytes(Seq::<u16>::empty()) =~= head);
    while k < u.len()
        invariant
            k <= u.len(),
            buf@ == head + unit_bytes(u@.take(k as int)),
        decreases u.len() - k,
    {
        assert(u@.take(k + 1).drop_last() =~= u@.take(k as int));
        let x = u[k];
        let ghost before = buf@;
        buf.push((x % 256) as u8);
        buf.push((x / 256) as u8);
        assert(buf@ =~= before + seq![(x % 256) as u8, (x / 256) as u8]);
        k += 1;
    }
    assert(u@.take(u.len() as int) =~= u@);
}

/// The `DROPFILES` block that puts files on the clipboard.
pub fn drop_files_block(paths: &Vec<String>) -> (r: Vec<u8>)
    ensures
        r@ == drop_files_spec(paths.deep_view()),
{
    let ghost pv = paths.deep_view();
    let mut list: Vec<u16> = vec![0u16];
    let mut i: usize = 0;
    assert(pv.take(0) =~= Seq::<Seq<char>>::empty());
    while i < paths.len()
        invariant
            i <= paths.len(),
            pv == paths.deep_view(),
            list@ == path_list(pv.take(i as int)),
            list@.len() > 0,
        decreases paths.len() - i,
    {
        assert(pv.take(i + 1).drop_last() =~= pv.take(i as int));
        assert(pv.take(i + 1).last() == paths@[i as int]@);
        let ghost before = list@;
        let _ = list.pop();
        let w = utf16_units(paths[i].as_str());
        let mut k: usize = 0;
        while k < w.len()
            invariant
                k <= w.len(),
                list@ == before.drop_last() + w@.take(k as int),
            decreases w.len() - k,
        {
            list.push(w[k]);
            k += 1;
            assert(list@ =~= before.drop_last() + w@.take(k as int));
        }
        assert(w@.take(w.len() as int) =~= w@);
        list.push(0);
        list.push(0);
        assert(list@ =~= before.drop_last() + w@.push(0u16).push(0u16));
        i += 1;
    }
    assert(pv.take(paths.len() as int) =~= pv);
    let mut buf: Vec<u8> = vec![20u8, 0, 0, 0, 0, 0, 0, 0, 0, 0, 0, 0, 0, 0, 0, 0, 1, 0, 0, 0];
    push_units(&mut buf, &list);
    buf
}

/// The `DROPFILES` block a drag carries; none for an empty drag.
pub fn pack_hdrop(paths: &Vec<String>) -> (r: Option<Vec<u8>>)
    ensures
        paths@.len() == 0 ==> r is None,
        paths@.len() > 0 ==> (r matches Some(b) && b@ == drop_files_spec(paths.deep_view())),
{
    if paths.len() == 0 {
        None
    } else {
        Some(drop_files_block(paths))
    }
}

/// Text for the clipboard: UTF-16 with a terminating zero.
pub fn clipboard_text_units(text: &str) -> (r: Vec<u16>)
    ensures
        r@ == utf16_encode(text@).push(0u16),
{
    let mut w = utf16_units(text);
    w.push(0);
    w
}

pub open spec fn starts_with_chars(s: Seq<char>, p: Seq<char>) -> bool {
    p.len() <= s.len() && s.take(p.len() as int) == p
}

/// The pattern a directory listing starts from: the path in extended-length
/// form (`\\?\`, or `\\?\UNC\` for a share), a `\`, then `*`.
pub open spec fn search_pattern_text(p: Seq<char>) -> Seq<char> {
    let base = if starts_with_chars(p, "\\\\?\\"@) {
        p
    } else if starts_with_chars(p, "\\\\"@) {
        "\\\\?\\UNC\\"@ + p.skip(2)
    } else {
        "\\\\?\\"@ + p
    };
    let with_sep = if base.len() > 0 && base.last() == '\\' { base } else { base.push('\\') };
    with_sep.push('*')
}

fn starts_exec(v: &Vec<char>, p: &str) -> (r: bool)
    ensures
        r == starts_with_chars(v@, p@),
{
    let pv = chars_of(p);
    if pv.len() > v.len() {
        return false;
    }
    let mut i: usize = 0;
    while i < pv.len()
        invariant
            pv@ == p@,
            pv.len() <= v.len(),
            i <= pv.len(),
            forall|k: int| 0 <= k < i ==> v@[k] == pv@[k],
        decreases pv.len() - i,
    {
        if v[i] != pv[i] {
            assert(v@.take(pv.len() as int)[i as int] != pv@[i as int]);
            return false;
        }
        i += 1;
    }
    assert(v@.take(pv.len() as int) =~= pv@);
    true
}

/// The wide search pattern of a directory, zero-terminated.
pub fn wide_search_pattern(path: &str) -> (r: Vec<u16>)
    ensures
        r@ == utf16_encode(search_pattern_text(path@)).push(0u16),
{
    let v = chars_of(path);
    proof {
        reveal_strlit("\\\\");
    }
    let mut out = if starts_exec(&v, "\\\\?\\") {
        owned(path)
    } else if starts_exec(&v, "\\\\") {
        let mut s = owned("\\\\?\\UNC\\");
        let rest = crate::text::string_of(&v, 2, v.len());
        assert(v@.subrange(2, v@.len() as int) =~= path@.skip(2));
        s.append(rest.as_str());
        s
    } else {
        let mut s = owned("\\\\?\\");
        s.append(path);
        s
    };
    let ov = chars_of(out.as_str());
    if !(ov.len() > 0 && ov[ov.len() - 1] == '\\') {
        push_char(&mut out, '\\');
    }
    push_char(&mut out, '*');
    let mut w = utf16_units(out.as_str());
    w.push(0);
    w
}

/// A 64-bit value from its high and low halves.
pub open spec fn join64(hi: u32, lo: u32) -> u64 {
    ((hi as u64) * 0x1_0000_0000 + lo as u64) as u64
}

fn join64_exec(hi: u32, lo: u32) -> (r: u64)
    ensures
        r == join64(hi, lo),
{
    let r = ((hi as u64) << 32u64) | lo as u64;
    assert(((hi as u64) << 32u64) | lo as u64 == (hi as u64) * 0x1_0000_0000 + lo as u64) by (bit_vector);
    r
}

/// The name units of a directory record: up to the first zero.
pub open spec fn name_units(u: Seq<u16>) -> Seq<u16>
    decreases u.len(),
{
    if u.len() == 0 || u[0] == 0 { Seq::empty() } else { seq![u[0]] + name_units(u.drop_first()) }
}

/// The entry a directory record becomes: none for `.` and `..` (and an
/// empty name); else the decoded name with size, write time, creation
/// time and attributes.
pub open spec fn record_entry(name: Seq<u16>, size: u64, modified: u64, created: u64, attributes: u32) -> Option<(Seq<char>, u64, u64, u64, u32)> {
    let n = name_units(name);
    if n.len() == 0 || (n[0] == 46 && (n.len() == 1 || (n.len() == 2 && n[1] == 46))) {
        None
    } else {
        Some((utf16_decode(n), size, modified, created, attributes))
    }
}

/// A directory record from the file system, as the listing reads it.
pub struct FindRecord {
    pub file_name: Vec<u16>,
    pub size_high: u32,
    pub size_low: u32,
    pub write_high: u32,
    pub write_low: u32,
    pub create_high: u32,
    pub create_low: u32,
    pub attributes: u32,
}

/// Converts a directory record to an entry.
pub fn find_data_to_entry(fd: &FindRecord) -> (r: Option<FsEntry>)
    ensures
        r matches Some(e) ==> record_entry(
            fd.file_name@,
            join64(fd.size_high, fd.size_low),
            join64(fd.write_high, fd.write_low),
            join64(fd.create_high, fd.create_low),
            fd.attributes,
        ) == Some((e.name@, e.size, e.modified, e.created, e.attributes)),
        r is None ==> record_entry(
            fd.file_name@,
            join64(fd.size_high, fd.size_low),
            join64(fd.write_high, fd.write_low),
            join64(fd.create_high, fd.create_low),
            fd.attributes,
        ) is None,
{
    let u = &fd.file_name;
    let mut len: usize = 0;
    assert(u@.skip(0) =~= u@);
    while len < u.len() && u[len] != 0
        invariant
            len <= u.len(),
            name_units(u@) == u@.take(len as int) + name_units(u@.skip(len as int)),
        decreases u.len() - len,
    {
        assert(u@.skip(len as int).drop_first() =~= u@.skip(len + 1));
        assert(u@.take(len + 1) =~= u@.take(len as int).push(u@[len as int]));
        len += 1;
    }
    assert(name_units(u@.skip(len as int)) =~= Seq::<u16>::empty());
    assert(name_units(u@) =~= u@.take(len as int));
    if len == 0 || (u[0] == 46 && (len == 1 || (len == 2 && u[1] == 46))) {
        return None;
    }
    let mut n: Vec<u16> = Vec::new();
    let mut k: usize = 0;
    while k < len
        invariant
            k <= len <= u.len(),
            n@ == u@.take(k as int),
        decreases len - k,
    {
        n.push(u[k]);
        k += 1;
        assert(n@ =~= u@.take(k as int));
    }
    let name = from_utf16_lossy(n.as_slice());
    Some(FsEntry {
        name,
        size: join64_exec(fd.size_high, fd.size_low),
        modified: join64_exec(fd.write_high, fd.write_low),
        created: join64_exec(fd.create_high, fd.create_low),
        attributes: fd.attributes,
    })
}

/// A depth-first walk of a folder tree by relative paths: the folder to
/// list next is the one pushed last.
pub struct TreeWalk {
    pub stack: Vec<String>,
}

/// The folders a listed batch adds to the walk: its folders that are not
/// reparse points, joined to the batch's folder, in order.
pub open spec fn child_dirs(rel: Seq<char>, batch: Seq<FsEntry>) -> Seq<Seq<char>>
    decreases batch.len(),
{
    if batch.len() == 0 {
        Seq::empty()
    } else {
        let prev = child_dirs(rel, batch.drop_last());
        let e = batch.last();
        if attr_dir(e.attributes) && e.attributes & 0x0400u32 == 0 {
            prev.push(join_spec(rel, e.name@))
        } else {
            prev
        }
    }
}

impl TreeWalk {
    /// A walk that starts at the root (the empty relative path).
    pub fn new() -> (r: TreeWalk)
        ensures
            r.stack.deep_view() == seq![Seq::<char>::empty()],
    {
        let r = TreeWalk { stack: vec![String::new()] };
        assert(r.stack.deep_view() =~= seq![Seq::<char>::empty()]);
        r
    }

    /// The next folder to list, taken off the walk.
    pub fn next_dir(&mut self) -> (r: Option<String>)
        ensures
            old(self).stack@.len() == 0 ==> r is None && final(self).stack@.len() == 0,
            old(self).stack@.len() > 0 ==> (r matches Some(d) && d@ == old(self).stack.deep_view().last()
                && final(self).stack.deep_view() == old(self).stack.deep_view().drop_last()),
    {
        let ghost before = self.stack.deep_view();
        let r = self.stack.pop();
        proof {
            if before.len() > 0 {
                assert(self.stack.deep_view() =~= before.drop_last());
            }
        }
        r
    }

    /// Records a listed batch of folder `rel`: its subfolders join the walk.
    pub fn add_batch(&mut self, rel: &str, batch: &[FsEntry])
        ensures
            final(self).stack.deep_view() == old(self).stack.deep_view() + child_dirs(rel@, batch@),
    {
        let ghost start = self.stack.deep_view();
        let mut i: usize = 0;
        assert(batch@.take(0) =~= Seq::<FsEntry>::empty());
        assert(start + Seq::<Seq<char>>::empty() =~= start);
        while i < batch.len()
            invariant
                i <= batch.len(),
                self.stack.deep_view() == start + child_dirs(rel@, batch@.take(i as int)),
            decreases batch.len() - i,
        {
            assert(batch@.take(i + 1).drop_last() =~= batch@.take(i as int));
            assert(batch@.take(i + 1).last() == batch@[i as int]);
            let e = &batch[i];
            if e.is_dir() && !e.is_reparse() {
                let child = join(rel, e.name.as_str());
                let ghost before = self.stack.deep_view();
                self.stack.push(child);
                assert(self.stack.deep_view() =~= before.push(child@));
            }
            i += 1;
        }
        assert(batch@.take(batch.len() as int) =~= batch@);
    }
}

/// The total size of a batch added to `total`.
pub fn add_sizes(total: u64, batch: &[FsEntry]) -> (r: u64)
    requires
        total + sizes(batch@) <= u64::MAX,
    ensures
        r == total + sizes(batch@),
{
    let mut t = total;
    let mut i: usize = 0;
    assert(batch@.take(0) =~= Seq::<FsEntry>::empty());
    while i < batch.len()
        invariant
            i <= batch.len(),
            total + sizes(batch@) <= u64::MAX,
            t == total + sizes(batch@.take(i as int)),
        decreases batch.len() - i,
    {
        assert(batch@.take(i + 1).drop_last() =~= batch@.take(i as int));
        proof {
            lemma_sizes_prefix(batch@, i + 1);
        }
        t = t + batch[i].size;
        i += 1;
    }
    assert(batch@.take(batch.len() as int) =~= batch@);
    t
}

/// The sizes of a batch summed.
pub open spec fn sizes(b: Seq<FsEntry>) -> int
    decreases b.len(),
{
    if b.len() == 0 { 0 } else { sizes(b.drop_last()) + b.last().size }
}

proof fn lemma_sizes_prefix(b: Seq<FsEntry>, k: int)
    requires
        0 <= k <= b.len(),
    ensures
        sizes(b.take(k)) <= sizes(b),
    decreases b.len() - k,
{
    if k < b.len() {
        assert(b.take(k + 1).drop_last() =~= b.take(k));
        lemma_sizes_prefix(b, k + 1);
    } else {
        assert(b.take(k) =~= b);
    }
}

} // verus!
