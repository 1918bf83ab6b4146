//! Filesystem entries: a name plus the fixed-size facts about it.
use vstd::prelude::*;
use crate::paths::{last_dot, last_dot_exec};

verus! {

/// Windows file attribute bits (mirrors `FILE_ATTRIBUTE_*`).
pub const ATTR_READONLY: u32 = 0x0001;
pub const ATTR_HIDDEN: u32 = 0x0002;
pub const ATTR_SYSTEM: u32 = 0x0004;
pub const ATTR_DIRECTORY: u32 = 0x0010;
pub const ATTR_REPARSE_POINT: u32 = 0x0400;

/// One directory entry.
#[derive(Clone, Debug)]
pub struct FsEntry {
    pub name: String,
    pub size: u64,
    /// FILETIME (100 ns ticks since 1601-01-01 UTC).
    pub modified: u64,
    /// FILETIME (100 ns ticks since 1601-01-01 UTC).
    pub created: u64,
    pub attributes: u32,
}

pub open spec fn attr_dir(a: u32) -> bool {
    a & 0x0010u32 != 0
}

pub open spec fn attr_hidden(a: u32) -> bool {
    a & 0x0006u32 != 0
}

/// The extension rule on a name: the text after the last dot, when that dot
/// is neither the first nor the last character.
pub open spec fn name_ext(n: Seq<char>) -> Seq<char> {
    let d = last_dot(n);
    if d > 0 && d + 1 < n.len() {
        n.subrange(d + 1, n.len() as int)
    } else {
        Seq::empty()
    }
}

impl FsEntry {
    pub open spec fn dir(&self) -> bool {
        attr_dir(self.attributes)
    }

    pub open spec fn hidden(&self) -> bool {
        attr_hidden(self.attributes)
    }

    /// Extension without the dot; empty for directories.
    pub open spec fn ext_spec(&self) -> Seq<char> {
        if self.dir() { Seq::empty() } else { name_ext(self.name@) }
    }

    /// A copy of this entry.
    pub fn dup(&self) -> (r: FsEntry)
        ensures
            r == *self,
    {
        FsEntry {
            name: self.name.clone(),
            size: self.size,
            modified: self.modified,
            created: self.created,
            attributes: self.attributes,
        }
    }

    pub fn is_dir(&self) -> (r: bool)
        ensures
            r == self.dir(),
    {
        self.attributes & ATTR_DIRECTORY != 0
    }

    /// Hidden or system.
    pub fn is_hidden(&self) -> (r: bool)
        ensures
            r == self.hidden(),
    {
        let a = self.attributes;
        assert((a & (0x0002u32 | 0x0004u32)) == (a & 0x0006u32)) by (bit_vector);
        self.attributes & (ATTR_HIDDEN | ATTR_SYSTEM) != 0
    }

    pub fn is_reparse(&self) -> (r: bool)
        ensures
            r == (self.attributes & 0x0400u32 != 0),
    {
        self.attributes & ATTR_REPARSE_POINT != 0
    }

    /// Extension without the dot. Empty for directories and names without a
    /// dot (or with only a leading or trailing one). Not lowercased.
    pub fn ext(&self) -> (r: String)
        ensures
            r@ == self.ext_spec(),
    {
        if self.is_dir() {
            return String::new();
        }
        let v = crate::text::chars_of(self.name.as_str());
        match last_dot_exec(&v) {
            Some(d) if d > 0 && d + 1 < v.len() => crate::text::string_of(&v, d + 1, v.len()),
            _ => String::new(),
        }
    }
}

/// Convert a FILETIME tick count to unix seconds (negative before 1970).
pub fn filetime_to_unix_secs(ft: u64) -> (r: i64)
    ensures
        r == ft / 10_000_000 - 11_644_473_600,
{
    let secs: u64 = ft / 10_000_000;
    assert(secs <= 0x7fff_ffff_ffff_ffffu64);
    (secs as i64) - 11_644_473_600
}

} // verus!
