//! Immutable snapshots of a directory listing.
use vstd::prelude::*;
use std::sync::Arc;
use crate::entry::FsEntry;

verus! {

/// A directory listing as produced by a worker. The UI never mutates it.
#[derive(Clone, Debug)]
pub struct DirSnapshot {
    pub path: String,
    pub entries: Arc<Vec<FsEntry>>,
    /// Monotonic per-tab generation; stale results are dropped by the UI.
    pub generation: u64,
    /// False while enumeration batches are still streaming in.
    pub complete: bool,
    pub error: Option<String>,
    pub dir_count: usize,
    pub file_count: usize,
    pub file_bytes: u64,
}

/// Number of folders among `s`.
pub open spec fn count_dirs(s: Seq<FsEntry>) -> int
    decreases s.len(),
{
    if s.len() == 0 { 0 } else { count_dirs(s.drop_last()) + if s.last().dir() { 1int } else { 0int } }
}

/// Total size of the files (not folders) among `s`.
pub open spec fn file_bytes_of(s: Seq<FsEntry>) -> int
    decreases s.len(),
{
    if s.len() == 0 { 0 } else { file_bytes_of(s.drop_last()) + if s.last().dir() { 0int } else { s.last().size as int } }
}

proof fn lemma_count_bound(s: Seq<FsEntry>)
    ensures
        0 <= count_dirs(s) <= s.len(),
        0 <= file_bytes_of(s),
    decreases s.len(),
{
    if s.len() > 0 {
        lemma_count_bound(s.drop_last());
    }
}

proof fn lemma_bytes_prefix(s: Seq<FsEntry>, i: int)
    requires
        0 <= i <= s.len(),
    ensures
        file_bytes_of(s.take(i)) <= file_bytes_of(s),
    decreases s.len() - i,
{
    if i < s.len() {
        lemma_bytes_prefix(s, i + 1);
        assert(s.take(i + 1).drop_last() =~= s.take(i));
    } else {
        assert(s.take(i) =~= s);
    }
}

impl DirSnapshot {
    pub fn empty(path: String, generation: u64) -> (r: DirSnapshot)
        ensures
            r.path == path,
            r.entries@.len() == 0,
            r.generation == generation,
            !r.complete,
            r.error is None,
            r.dir_count == 0,
            r.file_count == 0,
            r.file_bytes == 0,
    {
        DirSnapshot {
            path,
            entries: Arc::new(Vec::new()),
            generation,
            complete: false,
            error: None,
            dir_count: 0,
            file_count: 0,
            file_bytes: 0,
        }
    }

    /// Recount folders, files and file bytes from the entries.
    pub fn recompute_counts(&mut self)
        requires
            file_bytes_of(old(self).entries@) <= u64::MAX,
        ensures
            final(self).dir_count == count_dirs(old(self).entries@),
            final(self).file_count == old(self).entries@.len() - count_dirs(old(self).entries@),
            final(self).file_bytes == file_bytes_of(old(self).entries@),
            final(self).path == old(self).path,
            final(self).entries == old(self).entries,
            final(self).generation == old(self).generation,
            final(self).complete == old(self).complete,
            final(self).error == old(self).error,
    {
        let mut dirs: usize = 0;
        let mut bytes: u64 = 0;
        let n = self.entries.len();
        let ghost es = self.entries@;
        let mut i: usize = 0;
        while i < n
            invariant
                n == es.len(),
                es == self.entries@,
                file_bytes_of(es) <= u64::MAX,
                i <= n,
                dirs == count_dirs(es.take(i as int)),
                bytes == file_bytes_of(es.take(i as int)),
            decreases n - i,
        {
            proof {
                assert(es.take(i + 1).drop_last() =~= es.take(i as int));
                lemma_count_bound(es.take(i as int));
                lemma_bytes_prefix(es, i + 1);
            }
            let e = &self.entries[i];
            if e.is_dir() {
                dirs += 1;
            } else {
                bytes += e.size;
            }
            i += 1;
        }
        assert(es.take(n as int) =~= es);
        proof {
            lemma_count_bound(es);
        }
        self.dir_count = dirs;
        self.file_count = n - dirs;
        self.file_bytes = bytes;
    }

    pub fn total_size(&self) -> (r: u64)
        ensures
            r == self.file_bytes,
    {
        self.file_bytes
    }

    /// `(folders, files)`.
    pub fn counts(&self) -> (r: (usize, usize))
        ensures
            r == (self.dir_count, self.file_count),
    {
        (self.dir_count, self.file_count)
    }
}

} // verus!
