//! Background work the interface hands out, and how a listing result is
//! matched to the tab that asked for it.
use vstd::prelude::*;
use std::sync::Arc;
use crate::entry::FsEntry;
use crate::sort::SortSpec;

verus! {

/// Identifies the listing request a result answers.
#[derive(Clone, Copy, Debug, PartialEq, Eq, Structural)]
pub struct ListingToken {
    pub pane: usize,
    pub tab_uid: u64,
    pub generation: u64,
}

impl ListingToken {
    /// A result is still wanted when it answers the tab's latest request.
    pub fn is_current(self, pane: usize, tab_uid: u64, generation: u64) -> (r: bool)
        ensures
            r == (self.pane == pane && self.tab_uid == tab_uid && self.generation == generation),
    {
        self.pane == pane && self.tab_uid == tab_uid && self.generation == generation
    }
}

/// A piece of background work.
pub enum Job {
    ReadDir { token: ListingToken, path: String, flatten: bool },
    BuildView {
        token: ListingToken,
        entries: Arc<Vec<FsEntry>>,
        spec: SortSpec,
        filter: String,
        show_hidden: bool,
    },
    IconExt { key: String, ext: String, is_dir: bool },
    IconPath { key: String, path: String },
    DirSize { path: String },
    SearchNames { query_id: u64, query: String, max: usize, scope: Option<String> },
    ContentSearch {
        query_id: u64,
        scope: String,
        needle: String,
        max_results: usize,
        max_file_size: u64,
    },
    Preview { path: String, generation: u64 },
    ColumnValue { plugin: usize, path: String },
    Checksum { path: String },
    /// Subdirectory names only (for the tree sidebar).
    ListDirs { path: String },
    CompareFolders { query_id: u64, left: String, right: String, recursive: bool },
}

} // verus!
