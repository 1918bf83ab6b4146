//! File operations as data: what a queued operation is, which paths it
//! touches, how the engine labels it, which folders it refreshes and what its
//! undo looks like. The engine that performs them lives outside the library;
//! it asks these functions what to do and hands their answers back.
use vstd::prelude::*;
use crate::paths::{
    file_name, parent, join, starts_with, starts_with_spec, file_name_spec, parent_spec,
    join_spec, components, same_path, stem_ext, last_dot_exec,
};
use crate::text::{decimal, decimal_spec, owned, chars_of, string_of};

verus! {

/// Most operations the engine runs at once.
pub const MAX_WORKERS: usize = 4;

/// Who asked for an operation.
#[derive(Clone, Copy, Debug, PartialEq, Eq, Structural)]
pub enum OpOrigin {
    User,
    Undo,
    Redo,
}

/// A queued file operation. Paths are Windows path strings.
#[derive(Clone, Debug)]
pub enum Operation {
    Copy { sources: Vec<String>, dest_dir: String },
    Move { sources: Vec<String>, dest_dir: String },
    Delete { paths: Vec<String>, recycle: bool },
    Rename { from: String, to: String },
    NewFolder { path: String },
    NewFile { path: String },
    RecycleRestore { parsing_names: Vec<String>, refresh: Vec<String> },
    RecycleDelete { parsing_names: Vec<String> },
}

/// An operation with its strings taken as character sequences.
pub enum OpV {
    Copy { sources: Seq<Seq<char>>, dest_dir: Seq<char> },
    Move { sources: Seq<Seq<char>>, dest_dir: Seq<char> },
    Delete { paths: Seq<Seq<char>>, recycle: bool },
    Rename { from: Seq<char>, to: Seq<char> },
    NewFolder { path: Seq<char> },
    NewFile { path: Seq<char> },
    RecycleRestore { parsing_names: Seq<Seq<char>>, refresh: Seq<Seq<char>> },
    RecycleDelete { parsing_names: Seq<Seq<char>> },
}

impl View for Operation {
    type V = OpV;

    open spec fn view(&self) -> OpV {
        match self {
            Operation::Copy { sources, dest_dir } => OpV::Copy {
                sources: sources.deep_view(),
                dest_dir: dest_dir@,
            },
            Operation::Move { sources, dest_dir } => OpV::Move {
                sources: sources.deep_view(),
                dest_dir: dest_dir@,
            },
            Operation::Delete { paths, recycle } => OpV::Delete {
                paths: paths.deep_view(),
                recycle: *recycle,
            },
            Operation::Rename { from, to } => OpV::Rename { from: from@, to: to@ },
            Operation::NewFolder { path } => OpV::NewFolder { path: path@ },
            Operation::NewFile { path } => OpV::NewFile { path: path@ },
            Operation::RecycleRestore { parsing_names, refresh } => OpV::RecycleRestore {
                parsing_names: parsing_names.deep_view(),
                refresh: refresh.deep_view(),
            },
            Operation::RecycleDelete { parsing_names } => OpV::RecycleDelete {
                parsing_names: parsing_names.deep_view(),
            },
        }
    }
}

/// Inverse action recorded for undo.
#[derive(Clone, Debug)]
pub enum UndoAction {
    DeletePaths(Vec<String>),
    MoveBack { pairs: Vec<(String, String)> },
    RenameBack { from: String, to: String },
}

/// An undo action with its strings taken as character sequences.
pub enum UndoV {
    DeletePaths(Seq<Seq<char>>),
    MoveBack { pairs: Seq<(Seq<char>, Seq<char>)> },
    RenameBack { from: Seq<char>, to: Seq<char> },
}

impl View for UndoAction {
    type V = UndoV;

    open spec fn view(&self) -> UndoV {
        match self {
            UndoAction::DeletePaths(p) => UndoV::DeletePaths(p.deep_view()),
            UndoAction::MoveBack { pairs } => UndoV::MoveBack { pairs: pairs.deep_view() },
            UndoAction::RenameBack { from, to } => UndoV::RenameBack { from: from@, to: to@ },
        }
    }
}

/// How the user settled a name clash at the destination.
#[derive(Clone, Copy, Debug, PartialEq, Eq, Structural)]
pub enum ConflictResolution {
    Overwrite,
    Skip,
    AutoRename,
    Cancel,
}

/// What the engine reports about an operation.
#[derive(Clone, Debug)]
pub enum OpEvent {
    Started { op_id: u64, origin: OpOrigin, label: String, total_bytes: u64, total_files: u64 },
    Progress {
        op_id: u64,
        done_bytes: u64,
        total_bytes: u64,
        done_files: u64,
        total_files: u64,
        current: String,
    },
    Conflict { op_id: u64, source: String, dest: String },
    Done {
        op_id: u64,
        origin: OpOrigin,
        undo: Option<UndoAction>,
        refresh: Vec<String>,
        created: Vec<String>,
    },
    Failed { op_id: u64, origin: OpOrigin, error: String },
    Cancelled { op_id: u64, origin: OpOrigin },
}

/// A copy of a list of strings.
pub fn dup_strings(v: &Vec<String>) -> (r: Vec<String>)
    ensures
        r@ == v@,
        r.deep_view() == v.deep_view(),
{
    let r = v.clone();
    assert(r@ =~= v@);
    assert(r.deep_view() =~= v.deep_view());
    r
}

impl Operation {
    /// A copy of this operation.
    pub fn dup(&self) -> (r: Operation)
        ensures
            r@ == self@,
    {
        match self {
            Operation::Copy { sources, dest_dir } => Operation::Copy {
                sources: dup_strings(sources),
                dest_dir: dest_dir.clone(),
            },
            Operation::Move { sources, dest_dir } => Operation::Move {
                sources: dup_strings(sources),
                dest_dir: dest_dir.clone(),
            },
            Operation::Delete { paths, recycle } => Operation::Delete {
                paths: dup_strings(paths),
                recycle: *recycle,
            },
            Operation::Rename { from, to } => Operation::Rename { from: from.clone(), to: to.clone() },
            Operation::NewFolder { path } => Operation::NewFolder { path: path.clone() },
            Operation::NewFile { path } => Operation::NewFile { path: path.clone() },
            Operation::RecycleRestore { parsing_names, refresh } => Operation::RecycleRestore {
                parsing_names: dup_strings(parsing_names),
                refresh: dup_strings(refresh),
            },
            Operation::RecycleDelete { parsing_names } => Operation::RecycleDelete {
                parsing_names: dup_strings(parsing_names),
            },
        }
    }

    /// The line the queue shows for this operation.
    pub fn label(&self) -> (r: String)
        ensures
            r@ == label_spec(self@),
    {
        match self {
            Operation::Copy { sources, dest_dir } => {
                let mut s = counted("Copy ", sources.len(), " item(s) to ");
                s.append(dest_dir.as_str());
                s
            },
            Operation::Move { sources, dest_dir } => {
                let mut s = counted("Move ", sources.len(), " item(s) to ");
                s.append(dest_dir.as_str());
                s
            },
            Operation::Delete { paths, recycle } => {
                if *recycle {
                    counted("Recycle ", paths.len(), " item(s)")
                } else {
                    counted("Delete ", paths.len(), " item(s)")
                }
            },
            Operation::Rename { from, to } => {
                let mut s = owned("Rename ");
                let a = name_or_empty(from.as_str());
                s.append(a.as_str());
                s.append(" to ");
                let b = name_or_empty(to.as_str());
                s.append(b.as_str());
                s
            },
            Operation::NewFolder { path } => {
                let mut s = owned("New folder ");
                s.append(path.as_str());
                s
            },
            Operation::NewFile { path } => {
                let mut s = owned("New file ");
                s.append(path.as_str());
                s
            },
            Operation::RecycleRestore { parsing_names, .. } => {
                counted("Restore ", parsing_names.len(), " item(s)")
            },
            Operation::RecycleDelete { parsing_names } => {
                counted("Delete permanently ", parsing_names.len(), " item(s)")
            },
        }
    }
}

/// `prefix`, then `n` in decimal, then `suffix`.
pub open spec fn counted_spec(prefix: Seq<char>, n: nat, suffix: Seq<char>) -> Seq<char> {
    prefix + decimal_spec(n) + suffix
}

fn counted(prefix: &str, n: usize, suffix: &str) -> (r: String)
    ensures
        r@ == counted_spec(prefix@, n as nat, suffix@),
{
    let mut s = owned(prefix);
    let d = decimal(n as u64);
    s.append(d.as_str());
    s.append(suffix);
    s
}

/// The file name of a path, or nothing when it has none.
pub open spec fn name_or_empty_spec(p: Seq<char>) -> Seq<char> {
    match file_name_spec(p) {
        Some(n) => n,
        None => Seq::empty(),
    }
}

fn name_or_empty(p: &str) -> (r: String)
    ensures
        r@ == name_or_empty_spec(p@),
{
    match file_name(p) {
        Some(n) => n,
        None => String::new(),
    }
}

/// The label of an operation.
pub open spec fn label_spec(op: OpV) -> Seq<char> {
    match op {
        OpV::Copy { sources, dest_dir } => counted_spec("Copy "@, sources.len(), " item(s) to "@)
            + dest_dir,
        OpV::Move { sources, dest_dir } => counted_spec("Move "@, sources.len(), " item(s) to "@)
            + dest_dir,
        OpV::Delete { paths, recycle } => if recycle {
            counted_spec("Recycle "@, paths.len(), " item(s)"@)
        } else {
            counted_spec("Delete "@, paths.len(), " item(s)"@)
        },
        OpV::Rename { from, to } => "Rename "@ + name_or_empty_spec(from) + " to "@
            + name_or_empty_spec(to),
        OpV::NewFolder { path } => "New folder "@ + path,
        OpV::NewFile { path } => "New file "@ + path,
        OpV::RecycleRestore { parsing_names, .. } => counted_spec(
            "Restore "@,
            parsing_names.len(),
            " item(s)"@,
        ),
        OpV::RecycleDelete { parsing_names } => counted_spec(
            "Delete permanently "@,
            parsing_names.len(),
            " item(s)"@,
        ),
    }
}

/// The label the engine reports when it starts an operation.
pub open spec fn start_label_spec(op: OpV) -> Seq<char> {
    match op {
        OpV::Copy { sources, .. } => counted_spec("Copying "@, sources.len(), " item(s)"@),
        OpV::Move { sources, .. } => counted_spec("Moving "@, sources.len(), " item(s)"@),
        OpV::Delete { paths, .. } => counted_spec("Deleting "@, paths.len(), " item(s)"@),
        OpV::Rename { to, .. } => "Rename to "@ + name_or_empty_spec(to),
        OpV::NewFolder { path } => "New folder "@ + path,
        OpV::NewFile { path } => "New file "@ + path,
        OpV::RecycleRestore { parsing_names, .. } => counted_spec(
            "Restore "@,
            parsing_names.len(),
            " item(s)"@,
        ),
        OpV::RecycleDelete { parsing_names } => counted_spec(
            "Delete permanently "@,
            parsing_names.len(),
            " item(s)"@,
        ),
    }
}

/// The label of the `Started` event for an operation.
pub fn start_label(op: &Operation) -> (r: String)
    ensures
        r@ == start_label_spec(op@),
{
    match op {
        Operation::Copy { sources, .. } => counted("Copying ", sources.len(), " item(s)"),
        Operation::Move { sources, .. } => counted("Moving ", sources.len(), " item(s)"),
        Operation::Delete { paths, .. } => counted("Deleting ", paths.len(), " item(s)"),
        Operation::Rename { to, .. } => {
            let mut s = owned("Rename to ");
            let b = name_or_empty(to.as_str());
            s.append(b.as_str());
            s
        },
        Operation::NewFolder { path } => {
            let mut s = owned("New folder ");
            s.append(path.as_str());
            s
        },
        Operation::NewFile { path } => {
            let mut s = owned("New file ");
            s.append(path.as_str());
            s
        },
        Operation::RecycleRestore { parsing_names, .. } => {
            counted("Restore ", parsing_names.len(), " item(s)")
        },
        Operation::RecycleDelete { parsing_names } => {
            counted("Delete permanently ", parsing_names.len(), " item(s)")
        },
    }
}

/// Two paths overlap when one lies inside the other (or they are equal).
pub open spec fn overlap_spec(a: Seq<char>, b: Seq<char>) -> bool {
    starts_with_spec(a, b) || starts_with_spec(b, a)
}

/// Whether `a` lies inside `b` or `b` inside `a`, component-wise.
pub fn paths_overlap(a: &str, b: &str) -> (r: bool)
    ensures
        r == overlap_spec(a@, b@),
{
    starts_with(a, b) || starts_with(b, a)
}

/// The entry the recycle bin is known by.
pub open spec fn recycle_marker() -> Seq<char> {
    seq!['r', 'e', 'c', 'y', 'c', 'l', 'e', ':', '\\']
}

fn recycle_marker_string() -> (r: String)
    ensures
        r@ == recycle_marker(),
{
    let mut s = String::new();
    let ghost e = s@;
    crate::text::push_char(&mut s, 'r');
    crate::text::push_char(&mut s, 'e');
    crate::text::push_char(&mut s, 'c');
    crate::text::push_char(&mut s, 'y');
    crate::text::push_char(&mut s, 'c');
    crate::text::push_char(&mut s, 'l');
    crate::text::push_char(&mut s, 'e');
    crate::text::push_char(&mut s, ':');
    crate::text::push_char(&mut s, '\\');
    assert(s@ =~= recycle_marker());
    s
}

/// The paths an operation reads or writes; two operations whose paths
/// overlap never run at the same time.
pub open spec fn touch_spec(op: OpV) -> Seq<Seq<char>> {
    match op {
        OpV::Copy { sources, dest_dir } => sources.push(dest_dir),
        OpV::Move { sources, dest_dir } => sources.push(dest_dir),
        OpV::Delete { paths, .. } => paths,
        OpV::Rename { from, to } => seq![from, to],
        OpV::NewFolder { path } => seq![path],
        OpV::NewFile { path } => seq![path],
        OpV::RecycleRestore { refresh, .. } => refresh,
        OpV::RecycleDelete { .. } => seq![recycle_marker()],
    }
}

/// The paths an operation touches.
pub fn touch_paths(op: &Operation) -> (r: Vec<String>)
    ensures
        r.deep_view() == touch_spec(op@),
{
    match op {
        Operation::Copy { sources, dest_dir } | Operation::Move { sources, dest_dir } => {
            let mut v = dup_strings(sources);
            v.push(dest_dir.clone());
            assert(v.deep_view() =~= sources.deep_view().push(dest_dir@));
            v
        },
        Operation::Delete { paths, .. } => dup_strings(paths),
        Operation::Rename { from, to } => {
            let v = vec![from.clone(), to.clone()];
            assert(v.deep_view() =~= seq![from@, to@]);
            v
        },
        Operation::NewFolder { path } | Operation::NewFile { path } => {
            let v = vec![path.clone()];
            assert(v.deep_view() =~= seq![path@]);
            v
        },
        Operation::RecycleRestore { refresh, .. } => dup_strings(refresh),
        Operation::RecycleDelete { .. } => {
            let v = vec![recycle_marker_string()];
            assert(v.deep_view() =~= seq![recycle_marker()]);
            v
        },
    }
}

/// Some path of `a` overlaps some path of `b`.
pub open spec fn lists_overlap(a: Seq<Seq<char>>, b: Seq<Seq<char>>) -> bool {
    exists|j: int, k: int| 0 <= j < a.len() && 0 <= k < b.len() && overlap_spec(a[j], b[k])
}

/// Some running operation touches a path that overlaps one of `paths`.
pub open spec fn running_overlap_spec(running: Seq<Seq<Seq<char>>>, paths: Seq<Seq<char>>) -> bool {
    exists|i: int| 0 <= i < running.len() && lists_overlap(#[trigger] running[i], paths)
}

fn lists_overlap_exec(a: &Vec<String>, b: &Vec<String>) -> (r: bool)
    ensures
        r == lists_overlap(a.deep_view(), b.deep_view()),
{
    let ghost av = a.deep_view();
    let ghost bv = b.deep_view();
    let mut j: usize = 0;
    while j < a.len()
        invariant
            j <= a.len(),
            av == a.deep_view(),
            bv == b.deep_view(),
            forall|x: int, y: int| 0 <= x < j && 0 <= y < b.len() ==> !overlap_spec(av[x], bv[y]),
        decreases a.len() - j,
    {
        let mut k: usize = 0;
        while k < b.len()
            invariant
                j < a.len(),
                k <= b.len(),
                av == a.deep_view(),
                bv == b.deep_view(),
                forall|x: int, y: int|
                    0 <= x < j && 0 <= y < b.len() ==> !overlap_spec(av[x], bv[y]),
                forall|y: int| 0 <= y < k ==> !overlap_spec(av[j as int], bv[y]),
            decreases b.len() - k,
        {
            if paths_overlap(a[j].as_str(), b[k].as_str()) {
                assert(overlap_spec(av[j as int], bv[k as int]));
                return true;
            }
            k += 1;
        }
        j += 1;
    }
    false
}

/// Whether any running operation's paths overlap `paths`.
pub fn running_overlap(running: &Vec<Vec<String>>, paths: &Vec<String>) -> (r: bool)
    ensures
        r == running_overlap_spec(running.deep_view(), paths.deep_view()),
{
    let ghost rv = running.deep_view();
    let mut i: usize = 0;
    while i < running.len()
        invariant
            i <= running.len(),
            rv == running.deep_view(),
            forall|x: int| 0 <= x < i ==> !lists_overlap(#[trigger] rv[x], paths.deep_view()),
        decreases running.len() - i,
    {
        if lists_overlap_exec(&running[i], paths) {
            assert(lists_overlap(rv[i as int], paths.deep_view()));
            return true;
        }
        i += 1;
    }
    false
}

/// `max_jobs` clamped to `1..=MAX_WORKERS`.
pub open spec fn worker_cap(max_jobs: nat) -> nat {
    if max_jobs < 1 {
        1
    } else if max_jobs > MAX_WORKERS {
        MAX_WORKERS as nat
    } else {
        max_jobs
    }
}

/// The scheduling decision a worker makes: while fewer than the allowed
/// number of operations run, the first pending operation whose paths overlap
/// none of the running ones; `None` when nothing may start.
pub fn next_runnable(pending: &Vec<Operation>, running: &Vec<Vec<String>>, max_jobs: usize) -> (r:
    Option<usize>)
    ensures
        r matches Some(i) ==> {
            &&& running.len() < worker_cap(max_jobs as nat)
            &&& i < pending.len()
            &&& !running_overlap_spec(running.deep_view(), touch_spec(pending@[i as int]@))
            &&& forall|j: int|
                0 <= j < i ==> running_overlap_spec(
                    running.deep_view(),
                    touch_spec(#[trigger] pending@[j]@),
                )
        },
        r is None ==> running.len() >= worker_cap(max_jobs as nat) || forall|j: int|
            0 <= j < pending.len() ==> running_overlap_spec(
                running.deep_view(),
                touch_spec(#[trigger] pending@[j]@),
            ),
{
    let cap: usize = if max_jobs < 1 {
        1
    } else if max_jobs > MAX_WORKERS {
        MAX_WORKERS
    } else {
        max_jobs
    };
    if running.len() >= cap {
        return None;
    }
    let mut i: usize = 0;
    while i < pending.len()
        invariant
            i <= pending.len(),
            running.len() < worker_cap(max_jobs as nat),
            forall|j: int|
                0 <= j < i ==> running_overlap_spec(
                    running.deep_view(),
                    touch_spec(#[trigger] pending@[j]@),
                ),
        decreases pending.len() - i,
    {
        let t = touch_paths(&pending[i]);
        if !running_overlap(running, &t) {
            return Some(i);
        }
        i += 1;
    }
    None
}

/// Whether something exists at `p` (`std::path::Path::exists`). Nothing is
/// stated of the answer: it depends on what is on disk at the time.
#[verifier::external_body]
pub(crate) fn path_exists(p: &str) -> bool {
    std::path::Path::new(p).exists()
}

/// `dest` renamed to `stem (n).ext` in the same folder.
pub open spec fn renamed_candidate(dest: Seq<char>, n: nat) -> Seq<char> {
    let name = name_or_empty_spec(dest);
    let stem = stem_ext(name).0;
    let leaf = match stem_ext(name).1 {
        Some(e) => stem + " ("@ + decimal_spec(n) + ")."@ + e,
        None => stem + " ("@ + decimal_spec(n) + ")"@,
    };
    let base = match parent_spec(dest) {
        Some(p) => p,
        None => Seq::empty(),
    };
    join_spec(base, leaf)
}

/// Splits a file name into stem and extension.
pub fn split_stem_ext(name: &str) -> (r: (String, Option<String>))
    ensures
        r.0@ == stem_ext(name@).0,
        r.1 matches Some(e) ==> stem_ext(name@).1 == Some(e@),
        r.1 is None ==> stem_ext(name@).1 is None,
{
    let v = chars_of(name);
    match last_dot_exec(&v) {
        Some(d) => {
            if d == 0 {
                (owned(name), None)
            } else {
                let stem = string_of(&v, 0, d);
                let ext = string_of(&v, d + 1, v.len());
                assert(v@.subrange(0, d as int) =~= v@.take(d as int));
                (stem, Some(ext))
            }
        },
        None => (owned(name), None),
    }
}

/// The `n`-th rename candidate for `dest`: `file.txt` becomes `file (n).txt`.
pub fn rename_candidate(dest: &str, n: usize) -> (r: String)
    ensures
        r@ == renamed_candidate(dest@, n as nat),
{
    let name = name_or_empty(dest);
    let (stem, ext) = split_stem_ext(name.as_str());
    let mut leaf = stem;
    leaf.append(" (");
    let d = decimal(n as u64);
    leaf.append(d.as_str());
    match ext {
        Some(e) => {
            leaf.append(").");
            leaf.append(e.as_str());
        },
        None => {
            leaf.append(")");
        },
    }
    let base = match parent(dest) {
        Some(p) => p,
        None => String::new(),
    };
    join(base.as_str(), leaf.as_str())
}

/// Index of the first `false` in `taken` at or after `k`, within the first
/// 9998 answers.
pub open spec fn first_untaken(taken: Seq<bool>, k: int) -> Option<int>
    decreases taken.len() - k,
{
    if k < 0 || k >= taken.len() || k >= 9998 {
        None
    } else if !taken[k] {
        Some(k)
    } else {
        first_untaken(taken, k + 1)
    }
}

/// The free name for `dest`, given whether each candidate exists
/// (`taken[k]` for `renamed_candidate(dest, k + 2)`): the first candidate
/// that does not, or `dest` itself when every one answered does.
pub open spec fn first_free_spec(dest: Seq<char>, taken: Seq<bool>) -> Seq<char> {
    match first_untaken(taken, 0) {
        Some(k) => renamed_candidate(dest, (k + 2) as nat),
        None => dest,
    }
}

/// The free name for `dest` as `first_free_spec` says, from the answers of
/// the existence checks on its candidates in order.
pub fn first_free(dest: &str, taken: &Vec<bool>) -> (r: String)
    ensures
        r@ == first_free_spec(dest@, taken@),
{
    let mut k: usize = 0;
    while k < taken.len() && k < 9998
        invariant
            k <= taken.len(),
            k <= 9998,
            first_untaken(taken@, 0) == first_untaken(taken@, k as int),
        decreases taken.len() - k,
    {
        if !taken[k] {
            return rename_candidate(dest, k + 2);
        }
        k += 1;
    }
    owned(dest)
}

/// A free name for `dest`: the first of `file (2).txt` .. `file (9999).txt`
/// that does not exist yet, or `dest` itself when all of them do. The
/// candidates are checked on disk in order, up to the first free one; the
/// answer is `first_free` applied to what the checks said.
pub fn auto_rename(dest: &str) -> (r: String)
    ensures
        r@ == dest@ || exists|n: nat| 2 <= n < 10000 && r@ == renamed_candidate(dest@, n),
        exists|taken: Seq<bool>| taken.len() <= 9998
            && (forall|k: int| 0 <= k < taken.len() - 1 ==> #[trigger] taken[k])
            && r@ == first_free_spec(dest@, taken),
{
    let mut taken: Vec<bool> = Vec::new();
    let mut found = false;
    let mut n: usize = 2;
    while n < 10000 && !found
        invariant
            2 <= n <= 10000,
            taken@.len() == n - 2,
            !found ==> forall|k: int| 0 <= k < taken@.len() ==> #[trigger] taken@[k],
            found ==> forall|k: int| 0 <= k < taken@.len() - 1 ==> #[trigger] taken@[k],
        decreases 10000 - n,
    {
        let candidate = rename_candidate(dest, n);
        let exists_now = path_exists(candidate.as_str());
        taken.push(exists_now);
        found = !exists_now;
        n += 1;
    }
    let r = first_free(dest, &taken);
    proof {
        let t = taken@;
        lemma_first_untaken(t, 0);
        assert(forall|k: int| 0 <= k < t.len() - 1 ==> #[trigger] t[k]);
        match first_untaken(t, 0) {
            Some(k) => {
                assert(2 <= (k + 2) as nat && ((k + 2) as nat) < 10000 && r@ == renamed_candidate(dest@, (k + 2) as nat));
            },
            None => {},
        }
    }
    r
}

proof fn lemma_first_untaken(taken: Seq<bool>, k: int)
    requires
        0 <= k,
    ensures
        first_untaken(taken, k) matches Some(j) ==> k <= j < taken.len() && j < 9998,
    decreases taken.len() - k,
{
    if k < taken.len() && k < 9998 && taken[k] {
        lemma_first_untaken(taken, k + 1);
    }
}

/// The paths an operation's undo names as created.
pub open spec fn created_spec(undo: Option<UndoV>) -> Seq<Seq<char>> {
    match undo {
        Some(UndoV::DeletePaths(paths)) => paths,
        Some(UndoV::MoveBack { pairs }) => pairs.map_values(|p: (Seq<char>, Seq<char>)| p.1),
        Some(UndoV::RenameBack { from, .. }) => seq![from],
        None => Seq::empty(),
    }
}

/// The view of an optional undo action.
pub open spec fn undo_opt_view(u: Option<UndoAction>) -> Option<UndoV> {
    match u {
        Some(a) => Some(a@),
        None => None,
    }
}

/// The paths a finished operation created (to select them afterwards).
pub fn created_dests(undo: &Option<UndoAction>) -> (r: Vec<String>)
    ensures
        r.deep_view() == created_spec(undo_opt_view(*undo)),
{
    match undo {
        Some(UndoAction::DeletePaths(paths)) => dup_strings(paths),
        Some(UndoAction::MoveBack { pairs }) => {
            let ghost pv = pairs.deep_view();
            let mut r: Vec<String> = Vec::new();
            let mut i: usize = 0;
            while i < pairs.len()
                invariant
                    i <= pairs.len(),
                    pv == pairs.deep_view(),
                    r.deep_view() =~= pv.take(i as int).map_values(
                        |p: (Seq<char>, Seq<char>)| p.1,
                    ),
                decreases pairs.len() - i,
            {
                let c = pairs[i].1.clone();
                let ghost before = r.deep_view();
                assert(pv[i as int].1 == c@);
                r.push(c);
                assert(r.deep_view() =~= before.push(c@));
                i += 1;
                assert(r.deep_view() =~= pv.take(i as int).map_values(
                    |p: (Seq<char>, Seq<char>)| p.1,
                ));
            }
            assert(pv.take(pairs.len() as int) =~= pv);
            r
        },
        Some(UndoAction::RenameBack { from, .. }) => {
            let v = vec![from.clone()];
            assert(v.deep_view() =~= seq![from@]);
            v
        },
        None => Vec::new(),
    }
}

/// The parents of `s`, in order, skipping paths that have none.
pub open spec fn parents_of(s: Seq<Seq<char>>) -> Seq<Seq<char>>
    decreases s.len(),
{
    if s.len() == 0 {
        Seq::empty()
    } else {
        let r = parents_of(s.drop_last());
        match parent_spec(s.last()) {
            Some(p) => r.push(p),
            None => r,
        }
    }
}

/// `s` with each run of equal paths (component-wise) cut to its first.
pub open spec fn dedup_paths(s: Seq<Seq<char>>) -> Seq<Seq<char>>
    decreases s.len(),
{
    if s.len() == 0 {
        Seq::empty()
    } else {
        let r = dedup_paths(s.drop_last());
        if r.len() > 0 && components(r.last()) == components(s.last()) {
            r
        } else {
            r.push(s.last())
        }
    }
}

/// The folders to reload after an operation, before runs are cut.
pub open spec fn raw_refresh(op: OpV) -> Seq<Seq<char>> {
    match op {
        OpV::Copy { sources, dest_dir } => parents_of(sources).push(dest_dir),
        OpV::Move { sources, dest_dir } => parents_of(sources).push(dest_dir),
        OpV::Delete { paths, .. } => parents_of(paths),
        OpV::Rename { from, .. } => parents_of(seq![from]),
        OpV::NewFolder { path } => parents_of(seq![path]),
        OpV::NewFile { path } => parents_of(seq![path]),
        OpV::RecycleRestore { refresh, .. } => refresh.push(recycle_marker()),
        OpV::RecycleDelete { .. } => seq![recycle_marker()],
    }
}

fn parents_exec(s: &Vec<String>) -> (r: Vec<String>)
    ensures
        r.deep_view() == parents_of(s.deep_view()),
{
    let ghost sv = s.deep_view();
    let mut r: Vec<String> = Vec::new();
    let mut i: usize = 0;
    while i < s.len()
        invariant
            i <= s.len(),
            sv == s.deep_view(),
            r.deep_view() == parents_of(sv.take(i as int)),
        decreases s.len() - i,
    {
        assert(sv.take(i + 1).drop_last() =~= sv.take(i as int));
        match parent(s[i].as_str()) {
            Some(p) => {
                let ghost before = r.deep_view();
                r.push(p);
                assert(r.deep_view() =~= before.push(p@));
            },
            None => {},
        }
        i += 1;
    }
    assert(sv.take(s.len() as int) =~= sv);
    r
}

fn dedup_exec(s: &Vec<String>) -> (r: Vec<String>)
    ensures
        r.deep_view() == dedup_paths(s.deep_view()),
{
    let ghost sv = s.deep_view();
    let mut r: Vec<String> = Vec::new();
    let mut i: usize = 0;
    while i < s.len()
        invariant
            i <= s.len(),
            sv == s.deep_view(),
            r.deep_view() == dedup_paths(sv.take(i as int)),
        decreases s.len() - i,
    {
        assert(sv.take(i + 1).drop_last() =~= sv.take(i as int));
        let skip = r.len() > 0 && same_path(r[r.len() - 1].as_str(), s[i].as_str());
        if !skip {
            let ghost before = r.deep_view();
            r.push(s[i].clone());
            assert(r.deep_view() =~= before.push(sv[i as int]));
        }
        i += 1;
    }
    assert(sv.take(s.len() as int) =~= sv);
    r
}

/// The folders to reload after an operation: the parents of what it touched
/// and its destination, with repeated neighbours dropped.
pub fn refresh_targets(op: &Operation) -> (r: Vec<String>)
    ensures
        r.deep_view() == dedup_paths(raw_refresh(op@)),
{
    let raw: Vec<String> = match op {
        Operation::Copy { sources, dest_dir } | Operation::Move { sources, dest_dir } => {
            let mut v = parents_exec(sources);
            let ghost before = v.deep_view();
            v.push(dest_dir.clone());
            assert(v.deep_view() =~= before.push(dest_dir@));
            v
        },
        Operation::Delete { paths, .. } => parents_exec(paths),
        Operation::Rename { from, .. } => {
            let one = vec![from.clone()];
            assert(one.deep_view() =~= seq![from@]);
            parents_exec(&one)
        },
        Operation::NewFolder { path } | Operation::NewFile { path } => {
            let one = vec![path.clone()];
            assert(one.deep_view() =~= seq![path@]);
            parents_exec(&one)
        },
        Operation::RecycleRestore { refresh, .. } => {
            let mut v = dup_strings(refresh);
            v.push(recycle_marker_string());
            assert(v.deep_view() =~= refresh.deep_view().push(recycle_marker()));
            v
        },
        Operation::RecycleDelete { .. } => {
            let v = vec![recycle_marker_string()];
            assert(v.deep_view() =~= seq![recycle_marker()]);
            v
        },
    };
    dedup_exec(&raw)
}


/// The transfers of a copy or move into `dest`: for each source, in order,
/// the pair `(source, dest\name)`, skipping a source whose destination is
/// itself; the flag is false when the walk stopped at a source with no file
/// name (the engine fails the operation there).
pub open spec fn plan_spec(sources: Seq<Seq<char>>, dest: Seq<char>) -> (Seq<(Seq<char>, Seq<char>)>, bool)
    decreases sources.len(),
{
    if sources.len() == 0 {
        (Seq::empty(), true)
    } else {
        let prev = plan_spec(sources.drop_last(), dest);
        let src = sources.last();
        if !prev.1 {
            prev
        } else {
            match file_name_spec(src) {
                None => (prev.0, false),
                Some(name) => {
                    let target = join_spec(dest, name);
                    if components(src) == components(target) {
                        prev
                    } else {
                        (prev.0.push((src, target)), true)
                    }
                },
            }
        }
    }
}

/// The transfers a copy or move makes, and whether every source had a name.
pub fn transfer_plan(sources: &Vec<String>, dest_dir: &str) -> (r: (Vec<(String, String)>, bool))
    ensures
        (r.0.deep_view(), r.1) == plan_spec(sources.deep_view(), dest_dir@),
{
    let ghost sv = sources.deep_view();
    let mut pairs: Vec<(String, String)> = Vec::new();
    let mut i: usize = 0;
    while i < sources.len()
        invariant
            i <= sources.len(),
            sv == sources.deep_view(),
            plan_spec(sv.take(i as int), dest_dir@) == (pairs.deep_view(), true),
        decreases sources.len() - i,
    {
        assert(sv.take(i + 1).drop_last() =~= sv.take(i as int));
        let src = &sources[i];
        match file_name(src.as_str()) {
            None => {
                proof {
                    lemma_plan_stops(sv, dest_dir@, i as int);
                }
                return (pairs, false);
            },
            Some(name) => {
                let target = join(dest_dir, name.as_str());
                if !same_path(src.as_str(), target.as_str()) {
                    let ghost before = pairs.deep_view();
                    pairs.push((src.clone(), target));
                    assert(pairs.deep_view() =~= before.push((sv[i as int], join_spec(dest_dir@, name@))));
                }
            },
        }
        i += 1;
    }
    assert(sv.take(sources.len() as int) =~= sv);
    (pairs, true)
}

proof fn lemma_plan_stops(s: Seq<Seq<char>>, dest: Seq<char>, i: int)
    requires
        0 <= i < s.len(),
        plan_spec(s.take(i), dest).1,
        file_name_spec(s[i]) is None,
    ensures
        plan_spec(s, dest) == (plan_spec(s.take(i), dest).0, false),
    decreases s.len() - i,
{
    if i + 1 == s.len() {
        assert(s.drop_last() =~= s.take(i));
        assert(s.last() == s[i]);
    } else {
        assert(s.take(i + 1).drop_last() =~= s.take(i));
        assert(s.take(i + 1).last() == s[i]);
        lemma_plan_stopped(s, dest, i + 1, plan_spec(s.take(i), dest).0);
    }
}

proof fn lemma_plan_stopped(s: Seq<Seq<char>>, dest: Seq<char>, k: int, p: Seq<(Seq<char>, Seq<char>)>)
    requires
        0 < k <= s.len(),
        plan_spec(s.take(k), dest) == (p, false),
    ensures
        plan_spec(s, dest) == (p, false),
    decreases s.len() - k,
{
    if k < s.len() {
        assert(s.take(k + 1).drop_last() =~= s.take(k));
        lemma_plan_stopped(s, dest, k + 1, p);
    } else {
        assert(s.take(k) =~= s);
    }
}

/// The undo of a finished copy or move: a move is undone by moving each
/// pair back; a copy by deleting what it created, and has none when it
/// created nothing.
pub open spec fn transfer_undo_spec(is_move: bool, moved: Seq<(Seq<char>, Seq<char>)>, created: Seq<Seq<char>>) -> Option<UndoV> {
    if is_move {
        Some(UndoV::MoveBack { pairs: moved })
    } else if created.len() == 0 {
        None
    } else {
        Some(UndoV::DeletePaths(created))
    }
}

/// The undo action a finished copy or move records.
pub fn transfer_undo(is_move: bool, moved: Vec<(String, String)>, created: Vec<String>) -> (r: Option<UndoAction>)
    ensures
        undo_opt_view(r) == transfer_undo_spec(is_move, moved.deep_view(), created.deep_view()),
{
    if is_move {
        Some(UndoAction::MoveBack { pairs: moved })
    } else if created.len() == 0 {
        None
    } else {
        Some(UndoAction::DeletePaths(created))
    }
}

/// The marker error that stands for a cancelled operation.
pub open spec fn cancelled_marker() -> Seq<char> {
    "__cancelled__"@
}

/// The event that closes an operation: `Done` with what it created when it
/// succeeded, `Cancelled` when it failed with the cancel marker, `Failed`
/// with its error otherwise.
pub fn finish_event(op_id: u64, origin: OpOrigin, result: Result<Option<UndoAction>, String>, refresh: Vec<String>) -> (r: OpEvent)
    ensures
        result matches Ok(u) ==> (r matches OpEvent::Done { op_id: i, origin: o, undo: u2, refresh: f, created: c }
            && i == op_id && o == origin && u2 == u && f == refresh
            && c.deep_view() == created_spec(undo_opt_view(u))),
        result matches Err(e) ==> (e@ == cancelled_marker() ==> r == OpEvent::Cancelled { op_id, origin }),
        result matches Err(e) ==> (e@ != cancelled_marker() ==> r == OpEvent::Failed { op_id, origin, error: e }),
{
    match result {
        Ok(undo) => {
            let created = created_dests(&undo);
            OpEvent::Done { op_id, origin, undo, refresh, created }
        },
        Err(e) => {
            let a = chars_of(e.as_str());
            let b = chars_of("__cancelled__");
            if crate::paths::chars_eq(&a, &b) {
                OpEvent::Cancelled { op_id, origin }
            } else {
                OpEvent::Failed { op_id, origin, error: e }
            }
        },
    }
}

} // verus!
