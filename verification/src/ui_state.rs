//! State the interface keeps between frames, and the decisions it takes on
//! it: the search mode cycle, the transfer queue panel fed by operation
//! events, command lines for external programs, and new-item names.
use vstd::prelude::*;
use std::collections::HashMap;
use std::time::Instant;
use crate::config::ConflictDefault;
use crate::ops::{ConflictResolution, OpEvent, OpOrigin, Operation, UndoAction};
use crate::state::{PaneLayout, SplitDirection};
use crate::text::{chars_of, is_whitespace, is_ws, owned, push_char, string_from_chars, trim, trim_bounds, lower};
use crate::undo::{EntryV, UndoJournal, ops_view, record_spec};

verus! {

#[verifier::external_type_specification]
#[verifier::external_body]
pub struct ExInstant(std::time::Instant);

/// Inline rename in progress.
pub struct RenameState {
    pub pane: usize,
    pub tab_uid: u64,
    pub entry_index: u32,
    pub buffer: String,
    pub focus_requested: bool,
}

/// Inline tab-title edit.
pub struct TabRename {
    pub pane: usize,
    pub index: usize,
    pub buffer: String,
    pub focus_requested: bool,
}

/// A running or finished operation shown in the transfer queue panel.
pub struct OpView {
    pub op_id: u64,
    pub label: String,
    pub done_bytes: u64,
    pub total_bytes: u64,
    pub done_files: u64,
    pub total_files: u64,
    pub current: String,
    pub finished: bool,
    pub error: Option<String>,
    pub started: Instant,
}

/// A name clash waiting for the user's answer.
pub struct ConflictPrompt {
    pub op_id: u64,
    pub source: String,
    pub dest: String,
    pub apply_to_all: bool,
}

#[derive(Clone, Copy, Debug, PartialEq, Eq, Structural)]
pub enum SearchMode {
    NameHere,
    NameGlobal,
    Content,
}

impl SearchMode {
    /// The next mode: here, global, content, and round again.
    pub fn next(self) -> (r: SearchMode)
        ensures
            r == next_mode(self),
    {
        match self {
            SearchMode::NameHere => SearchMode::NameGlobal,
            SearchMode::NameGlobal => SearchMode::Content,
            SearchMode::Content => SearchMode::NameHere,
        }
    }

    /// The previous mode.
    pub fn prev(self) -> (r: SearchMode)
        ensures
            r == prev_mode(self),
    {
        match self {
            SearchMode::NameHere => SearchMode::Content,
            SearchMode::Content => SearchMode::NameGlobal,
            SearchMode::NameGlobal => SearchMode::NameHere,
        }
    }
}

pub open spec fn next_mode(m: SearchMode) -> SearchMode {
    match m {
        SearchMode::NameHere => SearchMode::NameGlobal,
        SearchMode::NameGlobal => SearchMode::Content,
        SearchMode::Content => SearchMode::NameHere,
    }
}

pub open spec fn prev_mode(m: SearchMode) -> SearchMode {
    match m {
        SearchMode::NameHere => SearchMode::Content,
        SearchMode::Content => SearchMode::NameGlobal,
        SearchMode::NameGlobal => SearchMode::NameHere,
    }
}

/// Stepping back undoes stepping forward, and the other way round.
pub proof fn law_search_mode_cycle(m: SearchMode)
    ensures
        prev_mode(next_mode(m)) == m,
        next_mode(prev_mode(m)) == m,
        next_mode(next_mode(next_mode(m))) == m,
{
}

pub struct SearchState {
    pub open: bool,
    pub query: String,
    pub mode: SearchMode,
    pub results: Vec<(String, bool)>,
    pub query_id: u64,
    pub running: bool,
    pub focus_requested: bool,
    pub selected: usize,
}

pub struct PaletteState {
    pub open: bool,
    pub query: String,
    pub results: Vec<(String, bool)>,
    pub query_id: u64,
    pub selected: usize,
    pub focus_requested: bool,
}

pub struct BatchRenameState {
    pub open: bool,
    pub pane: usize,
    pub items: Vec<String>,
    pub pattern: String,
    pub find: String,
    pub replace: String,
    pub use_regex: bool,
    /// 0 keep, 1 lower, 2 upper, 3 title.
    pub case: usize,
    pub counter_start: u32,
    pub error: Option<String>,
}

pub struct TagEditState {
    pub open: bool,
    pub path: String,
    pub tags: String,
    pub comment: String,
}

pub struct AddressEdit {
    pub pane: usize,
    pub buffer: String,
    pub focus_requested: bool,
}

/// Name prompt shown before creating a file or folder.
pub struct NewItemPrompt {
    pub is_folder: bool,
    pub pane: usize,
    pub name: String,
    pub focus_requested: bool,
    pub error: Option<String>,
}

/// The pane opposite `pane`: pane 0 in a single-pane window, else the
/// other of the two.
pub fn other_pane(pane_count: usize, pane: usize) -> (r: usize)
    ensures
        r == (if pane_count < 2 { 0usize } else if pane == 0 { 1usize } else { 0usize }),
{
    if pane_count < 2 {
        0
    } else {
        let p = if pane < 1 { pane } else { 1 };
        1 - p
    }
}

/// The layout the layout button switches to: single, dual vertical, dual
/// horizontal, and round again.
pub fn next_layout(layout: PaneLayout) -> (r: PaneLayout)
    ensures
        r == (match layout {
            PaneLayout::Single => PaneLayout::Dual(SplitDirection::Vertical),
            PaneLayout::Dual(SplitDirection::Vertical) => PaneLayout::Dual(SplitDirection::Horizontal),
            PaneLayout::Dual(SplitDirection::Horizontal) => PaneLayout::Single,
        }),
{
    match layout {
        PaneLayout::Single => PaneLayout::Dual(SplitDirection::Vertical),
        PaneLayout::Dual(SplitDirection::Vertical) => PaneLayout::Dual(SplitDirection::Horizontal),
        PaneLayout::Dual(SplitDirection::Horizontal) => PaneLayout::Single,
    }
}

// ------------------------------------------------------------ command lines

/// The scan of a command line after `s`: finished words, the word in
/// progress, and whether a quote is open.
pub open spec fn cmd_scan(s: Seq<char>) -> (Seq<Seq<char>>, Seq<char>, bool)
    decreases s.len(),
{
    if s.len() == 0 {
        (Seq::empty(), Seq::empty(), false)
    } else {
        let (out, cur, q) = cmd_scan(s.drop_last());
        let c = s.last();
        if c == '"' {
            (out, cur, !q)
        } else if is_ws(c) && !q {
            if cur.len() > 0 { (out.push(cur), Seq::empty(), q) } else { (out, cur, q) }
        } else {
            (out, cur.push(c), q)
        }
    }
}

/// Splits a command line into words at unquoted whitespace; double quotes
/// group and are dropped.
pub open spec fn split_cmdline_spec(s: Seq<char>) -> Seq<Seq<char>> {
    let (out, cur, _) = cmd_scan(s);
    if cur.len() > 0 { out.push(cur) } else { out }
}

pub open spec fn strings_view(v: Seq<String>) -> Seq<Seq<char>> {
    v.map_values(|s: String| s@)
}

/// Splits a command line into words (see `split_cmdline_spec`).
pub fn split_cmdline(s: &str) -> (r: Vec<String>)
    ensures
        strings_view(r@) == split_cmdline_spec(s@),
{
    let v = chars_of(s);
    let mut out: Vec<String> = Vec::new();
    let mut cur: Vec<char> = Vec::new();
    let mut in_quotes = false;
    let mut i: usize = 0;
    assert(v@.take(0) =~= Seq::<char>::empty());
    while i < v.len()
        invariant
            i <= v.len(),
            v@ == s@,
            cmd_scan(v@.take(i as int)) == (strings_view(out@), cur@, in_quotes),
        decreases v.len() - i,
    {
        assert(v@.take(i + 1).drop_last() =~= v@.take(i as int));
        assert(v@.take(i + 1).last() == v@[i as int]);
        let c = v[i];
        if c == '"' {
            in_quotes = !in_quotes;
        } else if is_whitespace(c) && !in_quotes {
            if cur.len() > 0 {
                let w = string_from_chars(&cur);
                let ghost before = strings_view(out@);
                out.push(w);
                assert(strings_view(out@) =~= before.push(cur@));
                cur = Vec::new();
            }
        } else {
            cur.push(c);
        }
        i += 1;
    }
    assert(v@.take(v.len() as int) =~= v@);
    if cur.len() > 0 {
        let w = string_from_chars(&cur);
        let ghost before = strings_view(out@);
        out.push(w);
        assert(strings_view(out@) =~= before.push(cur@));
    }
    out
}

/// Some character of `s` is whitespace.
pub open spec fn has_ws(s: Seq<char>) -> bool {
    exists|i: int| 0 <= i < s.len() && is_ws(#[trigger] s[i])
}

fn has_ws_exec(s: &str) -> (r: bool)
    ensures
        r == has_ws(s@),
{
    let v = chars_of(s);
    let mut i: usize = 0;
    while i < v.len()
        invariant
            i <= v.len(),
            v@ == s@,
            forall|k: int| 0 <= k < i ==> !is_ws(#[trigger] v@[k]),
        decreases v.len() - i,
    {
        if is_whitespace(v[i]) {
            assert(is_ws(v@[i as int]));
            return true;
        }
        i += 1;
    }
    false
}

/// `s` in double quotes when it holds whitespace, else `s`.
pub open spec fn quote_ws(s: Seq<char>) -> Seq<char> {
    if has_ws(s) { seq!['"'] + s + seq!['"'] } else { s }
}

fn quote_exec(s: &str) -> (r: String)
    ensures
        r@ == quote_ws(s@),
{
    if has_ws_exec(s) {
        let mut q = String::new();
        push_char(&mut q, '"');
        q.append(s);
        push_char(&mut q, '"');
        assert(q@ =~= seq!['"'] + s@ + seq!['"']);
        q
    } else {
        owned(s)
    }
}

/// Words joined with single spaces, each quoted when it holds whitespace.
pub open spec fn quoted_join(ws: Seq<Seq<char>>) -> Seq<char>
    decreases ws.len(),
{
    if ws.len() == 0 {
        Seq::empty()
    } else if ws.len() == 1 {
        quote_ws(ws[0])
    } else {
        quoted_join(ws.drop_last()) + seq![' '] + quote_ws(ws.last())
    }
}

/// `cmd` with its program replaced by `exe` (quoted when it holds
/// whitespace): the remaining arguments are kept, re-quoted; a command
/// without arguments becomes `exe` alone when it mentions `{path}`, else
/// `exe "{path}"`.
pub open spec fn replace_program_spec(cmd: Seq<char>, exe: Seq<char>) -> Seq<char> {
    let parts = split_cmdline_spec(cmd);
    if parts.len() <= 1 {
        if crate::text::has_sub(cmd, "{path}"@) {
            quote_ws(exe)
        } else {
            quote_ws(exe) + " \"{path}\""@
        }
    } else {
        quote_ws(exe) + seq![' '] + quoted_join(parts.drop_first())
    }
}

pub open spec fn scan_step(st: (Seq<Seq<char>>, Seq<char>, bool), c: char) -> (Seq<Seq<char>>, Seq<char>, bool) {
    let (out, cur, q) = st;
    if c == '"' {
        (out, cur, !q)
    } else if is_ws(c) && !q {
        if cur.len() > 0 { (out.push(cur), Seq::empty(), q) } else { (out, cur, q) }
    } else {
        (out, cur.push(c), q)
    }
}

pub open spec fn scan_from(st: (Seq<Seq<char>>, Seq<char>, bool), s: Seq<char>) -> (Seq<Seq<char>>, Seq<char>, bool)
    decreases s.len(),
{
    if s.len() == 0 { st } else { scan_step(scan_from(st, s.drop_last()), s.last()) }
}

/// A word the splitter can give back: not empty, without a double quote.
pub open spec fn plain_word(w: Seq<char>) -> bool {
    w.len() > 0 && !w.contains('"')
}

proof fn lemma_scan_is_from(s: Seq<char>)
    ensures
        cmd_scan(s) == scan_from((Seq::empty(), Seq::empty(), false), s),
    decreases s.len(),
{
    if s.len() > 0 {
        lemma_scan_is_from(s.drop_last());
    }
}

proof fn lemma_scan_concat(st: (Seq<Seq<char>>, Seq<char>, bool), a: Seq<char>, b: Seq<char>)
    ensures
        scan_from(st, a + b) == scan_from(scan_from(st, a), b),
    decreases b.len(),
{
    if b.len() == 0 {
        assert(a + b =~= a);
    } else {
        assert((a + b).drop_last() =~= a + b.drop_last());
        assert((a + b).last() == b.last());
        lemma_scan_concat(st, a, b.drop_last());
    }
}

/// Inside quotes, or with no whitespace, a quote-free text only grows the
/// word in progress.
proof fn lemma_scan_word(out: Seq<Seq<char>>, cur: Seq<char>, q: bool, w: Seq<char>)
    requires
        !w.contains('"'),
        !q ==> !has_ws(w),
    ensures
        scan_from((out, cur, q), w) == (out, cur + w, q),
    decreases w.len(),
{
    if w.len() == 0 {
        assert(cur + w =~= cur);
    } else {
        let p = w.drop_last();
        assert(!p.contains('"')) by {
            if p.contains('"') {
                let k = choose|k: int| 0 <= k < p.len() && p[k] == '"';
                assert(w[k] == '"');
            }
        }
        assert(!q ==> !has_ws(p)) by {
            if !q && has_ws(p) {
                let k = choose|k: int| 0 <= k < p.len() && is_ws(#[trigger] p[k]);
                assert(w[k] == p[k]);
            }
        }
        lemma_scan_word(out, cur, q, p);
        assert(w.last() != '"') by {
            assert(w[w.len() - 1] == w.last());
        }
        assert(!q ==> !is_ws(w.last())) by {
            assert(w[w.len() - 1] == w.last());
        }
        assert((cur + p).push(w.last()) =~= cur + w);
    }
}

proof fn lemma_scan_one(st: (Seq<Seq<char>>, Seq<char>, bool), c: char)
    ensures
        scan_from(st, seq![c]) == scan_step(st, c),
{
    let s1 = seq![c];
    assert(s1.drop_last() =~= Seq::<char>::empty());
    assert(s1.last() == c);
    assert(scan_from(st, s1.drop_last()) == st);
}

proof fn lemma_scan_quoted(out: Seq<Seq<char>>, w: Seq<char>)
    requires
        plain_word(w),
    ensures
        scan_from((out, Seq::empty(), false), quote_ws(w)) == (out, w, false),
{
    if has_ws(w) {
        let st = (out, Seq::<char>::empty(), false);
        lemma_scan_concat(st, seq!['"'] + w, seq!['"']);
        lemma_scan_concat(st, seq!['"'], w);
        lemma_scan_one(st, '"');
        lemma_scan_word(out, Seq::empty(), true, w);
        assert(Seq::<char>::empty() + w =~= w);
        lemma_scan_one((out, w, true), '"');
    } else {
        lemma_scan_word(out, Seq::empty(), false, w);
        assert(Seq::<char>::empty() + w =~= w);
    }
}

proof fn lemma_scan_join(ws: Seq<Seq<char>>)
    requires
        ws.len() >= 1,
        forall|k: int| 0 <= k < ws.len() ==> plain_word(#[trigger] ws[k]),
    ensures
        scan_from((Seq::empty(), Seq::empty(), false), quoted_join(ws)) == (ws.drop_last(), ws.last(), false),
    decreases ws.len(),
{
    let e = (Seq::<Seq<char>>::empty(), Seq::<char>::empty(), false);
    if ws.len() == 1 {
        lemma_scan_quoted(Seq::empty(), ws[0]);
        assert(ws.drop_last() =~= Seq::<Seq<char>>::empty());
    } else {
        let p = ws.drop_last();
        assert forall|k: int| 0 <= k < p.len() implies plain_word(#[trigger] p[k]) by {
            assert(p[k] == ws[k]);
        }
        lemma_scan_join(p);
        let a = quoted_join(p);
        lemma_scan_concat(e, a + seq![' '], quote_ws(ws.last()));
        lemma_scan_concat(e, a, seq![' ']);
        lemma_scan_one((p.drop_last(), p.last(), false), ' ');
        assert(is_ws(' '));
        assert(p.last() == ws[ws.len() - 2]);
        assert(plain_word(ws[ws.len() - 1]));
        assert(p.drop_last().push(p.last()) =~= p);
        lemma_scan_quoted(p, ws.last());
    }
}

/// Words joined by `quoted_join` split back into the same words.
pub proof fn law_split_undoes_quoted_join(ws: Seq<Seq<char>>)
    requires
        forall|k: int| 0 <= k < ws.len() ==> plain_word(#[trigger] ws[k]),
    ensures
        split_cmdline_spec(quoted_join(ws)) == ws,
{
    lemma_scan_is_from(quoted_join(ws));
    if ws.len() >= 1 {
        lemma_scan_join(ws);
        assert(ws.drop_last().push(ws.last()) =~= ws);
    } else {
        assert(quoted_join(ws) =~= Seq::<char>::empty());
    }
}

proof fn lemma_scan_plain(s: Seq<char>)
    ensures
        forall|k: int| 0 <= k < cmd_scan(s).0.len() ==> plain_word(#[trigger] cmd_scan(s).0[k]),
        !cmd_scan(s).1.contains('"'),
    decreases s.len(),
{
    if s.len() > 0 {
        lemma_scan_plain(s.drop_last());
        let (out, cur, q) = cmd_scan(s.drop_last());
        let c = s.last();
        if !(c == '"') && !(is_ws(c) && !q) {
            assert(!cur.push(c).contains('"')) by {
                if cur.push(c).contains('"') {
                    let k = choose|k: int| 0 <= k < cur.push(c).len() && cur.push(c)[k] == '"';
                    if k < cur.len() {
                        assert(cur[k] == '"');
                    }
                }
            }
        }
        if is_ws(c) && !q && cur.len() > 0 {
            let o2 = out.push(cur);
            assert forall|k: int| 0 <= k < o2.len() implies plain_word(#[trigger] o2[k]) by {
                if k < out.len() {
                    assert(o2[k] == out[k]);
                }
            }
            assert(!Seq::<char>::empty().contains('"'));
        }
    }
}

proof fn lemma_join_cons(x: Seq<char>, rest: Seq<Seq<char>>)
    requires
        rest.len() >= 1,
    ensures
        quoted_join(seq![x] + rest) == quote_ws(x) + seq![' '] + quoted_join(rest),
    decreases rest.len(),
{
    let w = seq![x] + rest;
    if rest.len() == 1 {
        assert(w.drop_last() =~= seq![x]);
        assert(w.last() == rest[0]);
        assert(quoted_join(seq![x]) == quote_ws(x));
        assert(quoted_join(rest) == quote_ws(rest[0]));
        assert(quoted_join(w) == quoted_join(w.drop_last()) + seq![' '] + quote_ws(w.last()));
    } else {
        assert(w.drop_last() =~= seq![x] + rest.drop_last());
        assert(w.last() == rest.last());
        lemma_join_cons(x, rest.drop_last());
        assert(quoted_join(w) == quoted_join(w.drop_last()) + seq![' '] + quote_ws(w.last()));
        assert(quoted_join(rest) == quoted_join(rest.drop_last()) + seq![' '] + quote_ws(rest.last()));
        assert(quoted_join(w) =~= quote_ws(x) + seq![' '] + quoted_join(rest));
    }
}

/// Replacing the program of a command line with arguments keeps those
/// arguments: the new line splits into the new program and the same
/// arguments.
pub proof fn law_replace_program_keeps_arguments(cmd: Seq<char>, exe: Seq<char>)
    requires
        split_cmdline_spec(cmd).len() >= 2,
        plain_word(exe),
    ensures
        split_cmdline_spec(replace_program_spec(cmd, exe)) == seq![exe] + split_cmdline_spec(cmd).drop_first(),
{
    let parts = split_cmdline_spec(cmd);
    let rest = parts.drop_first();
    lemma_scan_plain(cmd);
    let (out, cur, q) = cmd_scan(cmd);
    assert forall|k: int| 0 <= k < parts.len() implies plain_word(#[trigger] parts[k]) by {
        if k < out.len() {
            assert(parts[k] == out[k]);
        } else {
            assert(parts[k] == cur);
        }
    }
    lemma_join_cons(exe, rest);
    let ws = seq![exe] + rest;
    assert forall|k: int| 0 <= k < ws.len() implies plain_word(#[trigger] ws[k]) by {
        if k > 0 {
            assert(ws[k] == parts[k]);
        }
    }
    law_split_undoes_quoted_join(ws);
}

/// Replaces the program of a command line, keeping its arguments.
pub fn replace_cmdline_program(cmd: &str, exe: &str) -> (r: String)
    ensures
        r@ == replace_program_spec(cmd@, exe@),
{
    let quoted = quote_exec(exe);
    let parts = split_cmdline(cmd);
    let ghost pv = strings_view(parts@);
    if parts.len() <= 1 {
        if crate::text::contains_chars(&chars_of(cmd), &chars_of("{path}")) {
            quoted
        } else {
            let mut s = quoted;
            s.append(" \"{path}\"");
            s
        }
    } else {
        let mut s = quoted;
        let ghost head = s@;
        push_char(&mut s, ' ');
        let ghost head2 = s@;
        let mut i: usize = 1;
        assert(pv.drop_first().take(0) =~= Seq::<Seq<char>>::empty());
        while i < parts.len()
            invariant
                1 <= i <= parts.len(),
                pv == strings_view(parts@),
                s@ == head2 + quoted_join(pv.drop_first().take(i - 1)),
            decreases parts.len() - i,
        {
            let ghost t = pv.drop_first().take(i as int);
            assert(t.drop_last() =~= pv.drop_first().take(i - 1));
            assert(t.last() == parts@[i as int]@);
            if i > 1 {
                push_char(&mut s, ' ');
            }
            let q = quote_exec(parts[i].as_str());
            s.append(q.as_str());
            proof {
                if i == 1 {
                    assert(t.len() == 1);
                    assert(t[0] == parts@[1]@);
                }
            }
            assert(s@ =~= head2 + quoted_join(t));
            i += 1;
        }
        assert(pv.drop_first().take(parts.len() - 1) =~= pv.drop_first());
        s
    }
}

// --------------------------------------------------------------- item names

/// A character Windows refuses in file names.
pub open spec fn bad_name_char(c: char) -> bool {
    c == '<' || c == '>' || c == ':' || c == '"' || c == '/' || c == '\\' || c == '|' || c == '?'
        || c == '*'
}

/// The part of `s` before its first `.`.
pub open spec fn before_dot(s: Seq<char>) -> Seq<char>
    decreases s.len(),
{
    if s.len() == 0 {
        s
    } else if s[0] == '.' {
        Seq::empty()
    } else {
        seq![s[0]] + before_dot(s.drop_first())
    }
}

/// The device names Windows reserves.
pub open spec fn reserved_names() -> Seq<Seq<char>> {
    seq![
        "CON"@, "PRN"@, "AUX"@, "NUL"@, "COM1"@, "COM2"@, "COM3"@, "COM4"@, "COM5"@, "COM6"@,
        "COM7"@, "COM8"@, "COM9"@, "LPT1"@, "LPT2"@, "LPT3"@, "LPT4"@, "LPT5"@, "LPT6"@,
        "LPT7"@, "LPT8"@, "LPT9"@,
    ]
}

/// What is wrong with a new item's name, checked on the trimmed name in
/// order: empty; `.` or `..`; a refused character; a trailing period or
/// space; a stem that is a reserved device name (any ASCII case).
pub open spec fn name_problem(name: Seq<char>) -> Option<Seq<char>> {
    let n = trim(name);
    if n.len() == 0 {
        Some("Enter a name"@)
    } else if n == "."@ || n == ".."@ {
        Some("Invalid name"@)
    } else if exists|i: int| 0 <= i < n.len() && bad_name_char(#[trigger] n[i]) {
        Some("Name contains invalid characters: <>:\"/\\|?*"@)
    } else if n.last() == '.' || n.last() == ' ' {
        Some("Name can't end with a period or space"@)
    } else if exists|k: int| 0 <= k < reserved_names().len() && crate::keymap::ascii_ci_eq(
        before_dot(n),
        #[trigger] reserved_names()[k],
    ) {
        Some("That name is reserved by Windows"@)
    } else {
        None
    }
}

fn reserved_list() -> (r: Vec<&'static str>)
    ensures
        r@.len() == reserved_names().len(),
        forall|k: int| 0 <= k < r@.len() ==> (#[trigger] r@[k])@ == reserved_names()[k],
{
    vec![
        "CON", "PRN", "AUX", "NUL", "COM1", "COM2", "COM3", "COM4", "COM5", "COM6", "COM7", "COM8",
        "COM9", "LPT1", "LPT2", "LPT3", "LPT4", "LPT5", "LPT6", "LPT7", "LPT8", "LPT9",
    ]
}

fn ci_eq_chars(a: &Vec<char>, b: &Vec<char>) -> (r: bool)
    ensures
        r == crate::keymap::ascii_ci_eq(a@, b@),
{
    if a.len() != b.len() {
        return false;
    }
    let mut i: usize = 0;
    while i < a.len()
        invariant
            a.len() == b.len(),
            i <= a.len(),
            forall|k: int| 0 <= k < i ==> lower(#[trigger] a@[k]) == lower(b@[k]),
        decreases a.len() - i,
    {
        if crate::text::ascii_lower(a[i]) != crate::text::ascii_lower(b[i]) {
            return false;
        }
        i += 1;
    }
    true
}

/// Checks a file or folder name before creating it (see `name_problem`).
pub fn invalid_item_name(name: &str) -> (r: Option<&'static str>)
    ensures
        r matches Some(m) ==> name_problem(name@) == Some(m@),
        r is None ==> name_problem(name@) is None,
{
    let v = chars_of(name);
    let (lo, hi) = trim_bounds(&v);
    let mut n: Vec<char> = Vec::new();
    let mut k: usize = lo;
    while k < hi
        invariant
            lo <= k <= hi <= v.len(),
            n@ == v@.subrange(lo as int, k as int),
        decreases hi - k,
    {
        n.push(v[k]);
        k += 1;
        assert(n@ =~= v@.subrange(lo as int, k as int));
    }
    let ghost t = trim(name@);
    assert(n@ == t);
    if n.len() == 0 {
        return Some("Enter a name");
    }
    if crate::paths::chars_eq(&n, &chars_of(".")) || crate::paths::chars_eq(&n, &chars_of("..")) {
        return Some("Invalid name");
    }
    let mut i: usize = 0;
    while i < n.len()
        invariant
            i <= n.len(),
            n@ == trim(name@),
            n@.len() > 0,
            n@ != "."@ && n@ != ".."@,
            forall|j: int| 0 <= j < i ==> !bad_name_char(#[trigger] n@[j]),
        decreases n.len() - i,
    {
        let c = n[i];
        if c == '<' || c == '>' || c == ':' || c == '"' || c == '/' || c == '\\' || c == '|' || c
            == '?' || c == '*' {
            assert(bad_name_char(n@[i as int]));
            return Some("Name contains invalid characters: <>:\"/\\|?*");
        }
        i += 1;
    }
    let last = n[n.len() - 1];
    if last == '.' || last == ' ' {
        return Some("Name can't end with a period or space");
    }
    let mut stem: Vec<char> = Vec::new();
    let mut j: usize = 0;
    assert(n@.skip(0) =~= n@);
    assert(stem@ + before_dot(n@.skip(0)) =~= before_dot(n@));
    while j < n.len() && n[j] != '.'
        invariant
            j <= n.len(),
            stem@ == n@.take(j as int),
            forall|x: int| 0 <= x < j ==> n@[x] != '.',
            before_dot(n@) == stem@ + before_dot(n@.skip(j as int)),
        decreases n.len() - j,
    {
        assert(n@.skip(j as int).drop_first() =~= n@.skip(j + 1));
        assert(seq![n@[j as int]] + before_dot(n@.skip(j + 1)) == before_dot(n@.skip(j as int)));
        stem.push(n[j]);
        j += 1;
        assert(stem@ =~= n@.take(j as int));
        assert(before_dot(n@) =~= stem@ + before_dot(n@.skip(j as int)));
    }
    assert(before_dot(n@.skip(j as int)) =~= Seq::<char>::empty());
    assert(before_dot(n@) =~= stem@);
    let reserved = reserved_list();
    let mut r: usize = 0;
    while r < reserved.len()
        invariant
            r <= reserved.len(),
            reserved@.len() == reserved_names().len(),
            forall|k: int| 0 <= k < reserved@.len() ==> (#[trigger] reserved@[k])@ == reserved_names()[k],
            stem@ == before_dot(n@),
            n@ == trim(name@),
            n@.len() > 0,
            n@ != "."@ && n@ != ".."@,
            forall|x: int| 0 <= x < n@.len() ==> !bad_name_char(#[trigger] n@[x]),
            n@.last() != '.' && n@.last() != ' ',
            forall|k: int| 0 <= k < r ==> !crate::keymap::ascii_ci_eq(stem@, #[trigger] reserved_names()[k]),
        decreases reserved.len() - r,
    {
        if ci_eq_chars(&stem, &chars_of(reserved[r])) {
            assert(reserved@[r as int]@ == reserved_names()[r as int]);
            return Some("That name is reserved by Windows");
        }
        assert(reserved@[r as int]@ == reserved_names()[r as int]);
        r += 1;
    }
    None
}

// ------------------------------------------------------- the transfer panel

/// Most rows the transfer panel keeps before it drops finished ones.
pub const MAX_OP_ROWS: usize = 12;

/// What the interface must do after an operation event.
pub enum PanelAction {
    /// Answer a clash without asking, as the settings say.
    Resolve { op_id: u64, res: ConflictResolution },
    /// Select these new items in the listings that show them.
    SelectCreated(Vec<String>),
    /// Reload listings of these folders.
    Refresh(Vec<String>),
    /// Show a message.
    Toast { message: String, is_error: bool },
}

/// The transfer queue panel: its rows, the row in focus, the clash on
/// screen and those waiting, the operations still in flight, and the
/// undo journal that finished user operations are recorded in.
pub struct OpsPanel {
    pub views: Vec<OpView>,
    pub selected: Option<u64>,
    pub conflict: Option<ConflictPrompt>,
    pub conflict_queue: Vec<ConflictPrompt>,
    pub pending: HashMap<u64, Operation>,
    pub undo: UndoJournal,
}

/// Rows the panel keeps when it grows too long: unfinished ones and failed ones.
pub open spec fn keeps(o: OpView) -> bool {
    !o.finished || o.error is Some
}

pub open spec fn kept(s: Seq<OpView>) -> Seq<OpView>
    decreases s.len(),
{
    if s.len() == 0 {
        s
    } else if keeps(s.last()) {
        kept(s.drop_last()).push(s.last())
    } else {
        kept(s.drop_last())
    }
}

/// Index of the first row of operation `id`, or -1.
pub open spec fn find_row(s: Seq<OpView>, id: u64) -> int
    decreases s.len(),
{
    if s.len() == 0 {
        -1
    } else if s[0].op_id == id {
        0
    } else if find_row(s.drop_first(), id) < 0 {
        -1
    } else {
        1 + find_row(s.drop_first(), id)
    }
}

proof fn lemma_find_row(s: Seq<OpView>, id: u64)
    ensures
        -1 <= find_row(s, id) < s.len(),
        find_row(s, id) >= 0 ==> s[find_row(s, id)].op_id == id,
        forall|k: int| 0 <= k < s.len() && (find_row(s, id) < 0 || k < find_row(s, id)) ==> s[k].op_id != id,
    decreases s.len(),
{
    if s.len() > 0 && s[0].op_id != id {
        lemma_find_row(s.drop_first(), id);
        assert forall|k: int| 0 <= k < s.len() && (find_row(s, id) < 0 || k < find_row(s, id)) implies s[k].op_id != id by {
            if k > 0 {
                assert(s.drop_first()[k - 1] == s[k]);
            }
        }
    }
}

proof fn lemma_find_row_is(s: Seq<OpView>, id: u64, i: int)
    requires
        0 <= i <= s.len(),
        forall|k: int| 0 <= k < i ==> s[k].op_id != id,
        i < s.len() ==> s[i].op_id == id,
    ensures
        find_row(s, id) == (if i < s.len() { i } else { -1 }),
{
    lemma_find_row(s, id);
    if find_row(s, id) >= 0 && find_row(s, id) < i {
        assert(s[find_row(s, id)].op_id == id);
    }
    if i < s.len() && (find_row(s, id) < 0 || find_row(s, id) > i) {
        assert(s[i].op_id != id);
    }
}

/// `views` with the row of `id` marked finished, with `error` when given.
pub open spec fn finish_row(views: Seq<OpView>, id: u64, error: Option<String>) -> Seq<OpView> {
    let i = find_row(views, id);
    if i < 0 {
        views
    } else {
        views.update(
            i,
            OpView {
                finished: true,
                error: match error {
                    Some(e) => Some(e),
                    None => views[i].error,
                },
                ..views[i]
            },
        )
    }
}

/// The redo operations recorded with an action: the original operation,
/// when it was still known.
pub open spec fn redo_of(original: Option<Operation>) -> Seq<crate::ops::OpV> {
    match original {
        Some(o) => seq![o@],
        None => Seq::empty(),
    }
}

impl OpsPanel {
    /// An empty panel.
    pub fn new() -> (r: OpsPanel)
        ensures
            r.views@.len() == 0,
            r.selected is None,
            r.conflict is None,
            r.conflict_queue@.len() == 0,
            r.pending@ == Map::<u64, Operation>::empty(),
            r.undo@.undo.len() == 0 && r.undo@.redo.len() == 0,
    {
        OpsPanel {
            views: Vec::new(),
            selected: None,
            conflict: None,
            conflict_queue: Vec::new(),
            pending: HashMap::new(),
            undo: UndoJournal::new(),
        }
    }

    fn row_of(&self, id: u64) -> (r: Option<usize>)
        ensures
            r matches Some(i) ==> i as int == find_row(self.views@, id),
            r is None ==> find_row(self.views@, id) == -1,
    {
        let mut i: usize = 0;
        while i < self.views.len()
            invariant
                i <= self.views.len(),
                forall|k: int| 0 <= k < i ==> self.views@[k].op_id != id,
            decreases self.views.len() - i,
        {
            if self.views[i].op_id == id {
                proof {
                    lemma_find_row_is(self.views@, id, i as int);
                }
                return Some(i);
            }
            i += 1;
        }
        proof {
            lemma_find_row_is(self.views@, id, i as int);
        }
        None
    }

    fn mark_finished(&mut self, id: u64, error: Option<String>)
        ensures
            final(self).views@ == finish_row(old(self).views@, id, error),
            final(self).selected == old(self).selected,
            final(self).conflict == old(self).conflict,
            final(self).conflict_queue == old(self).conflict_queue,
            final(self).pending == old(self).pending,
            final(self).undo == old(self).undo,
    {
        match self.row_of(id) {
            None => {},
            Some(i) => {
                proof {
                    lemma_find_row(self.views@, id);
                }
                let old_row = self.views.remove(i);
                let err = match error {
                    Some(e) => Some(e),
                    None => old_row.error,
                };
                let row = OpView { finished: true, error: err, ..old_row };
                self.views.insert(i, row);
                assert(self.views@ =~= finish_row(old(self).views@, id, error));
            },
        }
    }

    fn trim_rows(&mut self)
        ensures
            final(self).views@ == kept(old(self).views@),
            final(self).selected == old(self).selected,
            final(self).conflict == old(self).conflict,
            final(self).conflict_queue == old(self).conflict_queue,
            final(self).pending == old(self).pending,
            final(self).undo == old(self).undo,
    {
        let mut rows: Vec<OpView> = Vec::new();
        std::mem::swap(&mut rows, &mut self.views);
        let n0 = rows.len();
        let ghost all = rows@;
        assert(all.len() == n0 as nat);
        let mut keep: Vec<OpView> = Vec::new();
        let mut i: usize = 0;
        assert(all.take(0) =~= Seq::<OpView>::empty());
        while rows.len() > 0
            invariant
                i + rows@.len() == all.len(),
                all.len() <= usize::MAX,
                rows@ == all.skip(i as int),
                keep@ == kept(all.take(i as int)),
            decreases rows@.len(),
        {
            let row = rows.remove(0);
            assert(all.take(i + 1).drop_last() =~= all.take(i as int));
            assert(all.take(i + 1).last() == row);
            if !row.finished || row.error.is_some() {
                keep.push(row);
            }
            assert(rows@ =~= all.skip(i + 1));
            i += 1;
        }
        assert(all.take(i as int) =~= all);
        self.views = keep;
    }

    /// Takes in one operation event (see the clauses for each kind).
    pub fn handle_op_event(&mut self, ev: OpEvent, conflict_default: ConflictDefault, now: Instant) -> (actions: Vec<PanelAction>)
        ensures
            ev matches OpEvent::Started { op_id, origin, label, total_bytes, total_files } ==> {
                let row = OpView {
                    op_id,
                    label,
                    done_bytes: 0,
                    total_bytes,
                    done_files: 0,
                    total_files,
                    current: final(self).views@.last().current,
                    finished: false,
                    error: None,
                    started: now,
                };
                &&& final(self).views@.last().current@.len() == 0
                &&& final(self).views@ == (if old(self).views@.len() + 1 > MAX_OP_ROWS {
                    kept(old(self).views@.push(row))
                } else {
                    old(self).views@.push(row)
                })
                &&& final(self).selected == (if old(self).selected is None { Some(op_id) } else { old(self).selected })
                &&& actions@.len() == 0
                &&& final(self).pending == old(self).pending
                &&& final(self).undo == old(self).undo
            },
            ev matches OpEvent::Progress { op_id, done_bytes, total_bytes, done_files, total_files, current } ==> {
                let i = find_row(old(self).views@, op_id);
                &&& final(self).views@ == (if i < 0 {
                    old(self).views@
                } else {
                    old(self).views@.update(i, OpView { done_bytes, total_bytes, done_files, total_files, current, ..old(self).views@[i] })
                })
                &&& actions@.len() == 0
                &&& final(self).pending == old(self).pending
                &&& final(self).undo == old(self).undo
            },
            ev matches OpEvent::Conflict { op_id, source, dest } ==> {
                let prompt = ConflictPrompt { op_id, source, dest, apply_to_all: false };
                &&& final(self).views == old(self).views
                &&& final(self).pending == old(self).pending
                &&& final(self).undo == old(self).undo
                &&& conflict_default == ConflictDefault::Ask ==> {
                    &&& actions@.len() == 0
                    &&& if old(self).conflict is Some {
                        final(self).conflict == old(self).conflict
                            && final(self).conflict_queue@ == old(self).conflict_queue@.push(prompt)
                    } else {
                        final(self).conflict == Some(prompt)
                            && final(self).conflict_queue == old(self).conflict_queue
                    }
                }
                &&& conflict_default != ConflictDefault::Ask ==> {
                    &&& actions@.len() == 1
                    &&& actions@[0] == PanelAction::Resolve {
                        op_id,
                        res: match conflict_default {
                            ConflictDefault::Overwrite => ConflictResolution::Overwrite,
                            ConflictDefault::KeepBoth => ConflictResolution::AutoRename,
                            _ => ConflictResolution::Skip,
                        },
                    }
                    &&& final(self).conflict == old(self).conflict
                    &&& final(self).conflict_queue == old(self).conflict_queue
                }
            },
            ev matches OpEvent::Done { op_id, origin, undo, refresh, created } ==> {
                &&& final(self).views@ == finish_row(old(self).views@, op_id, None)
                &&& final(self).pending@ == old(self).pending@.remove(op_id)
                &&& final(self).undo@ == (if origin == OpOrigin::User && undo is Some {
                    record_spec(old(self).undo@, EntryV {
                        undo: undo.unwrap()@,
                        redo_ops: redo_of(if old(self).pending@.contains_key(op_id) { Some(old(self).pending@[op_id]) } else { None }),
                    })
                } else {
                    old(self).undo@
                })
                &&& actions@.len() == 2
                &&& actions@[0] == PanelAction::SelectCreated(created)
                &&& actions@[1] == PanelAction::Refresh(refresh)
            },
            ev matches OpEvent::Failed { op_id, origin, error } ==> {
                &&& final(self).views@ == finish_row(old(self).views@, op_id, Some(error))
                &&& final(self).pending@ == old(self).pending@.remove(op_id)
                &&& final(self).undo == old(self).undo
                &&& actions@.len() == 1
                &&& actions@[0] matches PanelAction::Toast { message, is_error }
                &&& message@ == "Operation failed: "@ + error@ && is_error
            },
            ev matches OpEvent::Cancelled { op_id, origin } ==> {
                &&& final(self).views@.len() == old(self).views@.len()
                &&& find_row(old(self).views@, op_id) >= 0 ==> {
                    let i = find_row(old(self).views@, op_id);
                    &&& final(self).views@[i].finished
                    &&& final(self).views@[i].error matches Some(e) && e@ == "cancelled"@
                }
                &&& find_row(old(self).views@, op_id) < 0 ==> final(self).views@ == old(self).views@
                &&& final(self).pending@ == old(self).pending@.remove(op_id)
                &&& final(self).undo == old(self).undo
                &&& actions@.len() == 0
            },
    {
        broadcast use vstd::std_specs::hash::group_hash_axioms;
        match ev {
            OpEvent::Started { op_id, origin: _, label, total_bytes, total_files } => {
                let row = OpView {
                    op_id,
                    label,
                    done_bytes: 0,
                    total_bytes,
                    done_files: 0,
                    total_files,
                    current: String::new(),
                    finished: false,
                    error: None,
                    started: now,
                };
                self.views.push(row);
                if self.selected.is_none() {
                    self.selected = Some(op_id);
                }
                if self.views.len() > MAX_OP_ROWS {
                    self.trim_rows();
                }
                Vec::new()
            },
            OpEvent::Progress { op_id, done_bytes, total_bytes, done_files, total_files, current } => {
                match self.row_of(op_id) {
                    None => {},
                    Some(i) => {
                        proof {
                            lemma_find_row(self.views@, op_id);
                        }
                        let old_row = self.views.remove(i);
                        let row = OpView { done_bytes, total_bytes, done_files, total_files, current, ..old_row };
                        self.views.insert(i, row);
                        assert(self.views@ =~= old(self).views@.update(
                            i as int,
                            OpView { done_bytes, total_bytes, done_files, total_files, current, ..old(self).views@[i as int] },
                        ));
                    },
                }
                Vec::new()
            },
            OpEvent::Conflict { op_id, source, dest } => {
                let prompt = ConflictPrompt { op_id, source, dest, apply_to_all: false };
                match conflict_default {
                    ConflictDefault::Ask => {
                        if self.conflict.is_some() {
                            self.conflict_queue.push(prompt);
                        } else {
                            self.conflict = Some(prompt);
                        }
                        Vec::new()
                    },
                    ConflictDefault::Overwrite => {
                        vec![PanelAction::Resolve { op_id, res: ConflictResolution::Overwrite }]
                    },
                    ConflictDefault::KeepBoth => {
                        vec![PanelAction::Resolve { op_id, res: ConflictResolution::AutoRename }]
                    },
                    ConflictDefault::Skip => {
                        vec![PanelAction::Resolve { op_id, res: ConflictResolution::Skip }]
                    },
                }
            },
            OpEvent::Done { op_id, origin, undo, refresh, created } => {
                self.mark_finished(op_id, None);
                let original = self.pending.remove(&op_id);
                if origin == OpOrigin::User {
                    match undo {
                        Some(u) => {
                            let redo: Vec<Operation> = match original {
                                Some(o) => vec![o],
                                None => Vec::new(),
                            };
                            assert(ops_view(redo@) =~= redo_of(original));
                            self.undo.record(u, redo);
                        },
                        None => {},
                    }
                }
                vec![PanelAction::SelectCreated(created), PanelAction::Refresh(refresh)]
            },
            OpEvent::Failed { op_id, origin: _, error } => {
                let _ = self.pending.remove(&op_id);
                let mut message = owned("Operation failed: ");
                message.append(error.as_str());
                self.mark_finished(op_id, Some(error));
                vec![PanelAction::Toast { message, is_error: true }]
            },
            OpEvent::Cancelled { op_id, origin: _ } => {
                let _ = self.pending.remove(&op_id);
                let ghost v0 = self.views@;
                let reason = owned("cancelled");
                self.mark_finished(op_id, Some(reason));
                proof {
                    lemma_find_row(v0, op_id);
                }
                Vec::new()
            },
        }
    }
}


/// The panels, dialogs and menus that float over the panes, by whether each
/// is open, with the clash prompt shown and those waiting behind it (by
/// operation id).
#[derive(Clone, Debug)]
pub struct FloatingUi {
    pub search_open: bool,
    pub palette_open: bool,
    pub preview_enabled: bool,
    pub show_settings: bool,
    pub show_columns: bool,
    pub show_about: bool,
    pub show_plugin_manager: bool,
    pub show_everything_prompt: bool,
    pub new_item_open: bool,
    pub tag_edit_open: bool,
    pub batch_rename_open: bool,
    pub delete_pending: bool,
    pub conflict: Option<u64>,
    pub conflict_queue: Vec<u64>,
    pub compare_open: bool,
    pub row_menu_open: bool,
    pub pane_menu_open: bool,
}

/// What closing every floating thing did: whether anything was open, whether
/// the preview pane must be shut, and the operations whose clash prompts
/// are answered with Cancel, in order.
#[derive(Clone, Debug)]
pub struct Dismissal {
    pub any: bool,
    pub close_preview: bool,
    pub cancel: Vec<u64>,
}

impl FloatingUi {
    /// Whether anything floats over the panes.
    pub open spec fn anything_open(self) -> bool {
        self.search_open || self.palette_open || self.preview_enabled || self.show_settings
            || self.show_columns || self.show_about || self.show_plugin_manager
            || self.show_everything_prompt || self.new_item_open || self.tag_edit_open
            || self.batch_rename_open || self.delete_pending || self.conflict is Some
            || self.compare_open || self.row_menu_open || self.pane_menu_open
    }

    /// The clash prompts Escape cancels: the one shown and then the waiting
    /// ones; none, and the queue left alone, when none is shown.
    pub open spec fn cancelled(self) -> Seq<u64> {
        match self.conflict {
            Some(c) => seq![c] + self.conflict_queue@,
            None => Seq::empty(),
        }
    }

    /// Closes everything that floats over the panes (what Escape does).
    pub fn dismiss_floating_ui(&mut self) -> (r: Dismissal)
        ensures
            r.any == old(self).anything_open(),
            r.close_preview == old(self).preview_enabled,
            r.cancel@ == old(self).cancelled(),
            !final(self).anything_open(),
            final(self).conflict_queue@ == (if old(self).conflict is Some { Seq::empty() } else { old(self).conflict_queue@ }),
    {
        let any = self.search_open || self.palette_open || self.preview_enabled || self.show_settings
            || self.show_columns || self.show_about || self.show_plugin_manager
            || self.show_everything_prompt || self.new_item_open || self.tag_edit_open
            || self.batch_rename_open || self.delete_pending || self.conflict.is_some()
            || self.compare_open || self.row_menu_open || self.pane_menu_open;
        let close_preview = self.preview_enabled;
        let mut cancel: Vec<u64> = Vec::new();
        match self.conflict {
            Some(c) => {
                cancel.push(c);
                cancel.append(&mut self.conflict_queue);
                assert(cancel@ =~= seq![c] + old(self).conflict_queue@);
            },
            None => {},
        }
        self.search_open = false;
        self.palette_open = false;
        self.preview_enabled = false;
        self.show_settings = false;
        self.show_columns = false;
        self.show_about = false;
        self.show_plugin_manager = false;
        self.show_everything_prompt = false;
        self.new_item_open = false;
        self.tag_edit_open = false;
        self.batch_rename_open = false;
        self.delete_pending = false;
        self.conflict = None;
        self.compare_open = false;
        self.row_menu_open = false;
        self.pane_menu_open = false;
        Dismissal { any, close_preview, cancel }
    }
}

} // verus!
