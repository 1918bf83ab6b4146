//! User-editable keyboard shortcuts. Stored in settings.toml as strings
//! like `"Ctrl+Shift+C"` or `"F7"`; the key names are egui's.
use vstd::prelude::*;
use crate::text::{ascii_lower, lower, chars_of, string_of, owned, trim, trim_bounds};

verus! {

#[verifier::external_type_specification]
#[verifier::external_body]
pub struct ExKey(egui::Key);

/// `Key::ALL[i].name()` in egui, `None` past the end of `Key::ALL`.
pub uninterp spec fn egui_key_name(i: nat) -> Option<Seq<char>>;

/// `Key::ALL[i].symbol_or_name()` in egui, `None` past the end of `Key::ALL`.
pub uninterp spec fn egui_key_symbol(i: nat) -> Option<Seq<char>>;

/// The `Debug` form of `Key::ALL[i]` in egui (the variant's name), `None`
/// past the end of `Key::ALL`.
pub uninterp spec fn egui_key_debug(i: nat) -> Option<Seq<char>>;

/// The length of egui's `Key::ALL`. Claims that exactly the indices below
/// it have a name, a symbol and a `Debug` form.
#[verifier::external_body]
fn key_count() -> (r: usize)
    ensures
        forall|i: nat| #![trigger egui_key_name(i)] (i < r) == egui_key_name(i) is Some,
        forall|i: nat| #![trigger egui_key_symbol(i)] (i < r) == egui_key_symbol(i) is Some,
        forall|i: nat| #![trigger egui_key_debug(i)] (i < r) == egui_key_debug(i) is Some,
{
    egui::Key::ALL.len()
}

pub open spec fn opt_chars(o: Option<String>) -> Option<Seq<char>> {
    match o {
        Some(s) => Some(s@),
        None => None,
    }
}

/// `Key::name` of the `i`-th key of egui's `Key::ALL`.
#[verifier::external_body]
fn key_name_at(i: usize) -> (r: Option<String>)
    ensures
        opt_chars(r) == egui_key_name(i as nat),
{
    match egui::Key::ALL.get(i) {
        Some(k) => Some(k.name().to_string()),
        None => None,
    }
}

/// `Key::symbol_or_name` of the `i`-th key of egui's `Key::ALL`.
#[verifier::external_body]
fn key_symbol_at(i: usize) -> (r: Option<String>)
    ensures
        opt_chars(r) == egui_key_symbol(i as nat),
{
    match egui::Key::ALL.get(i) {
        Some(k) => Some(k.symbol_or_name().to_string()),
        None => None,
    }
}

/// The `Debug` form of the `i`-th key of egui's `Key::ALL`.
#[verifier::external_body]
fn key_debug_at(i: usize) -> (r: Option<String>)
    ensures
        opt_chars(r) == egui_key_debug(i as nat),
{
    match egui::Key::ALL.get(i) {
        Some(k) => Some(format!("{k:?}")),
        None => None,
    }
}

/// The `i`-th key of egui's `Key::ALL`; claims only that there is one
/// exactly where the key has a name.
#[verifier::external_body]
fn key_at(i: usize) -> (r: Option<egui::Key>)
    ensures
        r is Some == egui_key_name(i as nat) is Some,
{
    egui::Key::ALL.get(i).copied()
}

/// `str::eq_ignore_ascii_case`.
pub open spec fn ascii_ci_eq(a: Seq<char>, b: Seq<char>) -> bool {
    a.len() == b.len() && forall|i: int| 0 <= i < a.len() ==> lower(#[trigger] a[i]) == lower(b[i])
}

fn ci_eq(a: &Vec<char>, b: &Vec<char>) -> (r: bool)
    ensures
        r == ascii_ci_eq(a@, b@),
{
    if a.len() != b.len() {
        return false;
    }
    let mut i: usize = 0;
    while i < a.len()
        invariant
            a.len() == b.len(),
            i <= a.len(),
            forall|k: int| 0 <= k < i ==> lower(#[trigger] a@[k]) == lower(b@[k]),
        decreases a.len() - i,
    {
        if ascii_lower(a[i]) != ascii_lower(b[i]) {
            return false;
        }
        i += 1;
    }
    true
}

fn opt_ci_eq(o: &Option<String>, want: &Vec<char>) -> (r: bool)
    ensures
        r == (opt_chars(*o) matches Some(n) && ascii_ci_eq(n, want@)),
{
    match o {
        Some(s) => ci_eq(&chars_of(s.as_str()), want),
        None => false,
    }
}

/// The `i`-th egui key answers to `want` by its name, its symbol or its
/// `Debug` form, ignoring ASCII case.
pub open spec fn key_matches(i: nat, want: Seq<char>) -> bool {
    ||| (egui_key_name(i) matches Some(n) && ascii_ci_eq(n, want))
    ||| (egui_key_symbol(i) matches Some(n) && ascii_ci_eq(n, want))
    ||| (egui_key_debug(i) matches Some(n) && ascii_ci_eq(n, want))
}

pub open spec fn is_first_key(i: nat, want: Seq<char>) -> bool {
    key_matches(i, want) && forall|j: nat| j < i ==> !key_matches(j, want)
}

/// The first egui key (as an index into `Key::ALL`) that answers to `want`.
pub open spec fn first_key(want: Seq<char>) -> Option<nat> {
    if exists|i: nat| is_first_key(i, want) {
        Some(choose|i: nat| is_first_key(i, want))
    } else {
        None
    }
}

/// Finds the first egui key answering to `want`.
fn find_key(want: &Vec<char>) -> (r: Option<usize>)
    ensures
        r matches Some(i) ==> first_key(want@) == Some(i as nat) && egui_key_name(i as nat) is Some,
        r is None ==> first_key(want@) is None,
{
    let n = key_count();
    let mut i: usize = 0;
    while i < n
        invariant
            i <= n,
            forall|k: nat| #![trigger egui_key_name(k)] (k < n) == egui_key_name(k) is Some,
            forall|k: nat| #![trigger egui_key_symbol(k)] (k < n) == egui_key_symbol(k) is Some,
            forall|k: nat| #![trigger egui_key_debug(k)] (k < n) == egui_key_debug(k) is Some,
            forall|j: nat| j < i ==> !key_matches(j, want@),
        decreases n - i,
    {
        let a = key_name_at(i);
        let b = key_symbol_at(i);
        let c = key_debug_at(i);
        if opt_ci_eq(&a, want) || opt_ci_eq(&b, want) || opt_ci_eq(&c, want) {
            proof {
                assert(egui_key_name(i as nat) is Some);
                assert(is_first_key(i as nat, want@));
                let k = choose|k: nat| is_first_key(k, want@);
                assert(is_first_key(k, want@));
                if k < i as nat {
                    assert(!key_matches(k, want@));
                }
                if k > i as nat {
                    assert(!key_matches(i as nat, want@));
                }
            }
            return Some(i);
        }
        i += 1;
    }
    proof {
        assert forall|k: nat| !is_first_key(k, want@) by {
            if k >= n as nat {
                assert(egui_key_name(k) is None);
                assert(egui_key_symbol(k) is None);
                assert(egui_key_debug(k) is None);
            }
        }
    }
    None
}

/// Finds the egui key `s` names (its name, symbol or variant, ignoring ASCII
/// case and surrounding whitespace), as an index into `Key::ALL`.
pub fn parse_key(s: &str) -> (r: Option<usize>)
    ensures
        r matches Some(i) ==> first_key(trim(s@)) == Some(i as nat) && egui_key_name(i as nat) is Some,
        r is None ==> first_key(trim(s@)) is None,
{
    let v = chars_of(s);
    let (lo, hi) = trim_bounds(&v);
    let w = sub_chars(&v, lo, hi);
    find_key(&w)
}

/// A keyboard chord: modifiers and the key's egui variant name (empty when
/// unbound).
#[derive(Clone, Debug)]
pub struct Chord {
    pub ctrl: bool,
    pub alt: bool,
    pub shift: bool,
    pub key: String,
}

/// A chord with its key as a character sequence.
pub struct ChordV {
    pub ctrl: bool,
    pub alt: bool,
    pub shift: bool,
    pub key: Seq<char>,
}

impl View for Chord {
    type V = ChordV;

    open spec fn view(&self) -> ChordV {
        ChordV { ctrl: self.ctrl, alt: self.alt, shift: self.shift, key: self.key@ }
    }
}

/// The modifier keys held, as the chord logic reads them.
#[derive(Clone, Copy, Debug, PartialEq, Eq, Structural)]
pub struct ModifierState {
    pub ctrl: bool,
    pub command: bool,
    pub alt: bool,
    pub shift: bool,
}

/// The `Ctrl+`/`Alt+`/`Shift+` prefix of a chord.
pub open spec fn mod_prefix(c: ChordV) -> Seq<char> {
    (if c.ctrl { "Ctrl+"@ } else { Seq::empty() }) + (if c.alt { "Alt+"@ } else { Seq::empty() })
        + (if c.shift { "Shift+"@ } else { Seq::empty() })
}

/// How a key is shown: its symbol when that is one character, else its name;
/// the stored text itself when egui knows no such key (looked up with
/// surrounding whitespace ignored).
pub open spec fn key_text(key: Seq<char>) -> Seq<char> {
    match first_key(trim(key)) {
        Some(i) => match egui_key_symbol(i) {
            Some(sym) if sym.len() == 1 => sym,
            _ => match egui_key_name(i) {
                Some(n) => n,
                None => key,
            },
        },
        None => key,
    }
}

impl Chord {
    pub fn new(ctrl: bool, alt: bool, shift: bool, key: &str) -> (r: Chord)
        ensures
            r@ == (ChordV { ctrl, alt, shift, key: key@ }),
    {
        Chord { ctrl, alt, shift, key: owned(key) }
    }

    /// The chord bound to nothing.
    pub fn unbound() -> (r: Chord)
        ensures
            r@ == (ChordV { ctrl: false, alt: false, shift: false, key: Seq::empty() }),
    {
        Chord { ctrl: false, alt: false, shift: false, key: String::new() }
    }

    pub fn is_unbound(&self) -> (r: bool)
        ensures
            r == (self.key@.len() == 0),
    {
        self.key.as_str().is_empty()
    }

    /// Whether two chords are the same.
    pub fn same_as(&self, other: &Chord) -> (r: bool)
        ensures
            r == (self@ == other@),
    {
        self.ctrl == other.ctrl && self.alt == other.alt && self.shift == other.shift && self.key
            == other.key
    }

    /// The egui key of this chord, if its key names one.
    pub fn key(&self) -> (r: Option<egui::Key>)
        ensures
            r is Some == first_key(trim(self.key@)) is Some,
    {
        match parse_key(self.key.as_str()) {
            Some(i) => key_at(i),
            None => None,
        }
    }

    /// How the chord is shown: `None` when unbound, else the modifiers then
    /// the key's symbol or name.
    pub fn label(&self) -> (r: String)
        ensures
            r@ == (if self.key@.len() == 0 { "None"@ } else { mod_prefix(self@) + key_text(self.key@) }),
    {
        if self.is_unbound() {
            return owned("None");
        }
        let mut s = String::new();
        if self.ctrl {
            s.append("Ctrl+");
        }
        if self.alt {
            s.append("Alt+");
        }
        if self.shift {
            s.append("Shift+");
        }
        assert(s@ =~= mod_prefix(self@));
        let text = match parse_key(self.key.as_str()) {
            Some(i) => {
                let sym = key_symbol_at(i);
                let one = match &sym {
                    Some(t) => chars_of(t.as_str()).len() == 1,
                    None => false,
                };
                if one {
                    match sym {
                        Some(t) => t,
                        None => self.key.clone(),
                    }
                } else {
                    match key_name_at(i) {
                        Some(n) => n,
                        None => self.key.clone(),
                    }
                }
            },
            None => self.key.clone(),
        };
        s.append(text.as_str());
        s
    }

    /// The stable `Ctrl+Shift+C` / `F7` form written to settings.toml.
    pub fn to_storage(&self) -> (r: String)
        ensures
            r@ == (if self.key@.len() == 0 { Seq::empty() } else { mod_prefix(self@) + self.key@ }),
    {
        if self.is_unbound() {
            return String::new();
        }
        let mut s = String::new();
        if self.ctrl {
            s.append("Ctrl+");
        }
        if self.alt {
            s.append("Alt+");
        }
        if self.shift {
            s.append("Shift+");
        }
        assert(s@ =~= mod_prefix(self@));
        s.append(self.key.as_str());
        s
    }

    /// True when the held modifiers match this chord (key ignored); Command
    /// counts as Ctrl.
    pub fn matches_modifiers(&self, m: ModifierState) -> (r: bool)
        ensures
            r == ((m.command || m.ctrl) == self.ctrl && m.alt == self.alt && m.shift == self.shift),
    {
        let ctrl_down = m.command || m.ctrl;
        ctrl_down == self.ctrl && m.alt == self.alt && m.shift == self.shift
    }

    /// The chord a key press makes: Command counts as Ctrl; the key is the
    /// `i`-th of egui's `Key::ALL`, kept by its variant name. `None` past the
    /// end of `Key::ALL`.
    pub fn from_egui(modifiers: ModifierState, i: usize) -> (r: Option<Chord>)
        ensures
            match egui_key_debug(i as nat) {
                Some(name) => r matches Some(c) && c@ == (ChordV {
                    ctrl: modifiers.ctrl || modifiers.command,
                    alt: modifiers.alt,
                    shift: modifiers.shift,
                    key: name,
                }),
                None => r is None,
            },
    {
        match key_debug_at(i) {
            Some(name) => Some(Chord {
                ctrl: modifiers.ctrl || modifiers.command,
                alt: modifiers.alt,
                shift: modifiers.shift,
                key: name,
            }),
            None => None,
        }
    }

    /// The modifiers this chord holds down (Ctrl as Ctrl, never Command).
    pub fn modifiers(&self) -> (r: ModifierState)
        ensures
            r == (ModifierState { ctrl: self.ctrl, command: false, alt: self.alt, shift: self.shift }),
    {
        ModifierState { ctrl: self.ctrl, command: false, alt: self.alt, shift: self.shift }
    }

    /// Parses a stored chord (see `parse_spec`).
    pub fn parse(s: &str) -> (r: Option<Chord>)
        ensures
            r matches Some(c) ==> parse_spec(s@) == Some(c@),
            r is None ==> parse_spec(s@) is None,
    {
        let v = chars_of(s);
        let (lo, hi) = trim_bounds(&v);
        if lo == hi {
            return Some(Chord::unbound());
        }
        let pieces = split_plus_exec(&v);
        let ghost pv = pieces_view(pieces@);
        let mut ctrl = false;
        let mut alt = false;
        let mut shift = false;
        let mut key: Option<String> = None;
        let mut k: usize = 0;
        assert(pv.take(0) =~= Seq::<Seq<char>>::empty());
        while k < pieces.len()
            invariant
                k <= pieces.len(),
                pv == pieces_view(pieces@),
                pv == split_plus(s@),
                trim(s@).len() > 0,
                fold_parts(pv.take(k as int)) == (PartsV { ctrl, alt, shift, key: opt_chars(key), failed: false }),
            decreases pieces.len() - k,
        {
            assert(pv.take(k + 1).drop_last() =~= pv.take(k as int));
            assert(pv.take(k + 1).last() == pieces@[k as int]@);
            let pc = &pieces[k];
            let (plo, phi) = trim_bounds(pc);
            if plo < phi {
                let w = sub_chars(pc, plo, phi);
                let low = lower_chars(&w);
                if is_lit(&low, "ctrl") || is_lit(&low, "control") || is_lit(&low, "cmd")
                    || is_lit(&low, "command") {
                    ctrl = true;
                } else if is_lit(&low, "alt") {
                    alt = true;
                } else if is_lit(&low, "shift") {
                    shift = true;
                } else {
                    match find_key(&w) {
                        Some(ki) => {
                            key = key_debug_at(ki);
                        },
                        None => {
                            proof {
                                lemma_fold_failed(pv, k as int + 1);
                                assert(pv.take(pv.len() as int) =~= pv);
                            }
                            return None;
                        },
                    }
                }
            }
            k += 1;
        }
        assert(pv.take(pieces.len() as int) =~= pv);
        match key {
            Some(kk) => Some(Chord { ctrl, alt, shift, key: kk }),
            None => None,
        }
    }
}

/// Once the fold has failed, later pieces leave it failed.
proof fn lemma_fold_failed(pv: Seq<Seq<char>>, k: int)
    requires
        0 <= k <= pv.len(),
        fold_parts(pv.take(k)).failed,
    ensures
        fold_parts(pv).failed,
    decreases pv.len() - k,
{
    if k < pv.len() {
        assert(pv.take(k + 1).drop_last() =~= pv.take(k));
        lemma_fold_failed(pv, k + 1);
    } else {
        assert(pv.take(k) =~= pv);
    }
}

pub open spec fn pieces_view(s: Seq<Vec<char>>) -> Seq<Seq<char>> {
    s.map_values(|v: Vec<char>| v@)
}

fn split_plus_exec(v: &Vec<char>) -> (r: Vec<Vec<char>>)
    ensures
        pieces_view(r@) == split_plus(v@),
{
    let mut out: Vec<Vec<char>> = Vec::new();
    let mut cur: Vec<char> = Vec::new();
    let mut i: usize = 0;
    assert(v@.take(0) =~= Seq::<char>::empty());
    assert(pieces_view(out@).push(cur@) =~= seq![Seq::<char>::empty()]);
    while i < v.len()
        invariant
            i <= v.len(),
            pieces_view(out@).push(cur@) == split_plus(v@.take(i as int)),
        decreases v.len() - i,
    {
        assert(v@.take(i + 1).drop_last() =~= v@.take(i as int));
        assert(v@.take(i + 1).last() == v@[i as int]);
        let ghost before = pieces_view(out@);
        let ghost c0 = cur@;
        if v[i] == '+' {
            let mut done: Vec<char> = Vec::new();
            std::mem::swap(&mut done, &mut cur);
            out.push(done);
            assert(pieces_view(out@) =~= before.push(c0));
            assert(pieces_view(out@).push(cur@) =~= before.push(c0).push(Seq::<char>::empty()));
        } else {
            cur.push(v[i]);
            assert(pieces_view(out@).push(cur@) =~= before.push(c0).update(before.len() as int, c0.push(v@[i as int])));
        }
        i += 1;
    }
    assert(v@.take(v.len() as int) =~= v@);
    out.push(cur);
    out
}

fn sub_chars(v: &Vec<char>, lo: usize, hi: usize) -> (r: Vec<char>)
    requires
        lo <= hi <= v.len(),
    ensures
        r@ == v@.subrange(lo as int, hi as int),
{
    let mut w: Vec<char> = Vec::new();
    let mut k: usize = lo;
    while k < hi
        invariant
            lo <= k <= hi <= v.len(),
            w@ == v@.subrange(lo as int, k as int),
        decreases hi - k,
    {
        w.push(v[k]);
        k += 1;
        assert(w@ =~= v@.subrange(lo as int, k as int));
    }
    w
}

fn lower_chars(w: &Vec<char>) -> (r: Vec<char>)
    ensures
        r@ == lower_all_chars(w@),
{
    let mut low: Vec<char> = Vec::new();
    let mut k: usize = 0;
    while k < w.len()
        invariant
            k <= w.len(),
            low@ == lower_all_chars(w@.take(k as int)),
        decreases w.len() - k,
    {
        low.push(ascii_lower(w[k]));
        k += 1;
        assert(low@ =~= lower_all_chars(w@.take(k as int)));
    }
    assert(w@.take(w.len() as int) =~= w@);
    low
}

fn is_lit(w: &Vec<char>, lit: &str) -> (r: bool)
    ensures
        r == (w@ == lit@),
{
    crate::paths::chars_eq(w, &chars_of(lit))
}

pub open spec fn lower_all_chars(s: Seq<char>) -> Seq<char> {
    s.map_values(|c: char| lower(c))
}

/// `str::split('+')`: the pieces between plus signs (one empty piece for an
/// empty string).
pub open spec fn split_plus(s: Seq<char>) -> Seq<Seq<char>>
    decreases s.len(),
{
    if s.len() == 0 {
        seq![Seq::empty()]
    } else {
        let r = split_plus(s.drop_last());
        if s.last() == '+' {
            r.push(Seq::empty())
        } else {
            r.update(r.len() - 1, r.last().push(s.last()))
        }
    }
}

/// What parsing has gathered so far.
pub struct PartsV {
    pub ctrl: bool,
    pub alt: bool,
    pub shift: bool,
    pub key: Option<Seq<char>>,
    pub failed: bool,
}

/// One piece of a stored chord: blank pieces are skipped; ctrl/control/cmd/
/// command, alt and shift (any ASCII case) set their modifier; anything else
/// must name an egui key, whose variant name becomes the key (a later key
/// replaces an earlier one); a piece that names no key fails the parse.
pub open spec fn apply_part(st: PartsV, piece: Seq<char>) -> PartsV {
    let p = trim(piece);
    let l = lower_all_chars(p);
    if p.len() == 0 {
        st
    } else if l == "ctrl"@ || l == "control"@ || l == "cmd"@ || l == "command"@ {
        PartsV { ctrl: true, ..st }
    } else if l == "alt"@ {
        PartsV { alt: true, ..st }
    } else if l == "shift"@ {
        PartsV { shift: true, ..st }
    } else {
        match first_key(p) {
            Some(i) => PartsV { key: egui_key_debug(i), ..st },
            None => PartsV { failed: true, ..st },
        }
    }
}

pub open spec fn fold_parts(pieces: Seq<Seq<char>>) -> PartsV
    decreases pieces.len(),
{
    if pieces.len() == 0 {
        PartsV { ctrl: false, alt: false, shift: false, key: None, failed: false }
    } else {
        let st = fold_parts(pieces.drop_last());
        if st.failed { st } else { apply_part(st, pieces.last()) }
    }
}

/// A stored chord: blank text is the unbound chord; otherwise the pieces
/// between plus signs folded as `apply_part` says, which must end with a key.
pub open spec fn parse_spec(s: Seq<char>) -> Option<ChordV> {
    if trim(s).len() == 0 {
        Some(ChordV { ctrl: false, alt: false, shift: false, key: Seq::empty() })
    } else {
        let st = fold_parts(split_plus(s));
        if st.failed {
            None
        } else {
            match st.key {
                Some(k) => Some(ChordV { ctrl: st.ctrl, alt: st.alt, shift: st.shift, key: k }),
                None => None,
            }
        }
    }
}

/// Every shortcut the settings list, in the order it lists them.
#[derive(Clone, Copy, Debug, PartialEq, Eq, Structural)]
pub enum ShortcutId {
    OpenTerminal,
    Rename,
    Refresh,
    SwitchPane,
    NewFolder,
    Filter,
    Search,
    Palette,
    Settings,
    NewTab,
    CloseTab,
    EditAddress,
    SelectAll,
    Copy,
    Cut,
    Paste,
    CopyPaths,
    CopyToOther,
    MoveToOther,
    Undo,
    Redo,
    CompareFolders,
    ToggleHidden,
    TogglePreview,
    GoUp,
    HistoryBack,
    HistoryForward,
    Delete,
    DeletePermanent,
    EnterFolder,
    ParentFolder,
}

/// The number of shortcut rows.
pub const SHORTCUT_COUNT: usize = 31;

/// The shortcut of row `i` of the settings list.
pub open spec fn row_id(i: int) -> ShortcutId {
    if i == 0 { ShortcutId::OpenTerminal }
    else if i == 1 { ShortcutId::Rename }
    else if i == 2 { ShortcutId::Refresh }
    else if i == 3 { ShortcutId::SwitchPane }
    else if i == 4 { ShortcutId::NewFolder }
    else if i == 5 { ShortcutId::Filter }
    else if i == 6 { ShortcutId::Search }
    else if i == 7 { ShortcutId::Palette }
    else if i == 8 { ShortcutId::Settings }
    else if i == 9 { ShortcutId::NewTab }
    else if i == 10 { ShortcutId::CloseTab }
    else if i == 11 { ShortcutId::EditAddress }
    else if i == 12 { ShortcutId::SelectAll }
    else if i == 13 { ShortcutId::Copy }
    else if i == 14 { ShortcutId::Cut }
    else if i == 15 { ShortcutId::Paste }
    else if i == 16 { ShortcutId::CopyPaths }
    else if i == 17 { ShortcutId::CopyToOther }
    else if i == 18 { ShortcutId::MoveToOther }
    else if i == 19 { ShortcutId::Undo }
    else if i == 20 { ShortcutId::Redo }
    else if i == 21 { ShortcutId::CompareFolders }
    else if i == 22 { ShortcutId::ToggleHidden }
    else if i == 23 { ShortcutId::TogglePreview }
    else if i == 24 { ShortcutId::GoUp }
    else if i == 25 { ShortcutId::HistoryBack }
    else if i == 26 { ShortcutId::HistoryForward }
    else if i == 27 { ShortcutId::Delete }
    else if i == 28 { ShortcutId::DeletePermanent }
    else if i == 29 { ShortcutId::EnterFolder }
    else { ShortcutId::ParentFolder }
}

/// The label of a shortcut in the settings list.
pub open spec fn shortcut_label(id: ShortcutId) -> Seq<char> {
    match id {
        ShortcutId::OpenTerminal => "Open terminal"@,
        ShortcutId::Rename => "Rename"@,
        ShortcutId::Refresh => "Refresh"@,
        ShortcutId::SwitchPane => "Switch pane"@,
        ShortcutId::NewFolder => "New folder"@,
        ShortcutId::Filter => "Filter"@,
        ShortcutId::Search => "Search"@,
        ShortcutId::Palette => "Quick jump"@,
        ShortcutId::Settings => "Settings"@,
        ShortcutId::NewTab => "New tab"@,
        ShortcutId::CloseTab => "Close tab"@,
        ShortcutId::EditAddress => "Edit address bar"@,
        ShortcutId::SelectAll => "Select all"@,
        ShortcutId::Copy => "Copy"@,
        ShortcutId::Cut => "Cut"@,
        ShortcutId::Paste => "Paste"@,
        ShortcutId::CopyPaths => "Copy path(s)"@,
        ShortcutId::CopyToOther => "Copy to other pane"@,
        ShortcutId::MoveToOther => "Move to other pane"@,
        ShortcutId::Undo => "Undo"@,
        ShortcutId::Redo => "Redo"@,
        ShortcutId::CompareFolders => "Compare folders"@,
        ShortcutId::ToggleHidden => "Toggle hidden files"@,
        ShortcutId::TogglePreview => "Toggle preview pane"@,
        ShortcutId::GoUp => "Go up"@,
        ShortcutId::HistoryBack => "History back"@,
        ShortcutId::HistoryForward => "History forward"@,
        ShortcutId::Delete => "Delete (recycle)"@,
        ShortcutId::DeletePermanent => "Delete permanently"@,
        ShortcutId::EnterFolder => "Enter folder"@,
        ShortcutId::ParentFolder => "Parent folder"@,
    }
}

fn label_of(id: ShortcutId) -> (r: &'static str)
    ensures
        r@ == shortcut_label(id),
{
    match id {
        ShortcutId::OpenTerminal => "Open terminal",
        ShortcutId::Rename => "Rename",
        ShortcutId::Refresh => "Refresh",
        ShortcutId::SwitchPane => "Switch pane",
        ShortcutId::NewFolder => "New folder",
        ShortcutId::Filter => "Filter",
        ShortcutId::Search => "Search",
        ShortcutId::Palette => "Quick jump",
        ShortcutId::Settings => "Settings",
        ShortcutId::NewTab => "New tab",
        ShortcutId::CloseTab => "Close tab",
        ShortcutId::EditAddress => "Edit address bar",
        ShortcutId::SelectAll => "Select all",
        ShortcutId::Copy => "Copy",
        ShortcutId::Cut => "Cut",
        ShortcutId::Paste => "Paste",
        ShortcutId::CopyPaths => "Copy path(s)",
        ShortcutId::CopyToOther => "Copy to other pane",
        ShortcutId::MoveToOther => "Move to other pane",
        ShortcutId::Undo => "Undo",
        ShortcutId::Redo => "Redo",
        ShortcutId::CompareFolders => "Compare folders",
        ShortcutId::ToggleHidden => "Toggle hidden files",
        ShortcutId::TogglePreview => "Toggle preview pane",
        ShortcutId::GoUp => "Go up",
        ShortcutId::HistoryBack => "History back",
        ShortcutId::HistoryForward => "History forward",
        ShortcutId::Delete => "Delete (recycle)",
        ShortcutId::DeletePermanent => "Delete permanently",
        ShortcutId::EnterFolder => "Enter folder",
        ShortcutId::ParentFolder => "Parent folder",
    }
}

/// The rows of the settings list: each shortcut with its label.
pub fn shortcut_rows() -> (r: Vec<(ShortcutId, &'static str)>)
    ensures
        r@.len() == SHORTCUT_COUNT,
        forall|i: int| 0 <= i < SHORTCUT_COUNT ==> (#[trigger] r@[i]).0 == row_id(i) && r@[i].1@ == shortcut_label(row_id(i)),
{
    let v = vec![
        (ShortcutId::OpenTerminal, label_of(ShortcutId::OpenTerminal)),
        (ShortcutId::Rename, label_of(ShortcutId::Rename)),
        (ShortcutId::Refresh, label_of(ShortcutId::Refresh)),
        (ShortcutId::SwitchPane, label_of(ShortcutId::SwitchPane)),
        (ShortcutId::NewFolder, label_of(ShortcutId::NewFolder)),
        (ShortcutId::Filter, label_of(ShortcutId::Filter)),
        (ShortcutId::Search, label_of(ShortcutId::Search)),
        (ShortcutId::Palette, label_of(ShortcutId::Palette)),
        (ShortcutId::Settings, label_of(ShortcutId::Settings)),
        (ShortcutId::NewTab, label_of(ShortcutId::NewTab)),
        (ShortcutId::CloseTab, label_of(ShortcutId::CloseTab)),
        (ShortcutId::EditAddress, label_of(ShortcutId::EditAddress)),
        (ShortcutId::SelectAll, label_of(ShortcutId::SelectAll)),
        (ShortcutId::Copy, label_of(ShortcutId::Copy)),
        (ShortcutId::Cut, label_of(ShortcutId::Cut)),
        (ShortcutId::Paste, label_of(ShortcutId::Paste)),
        (ShortcutId::CopyPaths, label_of(ShortcutId::CopyPaths)),
        (ShortcutId::CopyToOther, label_of(ShortcutId::CopyToOther)),
        (ShortcutId::MoveToOther, label_of(ShortcutId::MoveToOther)),
        (ShortcutId::Undo, label_of(ShortcutId::Undo)),
        (ShortcutId::Redo, label_of(ShortcutId::Redo)),
        (ShortcutId::CompareFolders, label_of(ShortcutId::CompareFolders)),
        (ShortcutId::ToggleHidden, label_of(ShortcutId::ToggleHidden)),
        (ShortcutId::TogglePreview, label_of(ShortcutId::TogglePreview)),
        (ShortcutId::GoUp, label_of(ShortcutId::GoUp)),
        (ShortcutId::HistoryBack, label_of(ShortcutId::HistoryBack)),
        (ShortcutId::HistoryForward, label_of(ShortcutId::HistoryForward)),
        (ShortcutId::Delete, label_of(ShortcutId::Delete)),
        (ShortcutId::DeletePermanent, label_of(ShortcutId::DeletePermanent)),
        (ShortcutId::EnterFolder, label_of(ShortcutId::EnterFolder)),
        (ShortcutId::ParentFolder, label_of(ShortcutId::ParentFolder)),
    ];
    v
}

/// Keyboard shortcuts, one chord per action.
#[derive(Clone, Debug)]
pub struct Keymap {
    pub open_terminal: Chord,
    pub rename: Chord,
    pub refresh: Chord,
    pub switch_pane: Chord,
    pub new_folder: Chord,
    pub filter: Chord,
    pub search: Chord,
    pub palette: Chord,
    pub settings: Chord,
    pub new_tab: Chord,
    pub close_tab: Chord,
    pub edit_address: Chord,
    pub select_all: Chord,
    pub copy: Chord,
    pub cut: Chord,
    pub paste: Chord,
    pub copy_paths: Chord,
    pub copy_to_other: Chord,
    pub move_to_other: Chord,
    pub undo: Chord,
    pub redo: Chord,
    pub compare_folders: Chord,
    pub toggle_hidden: Chord,
    pub toggle_preview: Chord,
    pub go_up: Chord,
    pub history_back: Chord,
    pub history_forward: Chord,
    pub delete: Chord,
    pub delete_permanent: Chord,
    pub enter_folder: Chord,
    pub parent_folder: Chord,
}

/// The chord `km` binds to `id`.
pub open spec fn chord_for(km: Keymap, id: ShortcutId) -> Chord {
    match id {
        ShortcutId::OpenTerminal => km.open_terminal,
        ShortcutId::Rename => km.rename,
        ShortcutId::Refresh => km.refresh,
        ShortcutId::SwitchPane => km.switch_pane,
        ShortcutId::NewFolder => km.new_folder,
        ShortcutId::Filter => km.filter,
        ShortcutId::Search => km.search,
        ShortcutId::Palette => km.palette,
        ShortcutId::Settings => km.settings,
        ShortcutId::NewTab => km.new_tab,
        ShortcutId::CloseTab => km.close_tab,
        ShortcutId::EditAddress => km.edit_address,
        ShortcutId::SelectAll => km.select_all,
        ShortcutId::Copy => km.copy,
        ShortcutId::Cut => km.cut,
        ShortcutId::Paste => km.paste,
        ShortcutId::CopyPaths => km.copy_paths,
        ShortcutId::CopyToOther => km.copy_to_other,
        ShortcutId::MoveToOther => km.move_to_other,
        ShortcutId::Undo => km.undo,
        ShortcutId::Redo => km.redo,
        ShortcutId::CompareFolders => km.compare_folders,
        ShortcutId::ToggleHidden => km.toggle_hidden,
        ShortcutId::TogglePreview => km.toggle_preview,
        ShortcutId::GoUp => km.go_up,
        ShortcutId::HistoryBack => km.history_back,
        ShortcutId::HistoryForward => km.history_forward,
        ShortcutId::Delete => km.delete,
        ShortcutId::DeletePermanent => km.delete_permanent,
        ShortcutId::EnterFolder => km.enter_folder,
        ShortcutId::ParentFolder => km.parent_folder,
    }
}

/// `km` with `id` bound to `c`.
pub open spec fn rebind(km: Keymap, id: ShortcutId, c: Chord) -> Keymap {
    match id {
        ShortcutId::OpenTerminal => Keymap { open_terminal: c, ..km },
        ShortcutId::Rename => Keymap { rename: c, ..km },
        ShortcutId::Refresh => Keymap { refresh: c, ..km },
        ShortcutId::SwitchPane => Keymap { switch_pane: c, ..km },
        ShortcutId::NewFolder => Keymap { new_folder: c, ..km },
        ShortcutId::Filter => Keymap { filter: c, ..km },
        ShortcutId::Search => Keymap { search: c, ..km },
        ShortcutId::Palette => Keymap { palette: c, ..km },
        ShortcutId::Settings => Keymap { settings: c, ..km },
        ShortcutId::NewTab => Keymap { new_tab: c, ..km },
        ShortcutId::CloseTab => Keymap { close_tab: c, ..km },
        ShortcutId::EditAddress => Keymap { edit_address: c, ..km },
        ShortcutId::SelectAll => Keymap { select_all: c, ..km },
        ShortcutId::Copy => Keymap { copy: c, ..km },
        ShortcutId::Cut => Keymap { cut: c, ..km },
        ShortcutId::Paste => Keymap { paste: c, ..km },
        ShortcutId::CopyPaths => Keymap { copy_paths: c, ..km },
        ShortcutId::CopyToOther => Keymap { copy_to_other: c, ..km },
        ShortcutId::MoveToOther => Keymap { move_to_other: c, ..km },
        ShortcutId::Undo => Keymap { undo: c, ..km },
        ShortcutId::Redo => Keymap { redo: c, ..km },
        ShortcutId::CompareFolders => Keymap { compare_folders: c, ..km },
        ShortcutId::ToggleHidden => Keymap { toggle_hidden: c, ..km },
        ShortcutId::TogglePreview => Keymap { toggle_preview: c, ..km },
        ShortcutId::GoUp => Keymap { go_up: c, ..km },
        ShortcutId::HistoryBack => Keymap { history_back: c, ..km },
        ShortcutId::HistoryForward => Keymap { history_forward: c, ..km },
        ShortcutId::Delete => Keymap { delete: c, ..km },
        ShortcutId::DeletePermanent => Keymap { delete_permanent: c, ..km },
        ShortcutId::EnterFolder => Keymap { enter_folder: c, ..km },
        ShortcutId::ParentFolder => Keymap { parent_folder: c, ..km },
    }
}

/// The chord each shortcut has out of the box.
pub open spec fn default_chord(id: ShortcutId) -> ChordV {
    match id {
        ShortcutId::OpenTerminal => ChordV { ctrl: false, alt: false, shift: false, key: "F1"@ },
        ShortcutId::Rename => ChordV { ctrl: false, alt: false, shift: false, key: "F2"@ },
        ShortcutId::Refresh => ChordV { ctrl: false, alt: false, shift: false, key: "F5"@ },
        ShortcutId::SwitchPane => ChordV { ctrl: false, alt: false, shift: false, key: "F6"@ },
        ShortcutId::NewFolder => ChordV { ctrl: false, alt: false, shift: false, key: "F7"@ },
        ShortcutId::Filter => ChordV { ctrl: true, alt: false, shift: false, key: "F"@ },
        ShortcutId::Search => ChordV { ctrl: true, alt: false, shift: true, key: "F"@ },
        ShortcutId::Palette => ChordV { ctrl: true, alt: false, shift: false, key: "P"@ },
        ShortcutId::Settings => ChordV { ctrl: true, alt: false, shift: false, key: "Comma"@ },
        ShortcutId::NewTab => ChordV { ctrl: true, alt: false, shift: false, key: "T"@ },
        ShortcutId::CloseTab => ChordV { ctrl: true, alt: false, shift: false, key: "W"@ },
        ShortcutId::EditAddress => ChordV { ctrl: true, alt: false, shift: false, key: "L"@ },
        ShortcutId::SelectAll => ChordV { ctrl: true, alt: false, shift: false, key: "A"@ },
        ShortcutId::Copy => ChordV { ctrl: true, alt: false, shift: false, key: "C"@ },
        ShortcutId::Cut => ChordV { ctrl: true, alt: false, shift: false, key: "X"@ },
        ShortcutId::Paste => ChordV { ctrl: true, alt: false, shift: false, key: "V"@ },
        ShortcutId::CopyPaths => ChordV { ctrl: true, alt: false, shift: true, key: "C"@ },
        ShortcutId::CopyToOther => ChordV { ctrl: true, alt: true, shift: false, key: "C"@ },
        ShortcutId::MoveToOther => ChordV { ctrl: true, alt: false, shift: true, key: "M"@ },
        ShortcutId::Undo => ChordV { ctrl: true, alt: false, shift: false, key: "Z"@ },
        ShortcutId::Redo => ChordV { ctrl: true, alt: false, shift: false, key: "Y"@ },
        ShortcutId::CompareFolders => ChordV { ctrl: true, alt: false, shift: false, key: "D"@ },
        ShortcutId::ToggleHidden => ChordV { ctrl: true, alt: false, shift: false, key: "H"@ },
        ShortcutId::TogglePreview => ChordV { ctrl: false, alt: false, shift: false, key: "Space"@ },
        ShortcutId::GoUp => ChordV { ctrl: false, alt: false, shift: false, key: "Backspace"@ },
        ShortcutId::HistoryBack => ChordV { ctrl: false, alt: true, shift: false, key: "ArrowLeft"@ },
        ShortcutId::HistoryForward => ChordV { ctrl: false, alt: true, shift: false, key: "ArrowRight"@ },
        ShortcutId::Delete => ChordV { ctrl: false, alt: false, shift: false, key: "Delete"@ },
        ShortcutId::DeletePermanent => ChordV { ctrl: false, alt: false, shift: true, key: "Delete"@ },
        ShortcutId::EnterFolder => ChordV { ctrl: false, alt: false, shift: false, key: Seq::empty() },
        ShortcutId::ParentFolder => ChordV { ctrl: false, alt: false, shift: false, key: Seq::empty() },
    }
}

impl Default for Keymap {
    fn default() -> (r: Keymap)
        ensures
            forall|id: ShortcutId| (#[trigger] chord_for(r, id))@ == default_chord(id),
    {
        Keymap {
            open_terminal: Chord::new(false, false, false, "F1"),
            rename: Chord::new(false, false, false, "F2"),
            refresh: Chord::new(false, false, false, "F5"),
            switch_pane: Chord::new(false, false, false, "F6"),
            new_folder: Chord::new(false, false, false, "F7"),
            filter: Chord::new(true, false, false, "F"),
            search: Chord::new(true, false, true, "F"),
            palette: Chord::new(true, false, false, "P"),
            settings: Chord::new(true, false, false, "Comma"),
            new_tab: Chord::new(true, false, false, "T"),
            close_tab: Chord::new(true, false, false, "W"),
            edit_address: Chord::new(true, false, false, "L"),
            select_all: Chord::new(true, false, false, "A"),
            copy: Chord::new(true, false, false, "C"),
            cut: Chord::new(true, false, false, "X"),
            paste: Chord::new(true, false, false, "V"),
            copy_paths: Chord::new(true, false, true, "C"),
            copy_to_other: Chord::new(true, true, false, "C"),
            move_to_other: Chord::new(true, false, true, "M"),
            undo: Chord::new(true, false, false, "Z"),
            redo: Chord::new(true, false, false, "Y"),
            compare_folders: Chord::new(true, false, false, "D"),
            toggle_hidden: Chord::new(true, false, false, "H"),
            toggle_preview: Chord::new(false, false, false, "Space"),
            go_up: Chord::new(false, false, false, "Backspace"),
            history_back: Chord::new(false, true, false, "ArrowLeft"),
            history_forward: Chord::new(false, true, false, "ArrowRight"),
            delete: Chord::new(false, false, false, "Delete"),
            delete_permanent: Chord::new(false, false, true, "Delete"),
            enter_folder: Chord::unbound(),
            parent_folder: Chord::unbound(),
        }
    }
}

/// What listening for a new shortcut came to.
#[derive(Clone, Debug)]
pub enum Capture {
    Wait,
    Cancel,
    Bound(Chord),
}

/// One key event as egui reports it: the key as its index in `Key::ALL`,
/// whether it went down, the modifiers held, and whether it is a repeat.
#[derive(Clone, Copy, Debug)]
pub struct KeyPress {
    pub key: usize,
    pub pressed: bool,
    pub modifiers: ModifierState,
    pub repeat: bool,
}

/// A press that can become a shortcut: a first press of a key egui knows,
/// other than Escape and Tab.
pub open spec fn bindable(p: KeyPress) -> bool {
    &&& p.pressed
    &&& !p.repeat
    &&& egui_key_debug(p.key as nat) is Some
    &&& egui_key_debug(p.key as nat) != Some("Escape"@)
    &&& egui_key_debug(p.key as nat) != Some("Tab"@)
}

/// The first bindable press at or after `i`.
pub open spec fn first_bindable(ps: Seq<KeyPress>, i: int) -> Option<int>
    decreases ps.len() - i,
{
    if i < 0 || i >= ps.len() {
        None
    } else if bindable(ps[i]) {
        Some(i)
    } else {
        first_bindable(ps, i + 1)
    }
}

/// What listening for a new shortcut comes to this frame: a lone Escape
/// cancels; else the first bindable press is the new chord; else it waits.
pub fn capture_binding(escape: bool, presses: &Vec<KeyPress>) -> (r: Capture)
    ensures
        escape ==> r is Cancel,
        !escape ==> match first_bindable(presses@, 0) {
            Some(j) => r matches Capture::Bound(c) && c@ == (ChordV {
                ctrl: presses@[j].modifiers.ctrl || presses@[j].modifiers.command,
                alt: presses@[j].modifiers.alt,
                shift: presses@[j].modifiers.shift,
                key: egui_key_debug(presses@[j].key as nat).unwrap(),
            }),
            None => r is Wait,
        },
{
    if escape {
        return Capture::Cancel;
    }
    proof {
        reveal_strlit("Escape");
        reveal_strlit("Tab");
    }
    let esc = chars_of("Escape");
    let tab = chars_of("Tab");
    let mut i: usize = 0;
    while i < presses.len()
        invariant
            i <= presses.len(),
            !escape,
            esc@ == "Escape"@,
            tab@ == "Tab"@,
            first_bindable(presses@, 0) == first_bindable(presses@, i as int),
        decreases presses.len() - i,
    {
        let p = presses[i];
        if p.pressed && !p.repeat {
            match key_debug_at(p.key) {
                Some(name) => {
                    let nv = chars_of(name.as_str());
                    if !crate::paths::chars_eq(&nv, &esc) && !crate::paths::chars_eq(&nv, &tab) {
                        let c = Chord {
                            ctrl: p.modifiers.ctrl || p.modifiers.command,
                            alt: p.modifiers.alt,
                            shift: p.modifiers.shift,
                            key: name,
                        };
                        return Capture::Bound(c);
                    }
                },
                None => {},
            }
        }
        i += 1;
    }
    Capture::Wait
}

/// The first row, other than `id`'s own, whose shortcut has the same chord
/// as `id`.
pub open spec fn conflict_row(km: Keymap, id: ShortcutId) -> Option<int> {
    if exists|i: int| is_first_conflict(km, id, i) {
        Some(choose|i: int| is_first_conflict(km, id, i))
    } else {
        None
    }
}

pub open spec fn clashes(km: Keymap, id: ShortcutId, i: int) -> bool {
    row_id(i) != id && chord_for(km, row_id(i))@ == chord_for(km, id)@
}

pub open spec fn is_first_conflict(km: Keymap, id: ShortcutId, i: int) -> bool {
    0 <= i < SHORTCUT_COUNT && clashes(km, id, i) && forall|j: int| 0 <= j < i ==> !clashes(km, id, j)
}

impl Keymap {
    /// The chord bound to `id`.
    pub fn get(&self, id: ShortcutId) -> (r: &Chord)
        ensures
            *r == chord_for(*self, id),
    {
        match id {
            ShortcutId::OpenTerminal => &self.open_terminal,
            ShortcutId::Rename => &self.rename,
            ShortcutId::Refresh => &self.refresh,
            ShortcutId::SwitchPane => &self.switch_pane,
            ShortcutId::NewFolder => &self.new_folder,
            ShortcutId::Filter => &self.filter,
            ShortcutId::Search => &self.search,
            ShortcutId::Palette => &self.palette,
            ShortcutId::Settings => &self.settings,
            ShortcutId::NewTab => &self.new_tab,
            ShortcutId::CloseTab => &self.close_tab,
            ShortcutId::EditAddress => &self.edit_address,
            ShortcutId::SelectAll => &self.select_all,
            ShortcutId::Copy => &self.copy,
            ShortcutId::Cut => &self.cut,
            ShortcutId::Paste => &self.paste,
            ShortcutId::CopyPaths => &self.copy_paths,
            ShortcutId::CopyToOther => &self.copy_to_other,
            ShortcutId::MoveToOther => &self.move_to_other,
            ShortcutId::Undo => &self.undo,
            ShortcutId::Redo => &self.redo,
            ShortcutId::CompareFolders => &self.compare_folders,
            ShortcutId::ToggleHidden => &self.toggle_hidden,
            ShortcutId::TogglePreview => &self.toggle_preview,
            ShortcutId::GoUp => &self.go_up,
            ShortcutId::HistoryBack => &self.history_back,
            ShortcutId::HistoryForward => &self.history_forward,
            ShortcutId::Delete => &self.delete,
            ShortcutId::DeletePermanent => &self.delete_permanent,
            ShortcutId::EnterFolder => &self.enter_folder,
            ShortcutId::ParentFolder => &self.parent_folder,
        }
    }

    /// The chord bound to `id`, to change it.
    pub fn get_mut(&mut self, id: ShortcutId) -> (r: &mut Chord)
        ensures
            *r == chord_for(*old(self), id),
            *final(self) == rebind(*old(self), id, *final(r)),
    {
        match id {
            ShortcutId::OpenTerminal => &mut self.open_terminal,
            ShortcutId::Rename => &mut self.rename,
            ShortcutId::Refresh => &mut self.refresh,
            ShortcutId::SwitchPane => &mut self.switch_pane,
            ShortcutId::NewFolder => &mut self.new_folder,
            ShortcutId::Filter => &mut self.filter,
            ShortcutId::Search => &mut self.search,
            ShortcutId::Palette => &mut self.palette,
            ShortcutId::Settings => &mut self.settings,
            ShortcutId::NewTab => &mut self.new_tab,
            ShortcutId::CloseTab => &mut self.close_tab,
            ShortcutId::EditAddress => &mut self.edit_address,
            ShortcutId::SelectAll => &mut self.select_all,
            ShortcutId::Copy => &mut self.copy,
            ShortcutId::Cut => &mut self.cut,
            ShortcutId::Paste => &mut self.paste,
            ShortcutId::CopyPaths => &mut self.copy_paths,
            ShortcutId::CopyToOther => &mut self.copy_to_other,
            ShortcutId::MoveToOther => &mut self.move_to_other,
            ShortcutId::Undo => &mut self.undo,
            ShortcutId::Redo => &mut self.redo,
            ShortcutId::CompareFolders => &mut self.compare_folders,
            ShortcutId::ToggleHidden => &mut self.toggle_hidden,
            ShortcutId::TogglePreview => &mut self.toggle_preview,
            ShortcutId::GoUp => &mut self.go_up,
            ShortcutId::HistoryBack => &mut self.history_back,
            ShortcutId::HistoryForward => &mut self.history_forward,
            ShortcutId::Delete => &mut self.delete,
            ShortcutId::DeletePermanent => &mut self.delete_permanent,
            ShortcutId::EnterFolder => &mut self.enter_folder,
            ShortcutId::ParentFolder => &mut self.parent_folder,
        }
    }

    /// The label of the first other shortcut bound to the same chord as `id`.
    pub fn conflicts_with(&self, id: ShortcutId) -> (r: Option<&'static str>)
        ensures
            r matches Some(l) ==> conflict_row(*self, id) matches Some(i) && l@ == shortcut_label(row_id(i)),
            r is None ==> conflict_row(*self, id) is None,
    {
        let chord = self.get(id);
        let rows = shortcut_rows();
        let mut i: usize = 0;
        while i < rows.len()
            invariant
                i <= rows.len(),
                rows@.len() == SHORTCUT_COUNT,
                forall|k: int| 0 <= k < SHORTCUT_COUNT ==> (#[trigger] rows@[k]).0 == row_id(k) && rows@[k].1@ == shortcut_label(row_id(k)),
                *chord == chord_for(*self, id),
                forall|j: int| 0 <= j < i ==> !clashes(*self, id, j),
            decreases rows.len() - i,
        {
            let (other, label) = rows[i];
            if other != id && self.get(other).same_as(chord) {
                proof {
                    assert(rows@[i as int].0 == row_id(i as int));
                    assert(is_first_conflict(*self, id, i as int));
                    let k = choose|k: int| is_first_conflict(*self, id, k);
                    assert(is_first_conflict(*self, id, k));
                    if k < i {
                        assert(!clashes(*self, id, k));
                    }
                    if k > i {
                        assert(!clashes(*self, id, i as int));
                    }
                }
                return Some(label);
            }
            proof {
                assert(rows@[i as int].0 == row_id(i as int));
            }
            i += 1;
        }
        proof {
            assert forall|k: int| !is_first_conflict(*self, id, k) by {
                if 0 <= k < SHORTCUT_COUNT {
                    assert(!clashes(*self, id, k));
                }
            }
        }
        None
    }

    /// Older builds bound Search to Ctrl+F. If a saved keymap still has that
    /// and Filter is the new Ctrl+F default, Search moves to Ctrl+Shift+F.
    pub fn migrate_filter_shortcut(&mut self)
        ensures
            ({
                let ctrl_f = ChordV { ctrl: true, alt: false, shift: false, key: "F"@ };
                if old(self).search@ == ctrl_f && old(self).filter@ == ctrl_f {
                    final(self).search@ == (ChordV { ctrl: true, alt: false, shift: true, key: "F"@ })
                        && *final(self) == (Keymap { search: final(self).search, ..*old(self) })
                } else {
                    *final(self) == *old(self)
                }
            }),
    {
        let ctrl_f = Chord::new(true, false, false, "F");
        if self.search.same_as(&ctrl_f) && self.filter.same_as(&ctrl_f) {
            self.search = Chord::new(true, false, true, "F");
        }
    }

    /// Older builds used ArrowLeft/ArrowRight alone to leave/enter folders.
    /// Such bindings become unbound (history stays on Alt+arrows).
    pub fn migrate_bare_arrow_nav(&mut self)
        ensures
            final(self).parent_folder@ == (if old(self).parent_folder@ == (ChordV { ctrl: false, alt: false, shift: false, key: "ArrowLeft"@ }) {
                ChordV { ctrl: false, alt: false, shift: false, key: Seq::empty() }
            } else {
                old(self).parent_folder@
            }),
            final(self).enter_folder@ == (if old(self).enter_folder@ == (ChordV { ctrl: false, alt: false, shift: false, key: "ArrowRight"@ }) {
                ChordV { ctrl: false, alt: false, shift: false, key: Seq::empty() }
            } else {
                old(self).enter_folder@
            }),
            *final(self) == (Keymap { parent_folder: final(self).parent_folder, enter_folder: final(self).enter_folder, ..*old(self) }),
            old(self).parent_folder@ != (ChordV { ctrl: false, alt: false, shift: false, key: "ArrowLeft"@ }) ==> final(self).parent_folder == old(self).parent_folder,
            old(self).enter_folder@ != (ChordV { ctrl: false, alt: false, shift: false, key: "ArrowRight"@ }) ==> final(self).enter_folder == old(self).enter_folder,
    {
        let left = Chord::new(false, false, false, "ArrowLeft");
        let right = Chord::new(false, false, false, "ArrowRight");
        if self.parent_folder.same_as(&left) {
            self.parent_folder = Chord::unbound();
        }
        if self.enter_folder.same_as(&right) {
            self.enter_folder = Chord::unbound();
        }
    }
}

} // verus!
