//! What the keyboard shortcuts do in a frame: which command each fired
//! shortcut runs, in which order, and when typing or an open overlay holds
//! the pane shortcuts back. Reading the key presses stays with the window.
use vstd::prelude::*;
use crate::keymap::{Chord, Keymap, ModifierState, ShortcutId, chord_for};

verus! {

/// A command the keyboard can run.
#[derive(Clone, Copy, Debug, PartialEq, Eq, Structural)]
pub enum KeyCommand {
    TogglePalette,
    ToggleSettings,
    OpenSearch,
    FocusFilter,
    EditAddress,
    NewTab,
    CloseTab,
    Refresh,
    SwitchPane,
    NewFolder,
    OpenTerminal,
    GoUp,
    HistoryBack,
    HistoryForward,
    SelectAll,
    CopyPaths,
    CopyToOther,
    Copy,
    Cut,
    Paste,
    MoveToOther,
    Undo,
    Redo,
    CompareFolders,
    Rename,
    DeletePermanent,
    Delete,
    ToggleHidden,
    TogglePreview,
    EnterFolder,
}

/// The state the shortcuts are read in.
#[derive(Clone, Copy, Debug)]
pub struct KeyContext {
    /// A new shortcut is being recorded (keys go to the recorder).
    pub capturing: bool,
    /// A text field has the keyboard.
    pub typing: bool,
    pub new_item_open: bool,
    pub palette_open: bool,
    pub search_open: bool,
    /// The active tab shows the Recycle Bin.
    pub in_recycle: bool,
}

/// What the window saw of the keyboard this frame.
#[derive(Clone, Debug)]
pub struct KeyInput {
    /// The shortcuts whose chord was pressed.
    pub fired: Vec<ShortcutId>,
    /// Ctrl+R, the second refresh key.
    pub ctrl_r: bool,
    /// Alt+Up, the second parent-folder key.
    pub alt_up: bool,
    /// Ctrl+Shift+Z, the second redo key.
    pub redo_alias: bool,
    /// The system's copy, cut and paste signals (Ctrl+C/X/V).
    pub copy_signal: bool,
    pub cut_signal: bool,
    pub paste_signal: bool,
    /// The modifiers held.
    pub mods: ModifierState,
}

pub open spec fn when(c: bool, k: KeyCommand) -> Seq<KeyCommand> {
    if c { seq![k] } else { Seq::empty() }
}

pub open spec fn fired_spec(fired: Seq<ShortcutId>, id: ShortcutId) -> bool {
    fired.contains(id)
}

/// Whether `c` (Command counting as Ctrl) holds exactly the modifiers `m`.
pub open spec fn mods_match(c: Chord, m: ModifierState) -> bool {
    (m.command || m.ctrl) == c.ctrl && m.alt == c.alt && m.shift == c.shift
}

/// Whether the pane shortcuts are held back once the window-level ones
/// have run: while typing, while a new item is being named, or while the
/// palette or the search overlay is open after them.
pub open spec fn held_back(f: Seq<ShortcutId>, c: KeyContext) -> bool {
    let palette_after = c.palette_open != fired_spec(f, ShortcutId::Palette);
    let search_after = if fired_spec(f, ShortcutId::Filter) {
        false
    } else if fired_spec(f, ShortcutId::Search) {
        true
    } else {
        c.search_open
    };
    c.typing || c.new_item_open || palette_after || search_after
}

/// The three copy commands share Ctrl+C: the one whose chord has the held
/// modifiers wins, the paths first, then the copy to the other pane.
pub open spec fn copy_cmds(km: Keymap, f: Seq<ShortcutId>, i: (bool, ModifierState)) -> Seq<KeyCommand> {
    let (signal, m) = i;
    if (signal && mods_match(chord_for(km, ShortcutId::CopyPaths), m)) || fired_spec(f, ShortcutId::CopyPaths) {
        seq![KeyCommand::CopyPaths]
    } else if (signal && mods_match(chord_for(km, ShortcutId::CopyToOther), m)) || fired_spec(f, ShortcutId::CopyToOther) {
        seq![KeyCommand::CopyToOther]
    } else if signal || fired_spec(f, ShortcutId::Copy) {
        seq![KeyCommand::Copy]
    } else {
        Seq::empty()
    }
}

/// The pane commands, in the order they run.
pub open spec fn pane_cmds(km: Keymap, f: Seq<ShortcutId>, i: KeyInputV, c: KeyContext) -> Seq<KeyCommand> {
    nav_cmds(f, i, c) + copy_cmds(km, f, (i.copy_signal, i.mods)) + edit_cmds(f, i)
}

/// Commands that move around or change the tabs.
pub open spec fn nav_cmds(f: Seq<ShortcutId>, i: KeyInputV, c: KeyContext) -> Seq<KeyCommand> {
    Seq::<KeyCommand>::empty() + when(fired_spec(f, ShortcutId::EditAddress), KeyCommand::EditAddress)
        + when(fired_spec(f, ShortcutId::NewTab), KeyCommand::NewTab)
        + when(fired_spec(f, ShortcutId::CloseTab), KeyCommand::CloseTab)
        + when(fired_spec(f, ShortcutId::Refresh) || i.ctrl_r, KeyCommand::Refresh)
        + when(fired_spec(f, ShortcutId::SwitchPane), KeyCommand::SwitchPane)
        + when(fired_spec(f, ShortcutId::NewFolder), KeyCommand::NewFolder)
        + when(fired_spec(f, ShortcutId::OpenTerminal), KeyCommand::OpenTerminal)
        + when((fired_spec(f, ShortcutId::GoUp) || fired_spec(f, ShortcutId::ParentFolder) || i.alt_up) && !c.in_recycle, KeyCommand::GoUp)
        + when(fired_spec(f, ShortcutId::HistoryBack), KeyCommand::HistoryBack)
        + when(fired_spec(f, ShortcutId::HistoryForward), KeyCommand::HistoryForward)
        + when(fired_spec(f, ShortcutId::SelectAll), KeyCommand::SelectAll)
}

/// Commands that act on the files, after the copy commands.
pub open spec fn edit_cmds(f: Seq<ShortcutId>, i: KeyInputV) -> Seq<KeyCommand> {
    Seq::<KeyCommand>::empty() + when(i.cut_signal || fired_spec(f, ShortcutId::Cut), KeyCommand::Cut)
        + when(i.paste_signal || fired_spec(f, ShortcutId::Paste), KeyCommand::Paste)
        + when(fired_spec(f, ShortcutId::MoveToOther), KeyCommand::MoveToOther)
        + when(fired_spec(f, ShortcutId::Undo), KeyCommand::Undo)
        + when(fired_spec(f, ShortcutId::Redo) || i.redo_alias, KeyCommand::Redo)
        + when(fired_spec(f, ShortcutId::CompareFolders), KeyCommand::CompareFolders)
        + when(fired_spec(f, ShortcutId::Rename), KeyCommand::Rename)
        + when(fired_spec(f, ShortcutId::DeletePermanent), KeyCommand::DeletePermanent)
        + when(!fired_spec(f, ShortcutId::DeletePermanent) && fired_spec(f, ShortcutId::Delete), KeyCommand::Delete)
        + when(fired_spec(f, ShortcutId::ToggleHidden), KeyCommand::ToggleHidden)
        + when(fired_spec(f, ShortcutId::TogglePreview), KeyCommand::TogglePreview)
        + when(fired_spec(f, ShortcutId::EnterFolder), KeyCommand::EnterFolder)
}

/// The plain values of a `KeyInput`.
pub struct KeyInputV {
    pub ctrl_r: bool,
    pub alt_up: bool,
    pub redo_alias: bool,
    pub copy_signal: bool,
    pub cut_signal: bool,
    pub paste_signal: bool,
    pub mods: ModifierState,
}

pub open spec fn input_view(i: KeyInput) -> KeyInputV {
    KeyInputV {
        ctrl_r: i.ctrl_r,
        alt_up: i.alt_up,
        redo_alias: i.redo_alias,
        copy_signal: i.copy_signal,
        cut_signal: i.cut_signal,
        paste_signal: i.paste_signal,
        mods: i.mods,
    }
}

/// The window-level commands, which run even while typing.
pub open spec fn window_cmds(f: Seq<ShortcutId>) -> Seq<KeyCommand> {
    Seq::<KeyCommand>::empty() + when(fired_spec(f, ShortcutId::Palette), KeyCommand::TogglePalette)
        + when(fired_spec(f, ShortcutId::Settings), KeyCommand::ToggleSettings)
        + when(fired_spec(f, ShortcutId::Search), KeyCommand::OpenSearch)
        + when(fired_spec(f, ShortcutId::Filter), KeyCommand::FocusFilter)
}

/// The commands a frame's keys run: none while a shortcut is being
/// recorded; the window-level ones (palette, settings, search, filter)
/// always; then the pane ones unless `held_back` says so.
pub open spec fn key_commands_spec(km: Keymap, i: KeyInput, c: KeyContext) -> Seq<KeyCommand> {
    let f = i.fired@;
    if c.capturing {
        Seq::empty()
    } else {
        let window = window_cmds(f);
        if held_back(f, c) { window } else { window + pane_cmds(km, f, input_view(i), c) }
    }
}

fn has(f: &Vec<ShortcutId>, id: ShortcutId) -> (r: bool)
    ensures
        r == fired_spec(f@, id),
{
    let mut i: usize = 0;
    while i < f.len()
        invariant
            i <= f.len(),
            forall|k: int| 0 <= k < i ==> f@[k] != id,
        decreases f.len() - i,
    {
        if f[i] == id {
            assert(f@[i as int] == id);
            return true;
        }
        i += 1;
    }
    false
}

fn push_when(v: &mut Vec<KeyCommand>, c: bool, k: KeyCommand)
    ensures
        final(v)@ == old(v)@ + when(c, k),
{
    if c {
        v.push(k);
    }
    assert(v@ =~= old(v)@ + when(c, k));
}

fn push_nav(input: &KeyInput, ctx: KeyContext) -> (r: Vec<KeyCommand>)
    ensures
        r@ == nav_cmds(input.fired@, input_view(*input), ctx),
{
    let f = &input.fired;
    let mut v: Vec<KeyCommand> = Vec::new();
    push_when(&mut v, has(f, ShortcutId::EditAddress), KeyCommand::EditAddress);
    push_when(&mut v, has(f, ShortcutId::NewTab), KeyCommand::NewTab);
    push_when(&mut v, has(f, ShortcutId::CloseTab), KeyCommand::CloseTab);
    push_when(&mut v, has(f, ShortcutId::Refresh) || input.ctrl_r, KeyCommand::Refresh);
    push_when(&mut v, has(f, ShortcutId::SwitchPane), KeyCommand::SwitchPane);
    push_when(&mut v, has(f, ShortcutId::NewFolder), KeyCommand::NewFolder);
    push_when(&mut v, has(f, ShortcutId::OpenTerminal), KeyCommand::OpenTerminal);
    let up = (has(f, ShortcutId::GoUp) || has(f, ShortcutId::ParentFolder) || input.alt_up) && !ctx.in_recycle;
    push_when(&mut v, up, KeyCommand::GoUp);
    push_when(&mut v, has(f, ShortcutId::HistoryBack), KeyCommand::HistoryBack);
    push_when(&mut v, has(f, ShortcutId::HistoryForward), KeyCommand::HistoryForward);
    push_when(&mut v, has(f, ShortcutId::SelectAll), KeyCommand::SelectAll);
    v
}

fn push_edit(input: &KeyInput) -> (r: Vec<KeyCommand>)
    ensures
        r@ == edit_cmds(input.fired@, input_view(*input)),
{
    let f = &input.fired;
    let mut v: Vec<KeyCommand> = Vec::new();
    push_when(&mut v, input.cut_signal || has(f, ShortcutId::Cut), KeyCommand::Cut);
    push_when(&mut v, input.paste_signal || has(f, ShortcutId::Paste), KeyCommand::Paste);
    push_when(&mut v, has(f, ShortcutId::MoveToOther), KeyCommand::MoveToOther);
    push_when(&mut v, has(f, ShortcutId::Undo), KeyCommand::Undo);
    push_when(&mut v, has(f, ShortcutId::Redo) || input.redo_alias, KeyCommand::Redo);
    push_when(&mut v, has(f, ShortcutId::CompareFolders), KeyCommand::CompareFolders);
    push_when(&mut v, has(f, ShortcutId::Rename), KeyCommand::Rename);
    let perm = has(f, ShortcutId::DeletePermanent);
    push_when(&mut v, perm, KeyCommand::DeletePermanent);
    push_when(&mut v, !perm && has(f, ShortcutId::Delete), KeyCommand::Delete);
    push_when(&mut v, has(f, ShortcutId::ToggleHidden), KeyCommand::ToggleHidden);
    push_when(&mut v, has(f, ShortcutId::TogglePreview), KeyCommand::TogglePreview);
    push_when(&mut v, has(f, ShortcutId::EnterFolder), KeyCommand::EnterFolder);
    v
}

fn copy_part(km: &Keymap, input: &KeyInput) -> (r: Vec<KeyCommand>)
    ensures
        r@ == copy_cmds(*km, input.fired@, (input.copy_signal, input.mods)),
{
    let f = &input.fired;
    let sig = input.copy_signal;
    let mut v: Vec<KeyCommand> = Vec::new();
    if (sig && km.copy_paths.matches_modifiers(input.mods)) || has(f, ShortcutId::CopyPaths) {
        v.push(KeyCommand::CopyPaths);
    } else if (sig && km.copy_to_other.matches_modifiers(input.mods)) || has(f, ShortcutId::CopyToOther) {
        v.push(KeyCommand::CopyToOther);
    } else if sig || has(f, ShortcutId::Copy) {
        v.push(KeyCommand::Copy);
    }
    assert(v@ =~= copy_cmds(*km, input.fired@, (input.copy_signal, input.mods)));
    v
}

fn window_part(f: &Vec<ShortcutId>) -> (r: Vec<KeyCommand>)
    ensures
        r@ == window_cmds(f@),
{
    let mut v: Vec<KeyCommand> = Vec::new();
    push_when(&mut v, has(f, ShortcutId::Palette), KeyCommand::TogglePalette);
    push_when(&mut v, has(f, ShortcutId::Settings), KeyCommand::ToggleSettings);
    push_when(&mut v, has(f, ShortcutId::Search), KeyCommand::OpenSearch);
    push_when(&mut v, has(f, ShortcutId::Filter), KeyCommand::FocusFilter);
    v
}

/// Whether the pane shortcuts are held back, given the window-level
/// shortcuts that fired (see `held_back`).
pub fn pane_keys_held_back(f: &Vec<ShortcutId>, ctx: KeyContext) -> (r: bool)
    ensures
        r == held_back(f@, ctx),
{
    let palette_after = ctx.palette_open != has(f, ShortcutId::Palette);
    let search_after = if has(f, ShortcutId::Filter) {
        false
    } else if has(f, ShortcutId::Search) {
        true
    } else {
        ctx.search_open
    };
    ctx.typing || ctx.new_item_open || palette_after || search_after
}

/// Which copy command the system copy signal stands for under the held
/// modifiers: the paths first, then the copy to the other pane, else the
/// plain copy; none without the signal.
pub fn copy_signal_target(km: &Keymap, signal: bool, mods: ModifierState) -> (r: Option<ShortcutId>)
    ensures
        !signal ==> r is None,
        signal && mods_match(km.copy_paths, mods) ==> r == Some(ShortcutId::CopyPaths),
        signal && !mods_match(km.copy_paths, mods) && mods_match(km.copy_to_other, mods) ==> r == Some(ShortcutId::CopyToOther),
        signal && !mods_match(km.copy_paths, mods) && !mods_match(km.copy_to_other, mods) ==> r == Some(ShortcutId::Copy),
{
    if !signal {
        None
    } else if km.copy_paths.matches_modifiers(mods) {
        Some(ShortcutId::CopyPaths)
    } else if km.copy_to_other.matches_modifiers(mods) {
        Some(ShortcutId::CopyToOther)
    } else {
        Some(ShortcutId::Copy)
    }
}

/// The commands this frame's keys run (see `key_commands_spec`).
pub fn key_commands(km: &Keymap, input: &KeyInput, ctx: KeyContext) -> (r: Vec<KeyCommand>)
    ensures
        r@ == key_commands_spec(*km, *input, ctx),
{
    if ctx.capturing {
        let v: Vec<KeyCommand> = Vec::new();
        assert(v@ =~= Seq::<KeyCommand>::empty());
        return v;
    }
    let f = &input.fired;
    let mut v = window_part(f);
    if pane_keys_held_back(f, ctx) {
        return v;
    }
    let ghost w = v@;
    let mut nav = push_nav(input, ctx);
    let mut copy = copy_part(km, input);
    let mut edit = push_edit(input);
    let ghost (a, b, c) = (nav@, copy@, edit@);
    v.append(&mut nav);
    v.append(&mut copy);
    v.append(&mut edit);
    assert(v@ =~= w + (a + b + c));
    v
}

} // verus!
