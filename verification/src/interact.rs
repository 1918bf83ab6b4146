//! Drag-and-drop decisions for the file panes and the tab strip: what a drop
//! does, where it may land, and what the drag badge says.
use vstd::prelude::*;
use crate::icons::Glyph;
use crate::paths::{parent, parent_spec, components, same_path, starts_with, starts_with_spec, name_or_whole, name_or_whole_path};
use crate::text::{decimal, decimal_spec, owned};

verus! {

/// Tab-strip reorder drag.
#[derive(Clone, Debug)]
pub struct TabDrag {
    pub uid: u64,
}

/// In-app file drag: file rows onto a folder row, a tab header, or a pane body.
#[derive(Clone, Debug)]
pub struct FileDrag {
    pub paths: Vec<String>,
    /// Pane the drag started in, so a move can refresh the source listing.
    pub from_pane: usize,
}

/// What a drop will do. A plain drag copies; Ctrl or Shift at drop time moves.
#[derive(Clone, Copy, Debug, PartialEq, Eq, Structural)]
pub enum DropEffect {
    Copy,
    Move,
}

impl DropEffect {
    /// The effect for the modifiers held at drop time: Ctrl, Command or
    /// Shift move, nothing copies.
    pub fn from_modifiers(ctrl: bool, command: bool, shift: bool) -> (r: DropEffect)
        ensures
            r == (if ctrl || command || shift { DropEffect::Move } else { DropEffect::Copy }),
    {
        if ctrl || command || shift {
            DropEffect::Move
        } else {
            DropEffect::Copy
        }
    }

    pub fn is_move(self) -> (r: bool)
        ensures
            r == (self == DropEffect::Move),
    {
        match self {
            DropEffect::Move => true,
            DropEffect::Copy => false,
        }
    }

    pub fn verb(self) -> (r: &'static str)
        ensures
            r@ == verb_spec(self),
    {
        match self {
            DropEffect::Copy => "Copy",
            DropEffect::Move => "Move",
        }
    }

    pub fn glyph(self) -> (r: Glyph)
        ensures
            r == (if self == DropEffect::Copy { Glyph::Copy } else { Glyph::Move }),
    {
        match self {
            DropEffect::Copy => Glyph::Copy,
            DropEffect::Move => Glyph::Move,
        }
    }
}

pub open spec fn verb_spec(e: DropEffect) -> Seq<char> {
    match e {
        DropEffect::Copy => "Copy"@,
        DropEffect::Move => "Move"@,
    }
}

/// What the pointer is over during a file drag, for the badge.
#[derive(Clone, Debug)]
pub struct DropHint {
    /// Folder name to show ("Documents"), not the full path.
    pub dest: String,
    pub allowed: bool,
}

/// The modifiers held when a file list was pressed, remembered until release.
#[derive(Clone, Debug)]
pub struct ListPress {
    pub pane: usize,
    pub tab_uid: u64,
    pub ctrl: bool,
    pub shift: bool,
}

/// A source can land in `dest` unless it already sits there, is `dest`
/// itself, or contains `dest`.
pub open spec fn can_land(src: Seq<char>, dest: Seq<char>) -> bool {
    let in_dest = match parent_spec(src) {
        Some(p) => components(p) == components(dest),
        None => false,
    };
    !in_dest && components(src) != components(dest) && !starts_with_spec(dest, src)
}

/// True when at least one source could actually land in `dest`.
pub fn drop_allowed(sources: &[String], dest: &str) -> (r: bool)
    ensures
        r == exists|i: int| 0 <= i < sources@.len() && can_land(#[trigger] sources@[i]@, dest@),
{
    let mut i: usize = 0;
    while i < sources.len()
        invariant
            i <= sources.len(),
            forall|k: int| 0 <= k < i ==> !can_land(#[trigger] sources@[k]@, dest@),
        decreases sources.len() - i,
    {
        let p = sources[i].as_str();
        let in_dest = match parent(p) {
            Some(par) => same_path(par.as_str(), dest),
            None => false,
        };
        if !in_dest && !same_path(p, dest) && !starts_with(dest, p) {
            assert(can_land(sources@[i as int]@, dest@));
            return true;
        }
        i += 1;
    }
    false
}

/// Short display name for a destination folder: its name, or the whole
/// path for a drive root.
pub fn dest_label(dest: &str) -> (r: String)
    ensures
        r@ == name_or_whole(dest@),
{
    name_or_whole_path(dest)
}

/// "1 item" or "n items".
pub open spec fn noun_spec(count: nat) -> Seq<char> {
    if count == 1 { "1 item"@ } else { decimal_spec(count) + " items"@ }
}

/// The title of the drag badge: refused drops say so; otherwise the verb,
/// the count and, over a target, its name.
pub open spec fn badge_title_spec(effect: DropEffect, count: nat, hint: Option<(Seq<char>, bool)>) -> Seq<char> {
    match hint {
        Some((dest, allowed)) => if !allowed {
            "Can't drop "@ + noun_spec(count) + " here"@
        } else {
            verb_spec(effect) + " "@ + noun_spec(count) + " to "@ + dest
        },
        None => verb_spec(effect) + " "@ + noun_spec(count),
    }
}

fn noun(count: usize) -> (r: String)
    ensures
        r@ == noun_spec(count as nat),
{
    if count == 1 {
        owned("1 item")
    } else {
        let mut s = decimal(count as u64);
        s.append(" items");
        s
    }
}

/// The badge text for a file drag of `count` items.
pub fn drag_badge_title(effect: DropEffect, count: usize, hint: Option<&DropHint>) -> (r: String)
    ensures
        r@ == badge_title_spec(
            effect,
            count as nat,
            match hint {
                Some(h) => Some((h.dest@, h.allowed)),
                None => None,
            },
        ),
{
    let n = noun(count);
    match hint {
        Some(h) => {
            if !h.allowed {
                let mut s = owned("Can't drop ");
                s.append(n.as_str());
                s.append(" here");
                s
            } else {
                let mut s = owned(effect.verb());
                s.append(" ");
                s.append(n.as_str());
                s.append(" to ");
                s.append(h.dest.as_str());
                s
            }
        },
        None => {
            let mut s = owned(effect.verb());
            s.append(" ");
            s.append(n.as_str());
            s
        },
    }
}

} // verus!
