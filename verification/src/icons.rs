//! The toolbar glyphs the interface draws.
use vstd::prelude::*;

verus! {

/// A toolbar glyph.
#[derive(Clone, Copy, Debug, PartialEq, Eq, Structural)]
pub enum Glyph {
    Back,
    Forward,
    Up,
    Refresh,
    DualVertical,
    DualHorizontal,
    Single,
    Gear,
    Terminal,
    Copy,
    Move,
    Close,
    NewFolder,
    NewFile,
    Star,
    StarFilled,
    Cut,
    Paste,
    Link,
    Rename,
    Trash,
    Eye,
    Search,
    Compare,
}

} // verus!
