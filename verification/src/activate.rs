//! What opening an entry of a listing does: in the Recycle Bin it is
//! restored; a folder or a zip file is browsed into; a file inside a zip is
//! extracted and opened; any other file is opened by the shell.
use vstd::prelude::*;
use crate::entry::FsEntry;
use crate::paths::{join, join_spec};
use crate::shell::is_recycle_path;
use crate::address::is_recycle_spec;
use crate::vfs::{has_zip_ext, split_zip_path, zip_ext_exec, assemble, slash_join};
use crate::paths::components;
use crate::text::{chars_of, push_char};

verus! {

/// The action, with its strings taken as character sequences.
pub enum ActionV {
    Restore(Seq<char>),
    Navigate(Seq<char>),
    FromZip(Seq<char>, Seq<char>),
    Open(Seq<char>),
}

/// What opening an entry asks of the application.
pub enum EntryAction {
    /// Restore the named item from the Recycle Bin.
    Restore(String),
    /// Browse into this folder or zip file.
    Navigate(String),
    /// Extract the item at `inner` of archive `zip` and open it.
    FromZip { zip: String, inner: String },
    /// Open the file with its associated program.
    Open(String),
}

impl EntryAction {
    pub open spec fn view(&self) -> ActionV {
        match self {
            EntryAction::Restore(n) => ActionV::Restore(n@),
            EntryAction::Navigate(p) => ActionV::Navigate(p@),
            EntryAction::FromZip { zip, inner } => ActionV::FromZip(zip@, inner@),
            EntryAction::Open(p) => ActionV::Open(p@),
        }
    }
}

/// `/` turned into `\`.
pub open spec fn back_slashed(s: Seq<char>) -> Seq<char> {
    Seq::new(s.len(), |i: int| if s[i] == '/' { '\\' } else { s[i] })
}

/// The action for entry `index` of a listing of `path`, given how the
/// listing's path splits at a zip archive (`split`): none for a missing
/// entry.
pub open spec fn action_spec(path: Seq<char>, entries: Seq<FsEntry>, index: int, split: Option<(Seq<char>, Seq<char>)>) -> Option<ActionV> {
    if index < 0 || index >= entries.len() {
        None
    } else {
        let e = entries[index];
        let full = join_spec(path, back_slashed(e.name@));
        if is_recycle_spec(path) {
            Some(ActionV::Restore(e.name@))
        } else if e.dir() || has_zip_ext(full) {
            Some(ActionV::Navigate(full))
        } else {
            match split {
                Some((zip, inner)) => Some(ActionV::FromZip(
                    zip,
                    if inner.len() == 0 { e.name@ } else { inner + seq!['/'] + e.name@ },
                )),
                None => Some(ActionV::Open(full)),
            }
        }
    }
}

/// What `split_zip_path` may answer for `path`.
pub open spec fn split_answer(path: Seq<char>, zip: Seq<char>, inner: Seq<char>) -> bool {
    exists|k: int| 0 < k <= components(path).len()
        && zip == assemble(#[trigger] components(path).take(k))
        && has_zip_ext(zip)
        && inner == slash_join(components(path).skip(k))
}

pub(crate) fn back_slash(s: &str) -> (r: String)
    ensures
        r@ == back_slashed(s@),
{
    let v = chars_of(s);
    let mut out = String::new();
    let mut i: usize = 0;
    while i < v.len()
        invariant
            i <= v.len(),
            v@ == s@,
            out@ == back_slashed(s@).take(i as int),
        decreases v.len() - i,
    {
        let c = if v[i] == '/' { '\\' } else { v[i] };
        push_char(&mut out, c);
        i += 1;
        assert(out@ =~= back_slashed(s@).take(i as int));
    }
    assert(back_slashed(s@).take(v.len() as int) =~= back_slashed(s@));
    out
}

/// The action for entry `index` of a listing of `path` when the listing's
/// path splits at a zip archive as `split` says (see `action_spec`).
pub fn entry_action_with(path: &str, entries: &[FsEntry], index: u32, split: Option<(String, String)>) -> (r: Option<EntryAction>)
    ensures
        match r {
            Some(a) => action_spec(path@, entries@, index as int, match split {
                Some((z, i)) => Some((z@, i@)),
                None => None,
            }) == Some(a.view()),
            None => action_spec(path@, entries@, index as int, match split {
                Some((z, i)) => Some((z@, i@)),
                None => None,
            }) is None,
        },
{
    if index as usize >= entries.len() {
        return None;
    }
    let e = &entries[index as usize];
    if is_recycle_path(path) {
        return Some(EntryAction::Restore(e.name.clone()));
    }
    let full = join(path, back_slash(e.name.as_str()).as_str());
    if e.is_dir() || zip_ext_exec(full.as_str()) {
        return Some(EntryAction::Navigate(full));
    }
    match split {
        Some((zip, inner_dir)) => {
            let ghost dir = inner_dir@;
            let inner = if chars_of(inner_dir.as_str()).len() == 0 {
                e.name.clone()
            } else {
                let mut s = inner_dir;
                push_char(&mut s, '/');
                s.append(e.name.as_str());
                assert(s@ =~= dir + seq!['/'] + e.name@);
                s
            };
            Some(EntryAction::FromZip { zip, inner })
        },
        None => Some(EntryAction::Open(full)),
    }
}

/// The action for entry `index` of a listing of `path`: as
/// `entry_action_with`, the listing's path split at a zip archive as far
/// as the disk shows one.
pub fn entry_action(path: &str, entries: &[FsEntry], index: u32) -> (r: Option<EntryAction>)
    ensures
        match r {
            Some(a) => action_spec(path@, entries@, index as int, None) == Some(a.view())
                || exists|z: Seq<char>, i: Seq<char>| split_answer(path@, z, i)
                    && action_spec(path@, entries@, index as int, Some((z, i))) == Some(a.view()),
            None => action_spec(path@, entries@, index as int, None) is None,
        },
{
    let split = split_zip_path(path);
    let ghost sv = match &split {
        Some((z, i)) => Some((z@, i@)),
        None => None,
    };
    let r = entry_action_with(path, entries, index, split);
    proof {
        match sv {
            Some((z, i)) => {
                assert(split_answer(path@, z, i));
            },
            None => {},
        }
    }
    r
}

} // verus!
