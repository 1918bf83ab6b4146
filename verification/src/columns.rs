//! The columns a file list shows, from the user's column settings and the
//! columns that plugins offer.
use vstd::prelude::*;
use crate::config::ColumnPref;
use crate::paths::chars_eq;
use crate::text::{chars_of, owned, string_of};

verus! {

/// A column of the file list.
pub enum ColKind {
    Index,
    Name,
    Size,
    Type,
    Modified,
    Created,
    Checksum,
    /// A plugin's column: the plugin's index and the column's title.
    Plugin(usize, String),
}

/// A column with its title as a character sequence.
pub enum KindV {
    Index,
    Name,
    Size,
    Type,
    Modified,
    Created,
    Checksum,
    Plugin(usize, Seq<char>),
}

impl ColKind {
    pub open spec fn view(&self) -> KindV {
        match self {
            ColKind::Index => KindV::Index,
            ColKind::Name => KindV::Name,
            ColKind::Size => KindV::Size,
            ColKind::Type => KindV::Type,
            ColKind::Modified => KindV::Modified,
            ColKind::Created => KindV::Created,
            ColKind::Checksum => KindV::Checksum,
            ColKind::Plugin(i, t) => KindV::Plugin(*i, t@),
        }
    }
}

pub open spec fn kinds_view(v: Seq<ColKind>) -> Seq<KindV> {
    v.map_values(|c: ColKind| c.view())
}

/// The built-in column an id names.
pub open spec fn builtin_kind(id: Seq<char>) -> Option<KindV> {
    if id == "index"@ {
        Some(KindV::Index)
    } else if id == "size"@ {
        Some(KindV::Size)
    } else if id == "type"@ {
        Some(KindV::Type)
    } else if id == "modified"@ {
        Some(KindV::Modified)
    } else if id == "created"@ {
        Some(KindV::Created)
    } else if id == "sha256"@ {
        Some(KindV::Checksum)
    } else {
        None
    }
}

/// The first plugin column titled `title`.
pub open spec fn first_plugin(plugins: Seq<(usize, Seq<char>)>, title: Seq<char>) -> Option<(usize, Seq<char>)>
    decreases plugins.len(),
{
    if plugins.len() == 0 {
        None
    } else if plugins[0].1 == title {
        Some(plugins[0])
    } else {
        first_plugin(plugins.drop_first(), title)
    }
}

pub open spec fn plugin_prefix() -> Seq<char> {
    "plugin:"@
}

/// The column one setting shows: the name column always; a hidden one
/// none; a built-in one; `plugin:<title>` the first plugin column with
/// that title, if a plugin offers it.
pub open spec fn pref_kind(p: (Seq<char>, bool), plugins: Seq<(usize, Seq<char>)>) -> Option<KindV> {
    if p.0 == "name"@ {
        Some(KindV::Name)
    } else if !p.1 {
        None
    } else if builtin_kind(p.0) is Some {
        builtin_kind(p.0)
    } else if p.0.len() >= 7 && p.0.take(7) == plugin_prefix() {
        match first_plugin(plugins, p.0.skip(7)) {
            Some((i, t)) => Some(KindV::Plugin(i, t)),
            None => None,
        }
    } else {
        None
    }
}

/// The columns the settings show, in their order.
pub open spec fn base_cols(prefs: Seq<(Seq<char>, bool)>, plugins: Seq<(usize, Seq<char>)>) -> Seq<KindV>
    decreases prefs.len(),
{
    if prefs.len() == 0 {
        Seq::empty()
    } else {
        match pref_kind(prefs.last(), plugins) {
            Some(k) => base_cols(prefs.drop_last(), plugins).push(k),
            None => base_cols(prefs.drop_last(), plugins),
        }
    }
}

/// Index of the first column of kind `Index`, or -1.
pub open spec fn index_pos(cols: Seq<KindV>) -> int
    decreases cols.len(),
{
    if cols.len() == 0 {
        -1
    } else if index_pos(cols.drop_last()) >= 0 {
        index_pos(cols.drop_last())
    } else if cols.last() is Index {
        cols.len() - 1
    } else {
        -1
    }
}

/// The name column first when the settings left it out, then the index
/// column moved to the front.
pub open spec fn arranged(cols: Seq<KindV>) -> Seq<KindV> {
    let named = if exists|k: int| 0 <= k < cols.len() && cols[k] is Name { cols } else { seq![KindV::Name] + cols };
    let i = index_pos(named);
    if i <= 0 { named } else { seq![KindV::Index] + named.remove(i) }
}

/// Whether a column is plugin `pi`'s.
pub open spec fn of_plugin(c: KindV, pi: usize) -> bool {
    match c {
        KindV::Plugin(i, _) => i == pi,
        _ => false,
    }
}

/// Whether the columns include plugin `pi`'s.
pub open spec fn uses_plugin(cols: Seq<KindV>, pi: usize) -> bool {
    exists|k: int| 0 <= k < cols.len() && of_plugin(#[trigger] cols[k], pi)
}

/// Whether the settings hide the plugin column titled `title`.
pub open spec fn hides_plugin(prefs: Seq<(Seq<char>, bool)>, title: Seq<char>) -> bool {
    exists|k: int| 0 <= k < prefs.len() && (#[trigger] prefs[k]).0 == plugin_prefix() + title && !prefs[k].1
}

/// The plugin columns the settings do not mention as shown or hidden.
pub open spec fn extra_plugins(plugins: Seq<(usize, Seq<char>)>, base: Seq<KindV>, prefs: Seq<(Seq<char>, bool)>) -> Seq<KindV>
    decreases plugins.len(),
{
    if plugins.len() == 0 {
        Seq::empty()
    } else {
        let (pi, t) = plugins.last();
        let prev = extra_plugins(plugins.drop_last(), base, prefs);
        if !uses_plugin(base, pi) && !hides_plugin(prefs, t) { prev.push(KindV::Plugin(pi, t)) } else { prev }
    }
}

/// The columns the file list shows.
pub open spec fn columns_spec(prefs: Seq<(Seq<char>, bool)>, plugins: Seq<(usize, Seq<char>)>) -> Seq<KindV> {
    let base = base_cols(prefs, plugins);
    arranged(base) + extra_plugins(plugins, base, prefs)
}

pub open spec fn prefs_view(v: Seq<ColumnPref>) -> Seq<(Seq<char>, bool)> {
    v.map_values(|c: ColumnPref| (c.id@, c.visible))
}

pub open spec fn plugins_view(v: Seq<(usize, String)>) -> Seq<(usize, Seq<char>)> {
    v.map_values(|p: (usize, String)| (p.0, p.1@))
}

fn eq_lit(v: &Vec<char>, s: &str) -> (r: bool)
    ensures
        r == (v@ == s@),
{
    chars_eq(v, &chars_of(s))
}

fn builtin_exec(v: &Vec<char>) -> (r: Option<ColKind>)
    ensures
        match r {
            Some(k) => builtin_kind(v@) == Some(k.view()),
            None => builtin_kind(v@) is None,
        },
{
    if eq_lit(v, "index") {
        Some(ColKind::Index)
    } else if eq_lit(v, "size") {
        Some(ColKind::Size)
    } else if eq_lit(v, "type") {
        Some(ColKind::Type)
    } else if eq_lit(v, "modified") {
        Some(ColKind::Modified)
    } else if eq_lit(v, "created") {
        Some(ColKind::Created)
    } else if eq_lit(v, "sha256") {
        Some(ColKind::Checksum)
    } else {
        None
    }
}

fn first_plugin_exec(plugins: &Vec<(usize, String)>, title: &Vec<char>) -> (r: Option<usize>)
    ensures
        match r {
            Some(k) => k < plugins@.len() && first_plugin(plugins_view(plugins@), title@) == Some(plugins_view(plugins@)[k as int]),
            None => first_plugin(plugins_view(plugins@), title@) is None,
        },
{
    let ghost pv = plugins_view(plugins@);
    let mut k: usize = 0;
    assert(pv.skip(0) =~= pv);
    while k < plugins.len()
        invariant
            k <= plugins.len(),
            pv == plugins_view(plugins@),
            first_plugin(pv, title@) == first_plugin(pv.skip(k as int), title@),
        decreases plugins.len() - k,
    {
        assert(pv.skip(k as int).drop_first() =~= pv.skip(k + 1));
        assert(pv.skip(k as int)[0] == pv[k as int]);
        if chars_eq(&chars_of(plugins[k].1.as_str()), title) {
            return Some(k);
        }
        k += 1;
    }
    None
}

fn is_plugin_id(v: &Vec<char>) -> (r: bool)
    ensures
        r == (v@.len() >= 7 && v@.take(7) == plugin_prefix()),
{
    let p = chars_of("plugin:");
    proof {
        reveal_strlit("plugin:");
    }
    if v.len() < 7 {
        return false;
    }
    let mut i: usize = 0;
    while i < 7
        invariant
            p@ == plugin_prefix(),
            p@.len() == 7,
            v.len() >= 7,
            i <= 7,
            forall|k: int| 0 <= k < i ==> v@[k] == p@[k],
        decreases 7 - i,
    {
        if v[i] != p[i] {
            assert(v@.take(7)[i as int] != plugin_prefix()[i as int]);
            return false;
        }
        i += 1;
    }
    assert(v@.take(7) =~= plugin_prefix());
    true
}

fn pref_exec(p: &ColumnPref, plugins: &Vec<(usize, String)>) -> (r: Option<ColKind>)
    ensures
        match r {
            Some(k) => pref_kind((p.id@, p.visible), plugins_view(plugins@)) == Some(k.view()),
            None => pref_kind((p.id@, p.visible), plugins_view(plugins@)) is None,
        },
{
    let v = chars_of(p.id.as_str());
    if eq_lit(&v, "name") {
        return Some(ColKind::Name);
    }
    if !p.visible {
        return None;
    }
    match builtin_exec(&v) {
        Some(k) => return Some(k),
        None => {},
    }
    if is_plugin_id(&v) {
        let rest = string_of(&v, 7, v.len());
        let rv = chars_of(rest.as_str());
        assert(rv@ =~= p.id@.skip(7));
        match first_plugin_exec(plugins, &rv) {
            Some(k) => Some(ColKind::Plugin(plugins[k].0, plugins[k].1.clone())),
            None => None,
        }
    } else {
        None
    }
}

/// The columns the file list shows (see `columns_spec`).
pub fn visible_columns(prefs: &Vec<ColumnPref>, plugin_columns: &Vec<(usize, String)>) -> (r: Vec<ColKind>)
    ensures
        kinds_view(r@) == columns_spec(prefs_view(prefs@), plugins_view(plugin_columns@)),
{
    let ghost pv = prefs_view(prefs@);
    let ghost plv = plugins_view(plugin_columns@);
    let mut out: Vec<ColKind> = Vec::new();
    let mut i: usize = 0;
    assert(pv.take(0) =~= Seq::<(Seq<char>, bool)>::empty());
    while i < prefs.len()
        invariant
            i <= prefs.len(),
            pv == prefs_view(prefs@),
            plv == plugins_view(plugin_columns@),
            kinds_view(out@) == base_cols(pv.take(i as int), plv),
        decreases prefs.len() - i,
    {
        assert(pv.take(i + 1).drop_last() =~= pv.take(i as int));
        assert(pv.take(i + 1).last() == (prefs@[i as int].id@, prefs@[i as int].visible));
        match pref_exec(&prefs[i], plugin_columns) {
            Some(k) => {
                let ghost before = kinds_view(out@);
                out.push(k);
                assert(kinds_view(out@) =~= before.push(k.view()));
            },
            None => {},
        }
        i += 1;
    }
    assert(pv.take(prefs.len() as int) =~= pv);
    let ghost base = kinds_view(out@);
    // The settings decide which plugins are placed; the rest come last.
    let mut extra: Vec<ColKind> = Vec::new();
    let mut j: usize = 0;
    assert(plv.take(0) =~= Seq::<(usize, Seq<char>)>::empty());
    while j < plugin_columns.len()
        invariant
            j <= plugin_columns.len(),
            plv == plugins_view(plugin_columns@),
            pv == prefs_view(prefs@),
            base == kinds_view(out@),
            kinds_view(extra@) == extra_plugins(plv.take(j as int), base, pv),
        decreases plugin_columns.len() - j,
    {
        assert(plv.take(j + 1).drop_last() =~= plv.take(j as int));
        assert(plv.take(j + 1).last() == plv[j as int]);
        let pi = plugin_columns[j].0;
        let used = uses_exec(&out, pi);
        let hidden = hidden_exec(prefs, &plugin_columns[j].1);
        if !used && !hidden {
            let ghost before = kinds_view(extra@);
            extra.push(ColKind::Plugin(pi, plugin_columns[j].1.clone()));
            assert(kinds_view(extra@) =~= before.push(KindV::Plugin(pi, plugin_columns@[j as int].1@)));
        }
        j += 1;
    }
    assert(plv.take(plugin_columns.len() as int) =~= plv);
    let mut cols = arrange_exec(out);
    let ghost head = kinds_view(cols@);
    let ghost tail = kinds_view(extra@);
    cols.append(&mut extra);
    assert(kinds_view(cols@) =~= head + tail);
    cols
}

fn uses_exec(cols: &Vec<ColKind>, pi: usize) -> (r: bool)
    ensures
        r == uses_plugin(kinds_view(cols@), pi),
{
    let mut k: usize = 0;
    while k < cols.len()
        invariant
            k <= cols.len(),
            forall|j: int| 0 <= j < k ==> !of_plugin(#[trigger] kinds_view(cols@)[j], pi),
        decreases cols.len() - k,
    {
        match &cols[k] {
            ColKind::Plugin(i, _) => {
                if *i == pi {
                    assert(of_plugin(kinds_view(cols@)[k as int], pi));
                    return true;
                }
            },
            _ => {},
        }
        k += 1;
    }
    false
}

fn hidden_exec(prefs: &Vec<ColumnPref>, title: &String) -> (r: bool)
    ensures
        r == hides_plugin(prefs_view(prefs@), title@),
{
    proof {
        reveal_strlit("plugin:");
    }
    let mut want = owned("plugin:");
    want.append(title.as_str());
    let wv = chars_of(want.as_str());
    let mut k: usize = 0;
    while k < prefs.len()
        invariant
            k <= prefs.len(),
            wv@ == plugin_prefix() + title@,
            forall|j: int| 0 <= j < k ==> !((#[trigger] prefs_view(prefs@)[j]).0 == plugin_prefix() + title@
                && !prefs_view(prefs@)[j].1),
        decreases prefs.len() - k,
    {
        if !prefs[k].visible && chars_eq(&chars_of(prefs[k].id.as_str()), &wv) {
            assert(prefs_view(prefs@)[k as int].0 == plugin_prefix() + title@ && !prefs_view(prefs@)[k as int].1);
            return true;
        }
        k += 1;
    }
    false
}

proof fn lemma_index_pos(s: Seq<KindV>)
    ensures
        -1 <= index_pos(s) < s.len(),
        index_pos(s) >= 0 ==> s[index_pos(s)] is Index,
    decreases s.len(),
{
    if s.len() > 0 {
        lemma_index_pos(s.drop_last());
    }
}

fn arrange_exec(cols: Vec<ColKind>) -> (r: Vec<ColKind>)
    ensures
        kinds_view(r@) == arranged(kinds_view(cols@)),
{
    let ghost cv = kinds_view(cols@);
    let mut has_name = false;
    let mut k: usize = 0;
    while k < cols.len()
        invariant
            k <= cols.len(),
            cv == kinds_view(cols@),
            has_name == exists|j: int| 0 <= j < k && cv[j] is Name,
        decreases cols.len() - k,
    {
        match &cols[k] {
            ColKind::Name => {
                has_name = true;
                assert(cv[k as int] is Name);
            },
            _ => {
                assert(!(cv[k as int] is Name));
            },
        }
        k += 1;
    }
    let mut named = cols;
    if !has_name {
        named.insert(0, ColKind::Name);
        assert(kinds_view(named@) =~= seq![KindV::Name] + cv);
    }
    let ghost nv = kinds_view(named@);
    let mut i: usize = 0;
    let mut found: Option<usize> = None;
    assert(nv.take(0) =~= Seq::<KindV>::empty());
    while i < named.len()
        invariant
            i <= named.len(),
            nv == kinds_view(named@),
            found matches Some(f) ==> f < i && index_pos(nv.take(i as int)) == f,
            found is None ==> index_pos(nv.take(i as int)) == -1,
        decreases named.len() - i,
    {
        assert(nv.take(i + 1).drop_last() =~= nv.take(i as int));
        let is_index = match &named[i] {
            ColKind::Index => true,
            _ => false,
        };
        if found.is_none() && is_index {
            found = Some(i);
        }
        i += 1;
    }
    assert(nv.take(named.len() as int) =~= nv);
    match found {
        Some(f) => {
            if f != 0 {
                proof {
                    lemma_index_pos(nv);
                }
                let x = named.remove(f);
                named.insert(0, x);
                assert(kinds_view(named@) =~= seq![KindV::Index] + nv.remove(f as int));
            }
            named
        },
        None => named,
    }
}

} // verus!
