//! Configuration values with rules of their own: the column set, the layout
//! a window opens with, where the configuration files live, and what to do
//! on a name clash.
use vstd::prelude::*;
use crate::paths::{join, join_spec};
use crate::state::{PaneLayout, SplitDirection};
use crate::text::owned;

verus! {

/// A row-colorization rule.
#[derive(Clone, Debug)]
pub struct ColorRule {
    /// Wildcard pattern matched against the file name (e.g. "*.rs").
    pub pattern: String,
    /// RGB hex like "ff8800".
    pub color: String,
}

/// What to do when a copy/move target already exists.
#[derive(Clone, Copy, Debug, PartialEq, Eq, Structural)]
pub enum ConflictDefault {
    Ask,
    Overwrite,
    KeepBoth,
    Skip,
}

impl Default for ConflictDefault {
    fn default() -> (r: ConflictDefault)
        ensures
            r == ConflictDefault::Ask,
    {
        ConflictDefault::Ask
    }
}

/// Layout used when "restore session" is off, and the default for new windows.
#[derive(Clone, Copy, Debug, PartialEq, Eq, Structural)]
pub enum DefaultLayout {
    DualVertical,
    DualHorizontal,
    Single,
}

impl Default for DefaultLayout {
    fn default() -> (r: DefaultLayout)
        ensures
            r == DefaultLayout::DualVertical,
    {
        DefaultLayout::DualVertical
    }
}

impl DefaultLayout {
    pub fn to_pane_layout(self) -> (r: PaneLayout)
        ensures
            r == (match self {
                DefaultLayout::DualVertical => PaneLayout::Dual(SplitDirection::Vertical),
                DefaultLayout::DualHorizontal => PaneLayout::Dual(SplitDirection::Horizontal),
                DefaultLayout::Single => PaneLayout::Single,
            }),
    {
        match self {
            DefaultLayout::DualVertical => PaneLayout::Dual(SplitDirection::Vertical),
            DefaultLayout::DualHorizontal => PaneLayout::Dual(SplitDirection::Horizontal),
            DefaultLayout::Single => PaneLayout::Single,
        }
    }

    pub fn label(self) -> (r: &'static str)
        ensures
            r@ == (match self {
                DefaultLayout::DualVertical => "Dual vertical"@,
                DefaultLayout::DualHorizontal => "Dual horizontal"@,
                DefaultLayout::Single => "Single pane"@,
            }),
    {
        match self {
            DefaultLayout::DualVertical => "Dual vertical",
            DefaultLayout::DualHorizontal => "Dual horizontal",
            DefaultLayout::Single => "Single pane",
        }
    }
}

/// One file-list column. `id` is `index`/`name`/`size`/`type`/`modified`/
/// `created`/`sha256` or `plugin:<name>`.
#[derive(Clone, Debug)]
pub struct ColumnPref {
    pub id: String,
    pub visible: bool,
}

/// A column as its id and visibility.
pub open spec fn col_view(c: ColumnPref) -> (Seq<char>, bool) {
    (c.id@, c.visible)
}

pub open spec fn cols_view(s: Seq<ColumnPref>) -> Seq<(Seq<char>, bool)> {
    s.map_values(|c: ColumnPref| col_view(c))
}

/// The default columns: index, name, size, type and modified shown;
/// created and sha256 hidden.
pub open spec fn default_cols() -> Seq<(Seq<char>, bool)> {
    seq![
        ("index"@, true),
        ("name"@, true),
        ("size"@, true),
        ("type"@, true),
        ("modified"@, true),
        ("created"@, false),
        ("sha256"@, false),
    ]
}

fn col(id: &str, visible: bool) -> (r: ColumnPref)
    ensures
        r.id@ == id@,
        r.visible == visible,
{
    ColumnPref { id: owned(id), visible }
}

pub fn default_columns() -> (r: Vec<ColumnPref>)
    ensures
        cols_view(r@) == default_cols(),
{
    let v = vec![
        col("index", true),
        col("name", true),
        col("size", true),
        col("type", true),
        col("modified", true),
        col("created", false),
        col("sha256", false),
    ];
    assert(cols_view(v@) =~= default_cols());
    v
}

/// Whether a column with id `id` is in `cols`.
pub open spec fn has_col(cols: Seq<(Seq<char>, bool)>, id: Seq<char>) -> bool {
    exists|i: int| 0 <= i < cols.len() && (#[trigger] cols[i]).0 == id
}

fn find_col(cols: &Vec<ColumnPref>, id: &str) -> (r: bool)
    ensures
        r == has_col(cols_view(cols@), id@),
{
    let ghost cv = cols_view(cols@);
    let mut i: usize = 0;
    while i < cols.len()
        invariant
            i <= cols.len(),
            cv == cols_view(cols@),
            forall|k: int| 0 <= k < i ==> (#[trigger] cv[k]).0 != id@,
        decreases cols.len() - i,
    {
        if crate::paths::chars_eq(&crate::text::chars_of(cols[i].id.as_str()), &crate::text::chars_of(id)) {
            assert(cv[i as int].0 == id@);
            return true;
        }
        i += 1;
    }
    false
}

/// The column set a loaded configuration ends up with: the defaults when it
/// has none or lacks the name column; an index column put in front when it
/// lacks one; a hidden sha256 column added at the end when it lacks one.
pub open spec fn fixed_cols(c: Seq<(Seq<char>, bool)>) -> Seq<(Seq<char>, bool)> {
    let a = if c.len() == 0 || !has_col(c, "name"@) {
        default_cols()
    } else if !has_col(c, "index"@) {
        seq![("index"@, true)] + c
    } else {
        c
    };
    if !has_col(a, "sha256"@) { a.push(("sha256"@, false)) } else { a }
}

/// Repairs a loaded column set (see `fixed_cols`).
pub fn fix_columns(columns: Vec<ColumnPref>) -> (r: Vec<ColumnPref>)
    ensures
        cols_view(r@) == fixed_cols(cols_view(columns@)),
{
    let mut c = columns;
    if c.len() == 0 || !find_col(&c, "name") {
        c = default_columns();
    } else if !find_col(&c, "index") {
        let ghost before = cols_view(c@);
        c.insert(0, col("index", true));
        assert(cols_view(c@) =~= seq![("index"@, true)] + before);
    }
    if !find_col(&c, "sha256") {
        let ghost before = cols_view(c@);
        c.push(col("sha256", false));
        assert(cols_view(c@) =~= before.push(("sha256"@, false)));
    }
    c
}

/// The color rules a first start comes with: zip archives violet,
/// executables green.
pub fn default_color_rules() -> (r: Vec<ColorRule>)
    ensures
        r@.len() == 2,
        r@[0].pattern@ == "*.zip"@ && r@[0].color@ == "b08cff"@,
        r@[1].pattern@ == "*.exe"@ && r@[1].color@ == "7fd48a"@,
{
    vec![
        ColorRule { pattern: owned("*.zip"), color: owned("b08cff") },
        ColorRule { pattern: owned("*.exe"), color: owned("7fd48a") },
    ]
}

/// The command the toolbar's terminal button runs; `{path}` stands for the
/// active folder.
pub fn default_terminal_command() -> (r: String)
    ensures
        r@ == "wt.exe -d \"{path}\""@,
{
    owned("wt.exe -d \"{path}\"")
}

/// `settings.toml` in the configuration folder.
pub fn settings_path(config_dir: &str) -> (r: String)
    ensures
        r@ == join_spec(config_dir@, "settings.toml"@),
{
    join(config_dir, "settings.toml")
}

/// `sc-tags.db` in the configuration folder.
pub fn tags_db_path(config_dir: &str) -> (r: String)
    ensures
        r@ == join_spec(config_dir@, "sc-tags.db"@),
{
    join(config_dir, "sc-tags.db")
}

/// `plugins.toml` in the configuration folder.
pub fn plugins_registry_path(config_dir: &str) -> (r: String)
    ensures
        r@ == join_spec(config_dir@, "plugins.toml"@),
{
    join(config_dir, "plugins.toml")
}

/// The `plugins` folder in the configuration folder.
pub fn plugins_dir(config_dir: &str) -> (r: String)
    ensures
        r@ == join_spec(config_dir@, "plugins"@),
{
    join(config_dir, "plugins")
}

/// The configuration folder when the program's own folder is not writable:
/// `SimpleCommander` under `%APPDATA%` (or the temp folder without it).
pub fn fallback_config_dir(base: &str) -> (r: String)
    ensures
        r@ == join_spec(base@, "SimpleCommander"@),
{
    join(base, "SimpleCommander")
}

} // verus!
