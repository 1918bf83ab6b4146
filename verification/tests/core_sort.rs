use simplecommander::entry::{FsEntry, ATTR_DIRECTORY, ATTR_HIDDEN};
use simplecommander::sort::{
    build_view, dirs_first_indices, entry_cmp, natural_cmp, streaming_indices, SortKey, SortSpec,
    Wildcard,
};
use std::cmp::Ordering;

#[test]
fn natural_order() {
    assert_eq!(natural_cmp("file2", "file10"), Ordering::Less);
    assert_eq!(natural_cmp("File2", "file2"), Ordering::Less); // case tiebreak
    assert_eq!(natural_cmp("a", "b"), Ordering::Less);
    assert_eq!(natural_cmp("a01", "a1"), Ordering::Greater);
}

#[test]
fn wildcards() {
    assert!(Wildcard::new("*.rs").matches("main.rs"));
    assert!(!Wildcard::new("*.rs").matches("main.rc"));
    assert!(Wildcard::new("ma?n").matches("main"));
    assert!(Wildcard::new("main").matches("domain main.txt")); // substring mode
}

fn entry(name: &str, dir: bool) -> FsEntry {
    FsEntry {
        name: name.into(),
        size: if dir { 0 } else { 42 },
        modified: 0,
        created: 0,
        attributes: if dir { ATTR_DIRECTORY } else { 0 },
    }
}

fn sorted(entries: &[FsEntry], spec: SortSpec) -> Vec<&str> {
    build_view(entries, spec, "", true)
        .iter()
        .map(|&i| entries[i as usize].name.as_str())
        .collect()
}

/// z.txt / b(dir) / a.txt / a(dir)
fn mixed() -> [FsEntry; 4] {
    [
        entry("z.txt", false),
        entry("b", true),
        entry("a.txt", false),
        entry("a", true),
    ]
}

#[test]
fn ascending_puts_the_folder_block_on_top() {
    let entries = mixed();
    assert_eq!(
        sorted(&entries, SortSpec { key: SortKey::Name, ascending: true }),
        ["a", "b", "a.txt", "z.txt"]
    );
}

#[test]
fn descending_moves_the_folder_block_to_the_bottom() {
    let entries = mixed();
    assert_eq!(
        sorted(&entries, SortSpec { key: SortKey::Name, ascending: false }),
        ["z.txt", "a.txt", "b", "a"]
    );
}

#[test]
fn folders_never_interleave_with_files() {
    let entries = [
        entry("z.txt", false),
        entry("b", true),
        entry("a.txt", false),
        entry("a", true),
        entry("m.doc", false),
        entry("m", true),
    ];
    let is_dir = |n: &str| entries.iter().find(|e| e.name == n).unwrap().is_dir();
    for key in [
        SortKey::Name,
        SortKey::Size,
        SortKey::Type,
        SortKey::Modified,
        SortKey::Created,
    ] {
        for ascending in [true, false] {
            let spec = SortSpec { key, ascending };
            let names = sorted(&entries, spec);
            let flips = names
                .windows(2)
                .filter(|w| is_dir(w[0]) != is_dir(w[1]))
                .count();
            assert_eq!(flips, 1, "folders split up for {spec:?}: {names:?}");
            assert_eq!(
                is_dir(names[0]),
                ascending,
                "folder block on the wrong end for {spec:?}: {names:?}"
            );
        }
    }
}

#[test]
fn streaming_order_matches_the_side_folders_will_land_on() {
    let entries = [entry("file.txt", false), entry("folder", true)];
    assert_eq!(streaming_indices(&entries, true), vec![1, 0]);
    assert_eq!(streaming_indices(&entries, false), vec![0, 1]);
    assert_eq!(streaming_indices(&[], false), Vec::<u32>::new());
}

#[test]
fn dirs_first_indices_keeps_folders_on_top() {
    let entries = [entry("file.txt", false), entry("folder", true), entry("a.doc", false)];
    let idx = dirs_first_indices(&entries);
    assert!(entries[idx[0] as usize].is_dir());
    assert!(!entries[idx[1] as usize].is_dir());
    assert!(!entries[idx[2] as usize].is_dir());
}

#[test]
fn natural_order_is_antisymmetric_on_samples() {
    let names = ["a1", "a01", "A1", "b", "file10", "file9", "x", "x0", "é", "E", ""];
    for a in names {
        for b in names {
            assert_eq!(natural_cmp(a, b), natural_cmp(b, a).reverse());
            assert_eq!(natural_cmp(a, b) == Ordering::Equal, a == b);
        }
    }
}

#[test]
fn digit_runs_compare_as_numbers() {
    assert_eq!(natural_cmp("v9", "v10"), Ordering::Less);
    assert_eq!(natural_cmp("v010", "v9"), Ordering::Greater);
    assert_eq!(natural_cmp("v00", "v0"), Ordering::Greater);
    assert_eq!(natural_cmp("A", "a"), Ordering::Less);
}

#[test]
fn filter_and_hidden_are_applied() {
    let mut hidden = entry("secret.txt", false);
    hidden.attributes = ATTR_HIDDEN;
    let entries = [entry("a.txt", false), entry("b.rs", false), hidden];
    let spec = SortSpec::default();
    let v = build_view(&entries, spec, "  *.txt ", false);
    assert_eq!(v, vec![0]);
    let v = build_view(&entries, spec, "*.txt", true);
    assert_eq!(v, vec![0, 2]);
    let v = build_view(&entries, spec, "", false);
    assert_eq!(v, vec![0, 1]);
}

#[test]
fn sort_keys_order_by_size_and_type() {
    let mut a = entry("a.zip", false);
    a.size = 10;
    let mut b = entry("b.TXT", false);
    b.size = 5;
    let spec = SortSpec { key: SortKey::Size, ascending: true };
    assert_eq!(entry_cmp(&a, &b, spec), Ordering::Greater);
    let spec = SortSpec { key: SortKey::Type, ascending: true };
    assert_eq!(entry_cmp(&a, &b, spec), Ordering::Greater);
    assert_eq!(b.ext(), "TXT");
    assert_eq!(entry(".bashrc", false).ext(), "");
    assert_eq!(entry("dir.d", true).ext(), "");
}
