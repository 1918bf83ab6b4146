use simplecommander::everything::{encode_query, join_ev, parse_list, prepare_search, search_in_query};
use simplecommander::plugins::{
    crc32, dimensions, jpeg_dimensions, pack, read_allowed, unpack, PluginManifest, PluginRecord,
    PluginRegistry,
};
use simplecommander::rename::{apply_case, batch_new_name, batch_rename_ops, replace_str};
use simplecommander::search::{
    contains_ci, finish_hits, merge_hits, plan_search, query_has_folder_filter, rank_by_proximity,
};
use simplecommander::shell::{is_recycle_path, needs_per_file_icon, recycle_root, volume_for_path, DriveType, VolumeInfo};
use simplecommander::tags::{direct_child, folder_query};
use simplecommander::vfs::{dos_time_to_filetime, extract_name, folder_extract_plan, list_zip_dir, split_zip_path_with, zip_listing_with, DosTime, ZipItem};
use simplecommander::ops::Operation;

fn s(x: &str) -> String {
    x.to_string()
}

#[test]
fn closer_paths_rank_first() {
    let origin = r"C:\work\proj";
    let mut hits = vec![
        (s(r"C:\other\readme.txt"), false),
        (s(r"C:\work\proj\src\lib.rs"), false),
        (s(r"C:\work\proj\readme.txt"), false),
        (s(r"C:\work\notes.txt"), false),
    ];
    rank_by_proximity(&mut hits, origin);
    assert_eq!(hits[0].0, r"C:\work\proj\readme.txt");
    assert_eq!(hits[1].0, r"C:\work\proj\src\lib.rs");
    assert_eq!(hits[2].0, r"C:\work\notes.txt");
    assert_eq!(hits[3].0, r"C:\other\readme.txt");
}

#[test]
fn ranking_ties_break_by_length_then_path() {
    let mut hits = vec![(s(r"C:\w\bb.txt"), false), (s(r"C:\w\a.txt"), true), (s(r"C:\w\ab.txt"), false)];
    rank_by_proximity(&mut hits, r"c:\W");
    let names: Vec<&str> = hits.iter().map(|h| h.0.as_str()).collect();
    assert_eq!(names, vec![r"C:\w\a.txt", r"C:\w\ab.txt", r"C:\w\bb.txt"]);
}

#[test]
fn merging_and_planning_searches() {
    let mut into = vec![(s(r"C:\A.txt"), false)];
    merge_hits(&mut into, vec![(s(r"c:\a.TXT"), false), (s(r"C:\b"), true), (s(r"C:\B"), true)]);
    assert_eq!(into, vec![(s(r"C:\A.txt"), false), (s(r"C:\b"), true)]);
    assert!(query_has_folder_filter("x FOLDER:docs"));
    assert!(!query_has_folder_filter("xfolder:docs"));
    let p = plan_search("  notes ", 0, true, false).unwrap();
    assert_eq!(p.query, "notes");
    assert_eq!(p.service_query, "folder: notes");
    assert_eq!((p.max, p.fetch), (1, 3));
    let p = plan_search("folder:x", 1000, true, false).unwrap();
    assert_eq!(p.service_query, "folder:x");
    assert_eq!(p.fetch, 2000);
    assert_eq!(plan_search("a", 5000, false, true).unwrap().fetch, 5000);
    assert_eq!(plan_search("a", 50, false, true).unwrap().fetch, 50);
    assert!(plan_search("   ", 5, false, false).is_none());
    let hits = vec![(s("b"), false), (s("a"), false), (s("c"), false)];
    assert_eq!(finish_hits(hits, None, 2), vec![(s("b"), false), (s("a"), false)]);
}

#[test]
fn case_insensitive_byte_search() {
    assert!(contains_ci(b"Hello World", b"world"));
    assert!(!contains_ci(b"Hello", b"world"));
    assert!(!contains_ci(b"abc", b""));
    assert!(contains_ci(b"ABC", b"abc"));
}

#[test]
fn everything_messages_round_trip() {
    let q = encode_query(0x1234, 20, "a€");
    assert_eq!(&q[0..4], &[0x34, 0x12, 0, 0]);
    assert_eq!(&q[16..20], &[20, 0, 0, 0]);
    assert_eq!(&q[20..], &[b'a', 0, 0xAC, 0x20, 0, 0]);
    // A list with one folder item: name "x" at offset 40, path "C:" at offset 44.
    let mut b = vec![0u8; 28];
    b[20] = 1;
    b.extend_from_slice(&[1, 0, 0, 0, 40, 0, 0, 0, 44, 0, 0, 0]);
    b.extend_from_slice(&[b'x', 0, 0, 0, b'C', 0, b':', 0, 0, 0]);
    assert_eq!(parse_list(&b), vec![(s(r"C:\x"), true)]);
    assert!(parse_list(&b[..27]).is_empty());
    assert_eq!(join_ev("", "n"), "n");
    assert_eq!(join_ev("C:\\", "n"), "C:\\n");
    assert_eq!(search_in_query(r#"C:\some "dir"\"#, "*.txt"), r#"path:"C:\some dir" *.txt"#);
    assert_eq!(search_in_query(r"\\", "q"), "q");
    assert_eq!(prepare_search("  x ", 0), Some((s("x"), 1)));
    assert_eq!(prepare_search(" ", 3), None);
}

#[test]
fn recycle_and_volumes() {
    assert_eq!(recycle_root(), r"recycle:\");
    assert!(is_recycle_path(r"RECYCLE:\/"));
    assert!(is_recycle_path("recycle"));
    assert!(!is_recycle_path(r"recycle:\x"));
    assert!(needs_per_file_icon("EXE"));
    assert!(!needs_per_file_icon("txt"));
    let vol = |root: &str| VolumeInfo {
        root: s(root),
        label: s(""),
        drive_type: DriveType::Fixed,
        total_bytes: 0,
        free_bytes: 0,
    };
    let vols = vec![vol(r"C:\"), vol(r"C:\mnt\disk\"), vol(r"D:\")];
    assert_eq!(volume_for_path(&vols, r"c:\mnt\disk\x").unwrap().root, r"C:\mnt\disk\");
    assert_eq!(volume_for_path(&vols, r"C:\other").unwrap().root, r"C:\");
    assert!(volume_for_path(&vols, r"E:\x").is_none());
}

#[test]
fn zip_folders_list_their_entries() {
    let item = |name: &str, is_dir: bool| ZipItem { name: s(name), is_dir, size: 5, modified: None };
    let items = vec![
        item("photos/", true),
        item("photos/2024/a.jpg", false),
        item("/readme.txt", false),
        item("photos/b.jpg", false),
        item("docs/x.txt", false),
    ];
    let root = list_zip_dir(&items, "");
    let names: Vec<(&str, u32)> = root.iter().map(|e| (e.name.as_str(), e.attributes)).collect();
    assert_eq!(names, vec![("photos", 0x11), ("docs", 0x11), ("readme.txt", 0x1)]);
    let inner = list_zip_dir(&items, "/photos/");
    let names: Vec<&str> = inner.iter().map(|e| e.name.as_str()).collect();
    assert_eq!(names, vec!["2024", "b.jpg"]);
    let t = DosTime { year: 1980, month: 1, day: 1, hour: 0, minute: 0, second: 0 };
    assert_eq!(dos_time_to_filetime(Some(t)), (315532800u64 + 11_644_473_600) * 10_000_000);
    assert_eq!(dos_time_to_filetime(None), 0);
}

#[test]
fn zip_folder_extraction_writes_every_file_below_it() {
    let item = |name: &str, is_dir: bool| ZipItem { name: s(name), is_dir, size: 5, modified: None };
    let items = vec![
        item("photos/", true),
        item("photos/2024/", true),
        item("photos/2024/a.jpg", false),
        item("/photos/b.jpg", false),
        item("photosets/c.jpg", false),
        item("docs/x.txt", false),
    ];
    let plan = folder_extract_plan(&items, "/photos/");
    assert_eq!(
        plan,
        vec![(s("photos/2024/a.jpg"), s(r"2024\a.jpg")), (s("/photos/b.jpg"), s("b.jpg"))]
    );
    assert!(folder_extract_plan(&items, "").is_empty());
    assert_eq!(extract_name("photos/2024/a.jpg"), "a.jpg");
    assert_eq!(extract_name("readme.txt"), "readme.txt");
    assert_eq!(extract_name("photos/"), "");
}

#[test]
fn tag_queries() {
    let (prefix, like) = folder_query(r"C:\100%");
    assert_eq!(prefix, r"C:\100%\");
    assert_eq!(like, r"C:\100\%\%");
    assert_eq!(direct_child(r"C:\d\f.txt", r"C:\d\"), Some(s("f.txt")));
    assert_eq!(direct_child(r"C:\d\sub\f.txt", r"C:\d\"), None);
    assert_eq!(direct_child(r"C:\e\f.txt", r"C:\d\"), None);
}

#[test]
fn plugin_values_and_formats() {
    assert_eq!(unpack(pack(0x1000, 42)), (0x1000, 42));
    assert_eq!(unpack(pack(-1, -2)), (-1, -2));
    assert!(read_allowed(true, 10));
    assert!(!read_allowed(false, 10));
    assert!(!read_allowed(true, 64 * 1024 * 1024 + 1));
    assert_eq!(crc32(b"123456789"), 0xCBF43926);
    assert_eq!(crc32(b""), 0);
    let mut png = vec![0x89, b'P', b'N', b'G', 0, 0, 0, 0, 0, 0, 0, 0, 0, 0, 0, 0];
    png.extend_from_slice(&[0, 0, 1, 0, 0, 0, 0, 200]);
    assert_eq!(dimensions(&png), Some((256, 200)));
    let gif = b"GIF89a\x10\x00\x20\x00";
    assert_eq!(dimensions(gif), Some((16, 32)));
    let mut bmp = vec![b'B', b'M'];
    bmp.extend_from_slice(&[0; 16]);
    bmp.extend_from_slice(&[10, 0, 0, 0, 0xF6, 0xFF, 0xFF, 0xFF]);
    assert_eq!(dimensions(&bmp), Some((10, 10)));
    let jpg = [0xFF, 0xD8, 0xFF, 0xE0, 0x00, 0x02, 0xFF, 0xC0, 0, 0, 0, 0x01, 0x00, 0x02, 0x00, 0, 0];
    assert_eq!(jpeg_dimensions(&jpg), Some((512, 256)));
    assert_eq!(dimensions(b"nothing"), None);
    let m = PluginManifest {
        name: s("x"),
        version: s(""),
        description: s(""),
        kinds: vec![s("column")],
        extensions: vec![],
        permissions: vec![],
        column_title: s(""),
        command_label: s(""),
    };
    assert!(m.is_column() && !m.is_command() && m.handles_ext("png"));
    let mut reg = PluginRegistry::default();
    reg.upsert(PluginRecord { path: s(r"C:\p\a.wasm"), enabled: true, granted: vec![] });
    reg.upsert(PluginRecord { path: s(r"C:\p\b.wasm"), enabled: true, granted: vec![] });
    reg.upsert(PluginRecord { path: s(r"C:/p/a.wasm"), enabled: false, granted: vec![] });
    assert_eq!(reg.plugins.len(), 2);
    assert_eq!(reg.plugins[1].path, r"C:/p/a.wasm");
    reg.grant(r"C:\p\b.wasm", "read-files");
    reg.grant(r"C:\p\b.wasm", "read-files");
    assert_eq!(reg.plugins[0].granted, vec![s("read-files")]);
    reg.set_enabled(r"C:\p\b.wasm", false);
    assert!(!reg.plugins[0].enabled);
}

#[test]
fn batch_renames() {
    assert_eq!(replace_str("aaa", "aa", "b"), "ba");
    assert_eq!(apply_case("hello wORLD-x1", 3), "Hello World-X1");
    assert_eq!(apply_case("ÄbC", 1), "äbc");
    assert_eq!(apply_case("abc", 2), "ABC");
    assert_eq!(apply_case("abc", 9), "abc");
    assert_eq!(
        batch_new_name("photo.JPG", "img_<##>", "", "", false, 1, 7),
        Ok(s("img_07.JPG"))
    );
    assert_eq!(
        batch_new_name("photo.jpg", "<name>-<###>.<ext>", "o", "0", false, 0, 12),
        Ok(s("ph0t0-012.jpg"))
    );
    assert_eq!(
        batch_new_name("a1b22.txt", "<name>", r"\d+", "#", true, 0, 1),
        Ok(s("a#b#.txt"))
    );
    assert!(batch_new_name("a.txt", "<name>", "(", "", true, 0, 1).is_err());
    let ops = batch_rename_ops(&vec![s(r"C:\d\a.txt"), s(r"C:\d\keep")], "<name>_<#>", "", "", false, 0, 1);
    assert_eq!(ops.len(), 2);
    match &ops[0] {
        Operation::Rename { from, to } => {
            assert_eq!(from, r"C:\d\a.txt");
            assert_eq!(to, r"C:\d\a_1.txt");
        }
        _ => panic!("expected a rename"),
    }
}

#[test]
fn paths_split_at_the_first_zip_found_to_be_a_file() {
    // Components: "C:", "\", "data", "a.zip", "b.ZIP", "x", "y.txt".
    let path = r"C:\data\a.zip\b.ZIP\x\y.txt";
    let none = vec![false; 7];
    assert_eq!(split_zip_path_with(path, &none), None);
    let mut at_b = none.clone();
    at_b[4] = true;
    assert_eq!(split_zip_path_with(path, &at_b), Some((s(r"C:\data\a.zip\b.ZIP"), s("x/y.txt"))));
    let mut both = at_b.clone();
    both[3] = true;
    assert_eq!(split_zip_path_with(path, &both), Some((s(r"C:\data\a.zip"), s("b.ZIP/x/y.txt"))));
    // A prefix without a zip extension is never taken for an archive.
    let mut data = none.clone();
    data[2] = true;
    assert_eq!(split_zip_path_with(path, &data), None);
    assert_eq!(zip_listing_with(r"C:\data\a.zip", true, &vec![]), Some((s(r"C:\data\a.zip"), s(""))));
    assert_eq!(zip_listing_with(r"C:\data\a.txt", true, &vec![]), None);
    assert_eq!(
        zip_listing_with(r"C:\data\a.zip\x", true, &vec![false, false, false, true]),
        Some((s(r"C:\data\a.zip"), s("x")))
    );
}
