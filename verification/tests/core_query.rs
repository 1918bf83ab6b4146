use simplecommander::query::Query;

#[test]
fn everything_path_query() {
    let q = Query::parse(r"c:/ troja/ *.txt");
    assert!(q.matches(r"c:\users\troja\docs\notes.txt"));
    assert!(q.matches(r"C:/foo/troja/bar/a.txt"));
    assert!(!q.matches(r"c:\users\trojan\file.txt"));
    assert!(!q.matches(r"c:\users\troja\docs\notes.rs"));
    assert!(!q.matches(r"d:\troja\a.txt"));
    assert!(!q.matches(r"c:\users\other\file.txt"));
    assert!(q.matches(r"c:\users\troja\deep\nested\x.txt"));
}

#[test]
fn troja_slash_is_path_segment() {
    let q = Query::parse("troja/");
    assert!(q.matches(r"c:\users\troja\file.txt"));
    assert!(!q.matches(r"c:\users\trojan\file.txt"));
    let q = Query::parse("troja");
    assert!(q.matches(r"c:\users\trojan\file.txt"));
}

#[test]
fn or_and_not_and_quotes() {
    let q = Query::parse(r"*.txt|*.rs !temp");
    assert!(q.matches(r"c:\src\main.rs"));
    assert!(q.matches(r"c:\docs\a.txt"));
    assert!(!q.matches(r"c:\temp\a.txt"));
    let q = Query::parse(r#""new folder" *.txt"#);
    assert!(q.matches(r"c:\docs\new folder\a.txt"));
    assert!(!q.matches(r"c:\docs\new\folder\a.txt"));
}

#[test]
fn suffix_prefilter() {
    let q = Query::parse(r"c:/ *.txt");
    assert_eq!(q.required_name_suffix().as_deref(), Some(".txt"));
    let q = Query::parse("readme");
    assert_eq!(q.required_name_suffix(), None);
}

#[test]
fn empty_query_matches_everything() {
    let q = Query::parse("   ");
    assert!(q.is_empty());
    assert!(q.matches("anything"));
    let q = Query::parse("|||");
    assert!(q.is_empty());
}

#[test]
fn star_in_name_still_matches_by_pattern() {
    let q = Query::parse("*.txt");
    assert!(q.matches("a*b.txt"));
    assert!(!q.matches("a*b.rs"));
    let q = Query::parse("a*c");
    assert!(q.matches("a*c"));
    assert!(q.matches("ab*c"));
    assert!(!q.matches("a*cd"));
}
