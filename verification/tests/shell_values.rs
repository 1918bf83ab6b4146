use simplecommander::plugins::{crc_report, dimensions_text, parse_json_string_array};
use simplecommander::shell::parse_default_icon;
use simplecommander::text::parse_i32;

fn chars(s: &str) -> Vec<char> {
    s.chars().collect()
}

#[test]
fn decimal_integers_parse_like_str_parse() {
    assert_eq!(parse_i32(&chars("42")), Some(42));
    assert_eq!(parse_i32(&chars("-7")), Some(-7));
    assert_eq!(parse_i32(&chars("+7")), Some(7));
    assert_eq!(parse_i32(&chars("007")), Some(7));
    assert_eq!(parse_i32(&chars("2147483647")), Some(i32::MAX));
    assert_eq!(parse_i32(&chars("-2147483648")), Some(i32::MIN));
    assert_eq!(parse_i32(&chars("2147483648")), None);
    assert_eq!(parse_i32(&chars("-2147483649")), None);
    assert_eq!(parse_i32(&chars("99999999999999999999")), None);
    assert_eq!(parse_i32(&chars("")), None);
    assert_eq!(parse_i32(&chars("-")), None);
    assert_eq!(parse_i32(&chars("1 2")), None);
    assert_eq!(parse_i32(&chars("0x1")), None);
}

#[test]
fn default_icon_values_name_a_file_and_an_index() {
    assert_eq!(
        parse_default_icon(r"%SystemRoot%\System32\imageres.dll,-102"),
        Some((r"%SystemRoot%\System32\imageres.dll".to_string(), -102))
    );
    assert_eq!(
        parse_default_icon(r#"  "C:\Program Files\App\app.exe" , 3 "#),
        Some((r"C:\Program Files\App\app.exe".to_string(), 3))
    );
    assert_eq!(parse_default_icon(r"C:\icons\x.ico"), Some((r"C:\icons\x.ico".to_string(), 0)));
    assert_eq!(parse_default_icon("%1"), None);
    assert_eq!(parse_default_icon(" \"%1\" "), None);
    assert_eq!(parse_default_icon("   "), None);
    assert_eq!(parse_default_icon(r"C:\a.dll,x"), None);
    assert_eq!(parse_default_icon("\"\",0"), None);
    assert_eq!(parse_default_icon(r"C:\a,b.dll,1"), Some((r"C:\a,b.dll".to_string(), 1)));
}

#[test]
fn checksum_reports_list_each_file() {
    let paths = vec![r"C:\a.txt".to_string(), r"C:\locked.bin".to_string(), r"C:\e".to_string()];
    let data = vec![Some(b"123456789".to_vec()), None, Some(Vec::new())];
    assert_eq!(
        crc_report(&paths, &data),
        "C:\\a.txt: CBF43926 (9 bytes)\nC:\\locked.bin: <unreadable or permission not granted>\nC:\\e: 00000000 (0 bytes)\n"
    );
    assert_eq!(crc_report(&Vec::new(), &Vec::new()), "No files selected.");
}

#[test]
fn dimension_columns_read_w_by_h() {
    let gif = b"GIF89a\x10\x00\x20\x00";
    assert_eq!(dimensions_text(gif), Some("16 x 32".to_string()));
    assert_eq!(dimensions_text(b"plain text"), None);
}

#[test]
fn command_path_lists_read_as_json_strings() {
    assert_eq!(
        parse_json_string_array(r#"["C:\\a.txt","D:\\new folder\\b \"q\".rs"]"#),
        vec![r"C:\a.txt".to_string(), r#"D:\new folder\b "q".rs"#.to_string()]
    );
    assert_eq!(parse_json_string_array(r#"["tab\there","line\nbreak","\/x\r"]"#), vec!["tab\there", "line\nbreak", "/x\r"]);
    assert_eq!(parse_json_string_array(r#"["\u0041\u00e9\u+041"]"#), vec!["Aé\u{41}"]);
    // A lone surrogate and an unknown escape add nothing.
    assert_eq!(parse_json_string_array(r#"["a\ud800b\qc"]"#), vec!["abc"]);
    assert_eq!(parse_json_string_array("[\"gr\u{fc}\u{df}e \u{1F600}\"]"), vec!["gr\u{fc}\u{df}e \u{1F600}"]);
    assert_eq!(parse_json_string_array("[]"), Vec::<String>::new());
    assert_eq!(parse_json_string_array("[\"open"), vec!["open"]);
    // An escaped multi-byte character is skipped together with what follows it.
    assert_eq!(parse_json_string_array("[\"\\\u{e9}\", \"x\"]"), vec!["", "]"]);
}
