use simplecommander::preview::{extension_lower, preview_route, text_head, PreviewRoute};

#[test]
fn pictures_audio_and_pages_get_their_own_views() {
    assert_eq!(preview_route("C:\\pics\\Holiday.JPG"), PreviewRoute::Image);
    assert_eq!(preview_route("C:\\music\\song.flac"), PreviewRoute::Audio);
    assert_eq!(preview_route("C:\\docs\\manual.pdf"), PreviewRoute::Web { html: false });
    assert_eq!(preview_route("C:\\site\\index.HTML"), PreviewRoute::Web { html: true });
    assert_eq!(preview_route("C:\\video\\clip.mkv"), PreviewRoute::Web { html: false });
}

#[test]
fn text_extensions_and_bare_names_read_as_text() {
    assert_eq!(preview_route("C:\\src\\main.rs"), PreviewRoute::Text);
    assert_eq!(preview_route("C:\\src\\Makefile"), PreviewRoute::Text);
    // A leading dot alone gives no extension.
    assert_eq!(preview_route("C:\\src\\.gitignore"), PreviewRoute::Text);
    assert_eq!(preview_route("C:\\bin\\tool.exe"), PreviewRoute::Hex);
    assert_eq!(preview_route("C:\\bin\\archive.tar.gz"), PreviewRoute::Hex);
}

#[test]
fn extensions_are_lowered_after_the_last_dot() {
    assert_eq!(extension_lower("C:\\a\\b.TxT"), "txt");
    assert_eq!(extension_lower("C:\\a\\b.tar.GZ"), "gz");
    assert_eq!(extension_lower("C:\\a\\.profile"), "");
    assert_eq!(extension_lower("C:\\a\\noext"), "");
    assert_eq!(extension_lower("C:\\a\\name."), "");
}

#[test]
fn a_nul_near_the_start_means_binary() {
    assert_eq!(text_head(b"hello\nworld"), Some("hello\nworld".to_string()));
    assert_eq!(text_head(b"ab\0cd"), None);
    let mut late = vec![b'x'; 5000];
    late[4500] = 0;
    assert!(text_head(&late).is_some());
    assert_eq!(text_head(&[0x66, 0xff, 0x6f]), Some("f\u{FFFD}o".to_string()));
    assert_eq!(text_head(b""), Some(String::new()));
}
