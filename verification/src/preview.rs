//! The hex view of the preview pane: sixteen bytes per row, with the offset
//! in front and the printable characters behind.
use vstd::prelude::*;
use crate::text::{zero_pad, push_char};
use crate::paths::{file_name_spec, stem_ext, last_dot_exec};
use crate::rename::{unicode_lower, lower_string};
use crate::query::{utf8_lossy, lossy_string};

verus! {

/// Bytes shown per row.
pub const HEX_COLS: usize = 16;

/// The head of a file shown as hex.
#[derive(Clone, Debug)]
pub struct HexPreview {
    pub file_size: u64,
    pub bytes: Vec<u8>,
}

/// Upper-case hex digit of `d < 16`.
pub open spec fn hex_digit(d: int) -> char {
    if d < 10 {
        (48 + d) as char
    } else {
        (55 + d) as char
    }
}

/// `n` in upper-case hex, without leading zeros ("0" for zero).
pub open spec fn hex_spec(n: nat) -> Seq<char>
    decreases n,
{
    if n < 16 { seq![hex_digit(n as int)] } else { hex_spec(n / 16) + seq![hex_digit((n % 16) as int)] }
}

/// The three characters of byte `i` in the hex column: two digits and a
/// space, or blanks past the end of the row.
pub open spec fn hex_cell(bytes: Seq<u8>, i: int) -> Seq<char> {
    if i < bytes.len() {
        seq![hex_digit((bytes[i] / 16) as int), hex_digit((bytes[i] % 16) as int), ' ']
    } else {
        seq![' ', ' ', ' ']
    }
}

/// The character of byte `i` in the text column: printable ASCII as
/// itself, other bytes as `.`, a blank past the end of the row.
pub open spec fn text_cell(bytes: Seq<u8>, i: int) -> char {
    if i < bytes.len() {
        if 0x20 <= bytes[i] < 0x7f { bytes[i] as char } else { '.' }
    } else {
        ' '
    }
}

/// The hex column of the first `k` cells, with an extra space before cell 8.
pub open spec fn hex_cols(bytes: Seq<u8>, k: nat) -> Seq<char>
    decreases k,
{
    if k == 0 {
        Seq::empty()
    } else {
        hex_cols(bytes, (k - 1) as nat) + (if k - 1 == 8 { seq![' '] } else { Seq::empty() })
            + hex_cell(bytes, k - 1)
    }
}

/// The text column of the first `k` cells.
pub open spec fn text_cols(bytes: Seq<u8>, k: nat) -> Seq<char>
    decreases k,
{
    if k == 0 {
        Seq::empty()
    } else {
        text_cols(bytes, (k - 1) as nat).push(text_cell(bytes, k - 1))
    }
}

/// A hex row: the offset in at least eight upper-case hex digits, two
/// spaces, the hex column, a space, the text column.
pub open spec fn hex_row_spec(offset: nat, bytes: Seq<u8>) -> Seq<char> {
    zero_pad(hex_spec(offset), 8) + seq![' ', ' '] + hex_cols(bytes, 16) + seq![' '] + text_cols(bytes, 16)
}

fn hex_digit_exec(d: u8) -> (r: char)
    requires
        d < 16,
    ensures
        r == hex_digit(d as int),
{
    if d < 10 {
        (48u8 + d) as char
    } else {
        (55u8 + d) as char
    }
}

pub(crate) fn hex_of(n: u64) -> (r: Vec<char>)
    ensures
        r@ == hex_spec(n as nat),
    decreases n,
{
    if n < 16 {
        let d = hex_digit_exec(n as u8);
        let v = vec![d];
        assert(v@ =~= seq![hex_digit(n as int)]);
        v
    } else {
        let mut v = hex_of(n / 16);
        let d = hex_digit_exec((n % 16) as u8);
        let ghost head = v@;
        v.push(d);
        assert(v@ =~= head + seq![hex_digit((n % 16) as int)]);
        v
    }
}

/// One row of the hex view for the bytes at `offset`.
pub fn hex_row(offset: usize, bytes: &[u8]) -> (r: String)
    ensures
        r@ == hex_row_spec(offset as nat, bytes@),
{
    let digits = hex_of(offset as u64);
    let mut out = String::new();
    let mut pad: usize = digits.len();
    while pad < 8
        invariant
            digits.len() <= pad <= 8 || (pad == digits.len() && pad >= 8),
            out@ == Seq::new((pad - digits.len()) as nat, |i: int| '0'),
        decreases 8 - pad,
    {
        push_char(&mut out, '0');
        pad += 1;
        assert(out@ =~= Seq::new((pad - digits.len()) as nat, |i: int| '0'));
    }
    let mut k: usize = 0;
    let ghost lead = out@;
    while k < digits.len()
        invariant
            k <= digits.len(),
            out@ == lead + digits@.take(k as int),
        decreases digits.len() - k,
    {
        push_char(&mut out, digits[k]);
        k += 1;
        assert(out@ =~= lead + digits@.take(k as int));
    }
    assert(digits@.take(digits.len() as int) =~= digits@);
    assert(out@ =~= zero_pad(hex_spec(offset as nat), 8));
    push_char(&mut out, ' ');
    push_char(&mut out, ' ');
    let ghost head = out@;
    let mut text = String::new();
    let mut i: usize = 0;
    while i < HEX_COLS
        invariant
            i <= HEX_COLS,
            out@ == head + hex_cols(bytes@, i as nat),
            text@ == text_cols(bytes@, i as nat),
        decreases HEX_COLS - i,
    {
        let ghost o0 = out@;
        if i == 8 {
            push_char(&mut out, ' ');
        }
        let ghost o1 = out@;
        if i < bytes.len() {
            let b = bytes[i];
            push_char(&mut out, hex_digit_exec(b / 16));
            push_char(&mut out, hex_digit_exec(b % 16));
            push_char(&mut out, ' ');
            let c = if 0x20 <= b && b < 0x7f { b as char } else { '.' };
            push_char(&mut text, c);
        } else {
            push_char(&mut out, ' ');
            push_char(&mut out, ' ');
            push_char(&mut out, ' ');
            push_char(&mut text, ' ');
        }
        assert(o1 =~= o0 + (if i == 8 { seq![' '] } else { Seq::<char>::empty() }));
        assert(out@ =~= o1 + hex_cell(bytes@, i as int));
        i += 1;
        assert(out@ =~= head + hex_cols(bytes@, i as nat));
    }
    push_char(&mut out, ' ');
    out.append(text.as_str());
    out
}


/// How the preview pane shows a file, by its extension.
#[derive(Clone, Copy, Debug, PartialEq, Eq, Structural)]
pub enum PreviewRoute {
    /// Decoded as a picture.
    Image,
    /// Tags and properties of an audio file.
    Audio,
    /// Shown in a web view; `html` pages also get their text as a fallback.
    Web { html: bool },
    /// The head as text, or hex where it looks binary.
    Text,
    /// The head as hex.
    Hex,
}

pub open spec fn text_exts() -> Seq<Seq<char>> {
    seq!["txt"@, "md"@, "rs"@, "toml"@, "json"@, "xml"@, "css"@, "js"@, "ts"@, "py"@, "c"@,
        "cpp"@, "h"@, "hpp"@, "cs"@, "java"@, "go"@, "rb"@, "sh"@, "ps1"@, "bat"@, "cmd"@, "ini"@, "cfg"@,
        "conf"@, "log"@, "yml"@, "yaml"@, "sql"@, "csv"@, "tsv"@, "gitignore"@, "lock"@]
}

pub open spec fn image_exts() -> Seq<Seq<char>> {
    seq!["png"@, "jpg"@, "jpeg"@, "gif"@, "bmp"@, "webp"@, "ico"@, "tif"@, "tiff"@, "tga"@]
}

pub open spec fn audio_exts() -> Seq<Seq<char>> {
    seq!["mp3"@, "wav"@, "flac"@, "ogg"@, "oga"@, "m4a"@, "aac"@, "wma"@, "opus"@, "aiff"@, "aif"@, "ape"@]
}

pub open spec fn video_exts() -> Seq<Seq<char>> {
    seq!["mp4"@, "webm"@, "mkv"@, "avi"@, "mov"@, "wmv"@, "m4v"@, "mpg"@, "mpeg"@]
}

pub open spec fn html_exts() -> Seq<Seq<char>> {
    seq!["html"@, "htm"@, "xhtml"@]
}

/// The lower-cased extension of a path's file name, empty where it has none.
pub open spec fn preview_ext(p: Seq<char>) -> Seq<char> {
    match file_name_spec(p) {
        Some(n) => match stem_ext(n).1 {
            Some(e) => unicode_lower(e),
            None => Seq::empty(),
        },
        None => Seq::empty(),
    }
}

/// Pictures first, then audio, then what a web view shows (PDF, pages,
/// video), then the text extensions and files without one; the rest as hex.
pub open spec fn route_spec(ext: Seq<char>) -> PreviewRoute {
    if image_exts().contains(ext) {
        PreviewRoute::Image
    } else if audio_exts().contains(ext) {
        PreviewRoute::Audio
    } else if ext == "pdf"@ || html_exts().contains(ext) || video_exts().contains(ext) {
        PreviewRoute::Web { html: html_exts().contains(ext) }
    } else if text_exts().contains(ext) || ext.len() == 0 {
        PreviewRoute::Text
    } else {
        PreviewRoute::Hex
    }
}

fn listed(list: &Vec<&str>, e: &str) -> (r: bool)
    ensures
        r == list@.map_values(|s: &str| s@).contains(e@),
{
    let ghost lv = list@.map_values(|s: &str| s@);
    let ev = crate::text::chars_of(e);
    let mut i: usize = 0;
    while i < list.len()
        invariant
            i <= list.len(),
            lv == list@.map_values(|s: &str| s@),
            ev@ == e@,
            forall|j: int| 0 <= j < i ==> lv[j] != e@,
        decreases list.len() - i,
    {
        let w = crate::text::chars_of(list[i]);
        if crate::paths::chars_eq(&w, &ev) {
            assert(lv[i as int] == e@);
            return true;
        }
        i += 1;
    }
    proof {
        if lv.contains(e@) {
            let j = choose|j: int| 0 <= j < lv.len() && lv[j] == e@;
            assert(lv[j] == e@);
        }
    }
    false
}

fn in_exts(list: Vec<&str>, e: &str, Ghost(spec_list): Ghost<Seq<Seq<char>>>) -> (r: bool)
    requires
        list@.map_values(|s: &str| s@) == spec_list,
    ensures
        r == spec_list.contains(e@),
{
    listed(&list, e)
}

/// The lower-cased extension of `path` (see `preview_ext`).
pub fn extension_lower(path: &str) -> (r: String)
    ensures
        r@ == preview_ext(path@),
{
    match crate::paths::file_name(path) {
        Some(n) => {
            let nv = crate::text::chars_of(n.as_str());
            match last_dot_exec(&nv) {
                Some(d) => {
                    if d == 0 {
                        String::new()
                    } else {
                        let e = crate::text::string_of(&nv, d + 1, nv.len());
                        lower_string(e.as_str())
                    }
                }
                None => String::new(),
            }
        }
        None => String::new(),
    }
}

/// How the preview pane shows `path`.
pub fn preview_route(path: &str) -> (r: PreviewRoute)
    ensures
        r == route_spec(preview_ext(path@)),
{
    proof {
        reveal_strlit("pdf");
    }
    let ext = extension_lower(path);
    let e = ext.as_str();
    let text = vec!["txt", "md", "rs", "toml", "json", "xml", "css", "js", "ts", "py", "c",
        "cpp", "h", "hpp", "cs", "java", "go", "rb", "sh", "ps1", "bat", "cmd", "ini", "cfg",
        "conf", "log", "yml", "yaml", "sql", "csv", "tsv", "gitignore", "lock"];
    let image = vec!["png", "jpg", "jpeg", "gif", "bmp", "webp", "ico", "tif", "tiff", "tga"];
    let audio = vec!["mp3", "wav", "flac", "ogg", "oga", "m4a", "aac", "wma", "opus", "aiff", "aif", "ape"];
    let video = vec!["mp4", "webm", "mkv", "avi", "mov", "wmv", "m4v", "mpg", "mpeg"];
    let html = vec!["html", "htm", "xhtml"];
    assert(text@.map_values(|s: &str| s@) =~= text_exts());
    assert(image@.map_values(|s: &str| s@) =~= image_exts());
    assert(audio@.map_values(|s: &str| s@) =~= audio_exts());
    assert(video@.map_values(|s: &str| s@) =~= video_exts());
    assert(html@.map_values(|s: &str| s@) =~= html_exts());
    if in_exts(image, e, Ghost(image_exts())) {
        return PreviewRoute::Image;
    }
    if in_exts(audio, e, Ghost(audio_exts())) {
        return PreviewRoute::Audio;
    }
    let is_html = in_exts(html, e, Ghost(html_exts()));
    let pdf = crate::text::chars_of("pdf");
    let ev = crate::text::chars_of(e);
    if crate::paths::chars_eq(&ev, &pdf) || is_html || in_exts(video, e, Ghost(video_exts())) {
        return PreviewRoute::Web { html: is_html };
    }
    if in_exts(text, e, Ghost(text_exts())) || ev.len() == 0 {
        PreviewRoute::Text
    } else {
        PreviewRoute::Hex
    }
}

/// Bytes of a file's head searched for NUL before it is taken for text.
pub const TEXT_PROBE: usize = 4096;

/// Whether a NUL byte stands among the first `TEXT_PROBE` bytes.
pub open spec fn looks_binary(head: Seq<u8>) -> bool {
    exists|i: int| 0 <= i < head.len() && i < TEXT_PROBE && head[i] == 0
}

/// The head of a file as text: none where it looks binary, else its
/// bytes decoded as UTF-8 with invalid sequences replaced.
pub fn text_head(head: &[u8]) -> (r: Option<String>)
    ensures
        looks_binary(head@) ==> r is None,
        !looks_binary(head@) ==> (r matches Some(t) && t@ == utf8_lossy(head@)),
{
    let mut i: usize = 0;
    while i < head.len() && i < TEXT_PROBE
        invariant
            i <= head.len(),
            i <= TEXT_PROBE,
            forall|j: int| 0 <= j < i ==> head@[j] != 0,
        decreases head.len() - i,
    {
        if head[i] == 0 {
            return None;
        }
        i += 1;
    }
    Some(lossy_string(head))
}

} // verus!
