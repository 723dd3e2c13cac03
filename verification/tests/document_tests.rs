//! The text buffer: total decoding and incremental change application.

use elp_core::document::ChangeEvent;
use elp_core::document::Document;
use elp_core::document::EventRange;
use elp_core::document::LineCol;
use elp_core::document::LineEndings;

fn doc(text: &str) -> Document {
    Document::from_bytes(text.as_bytes())
}

fn ev(sl: u32, sc: u32, el: u32, ec: u32, text: &str) -> ChangeEvent {
    ChangeEvent {
        range: Some(EventRange {
            start: LineCol { line: sl, col: sc },
            end: LineCol { line: el, col: ec },
        }),
        text: text.to_string(),
    }
}

fn full(text: &str) -> ChangeEvent {
    ChangeEvent { range: None, text: text.to_string() }
}

fn text_of(d: &Document) -> String {
    String::from_utf8(d.content.clone()).unwrap()
}

#[test]
fn replaces_a_single_character_span() {
    let mut d = doc("abc");
    d.apply_changes(vec![ev(0, 1, 0, 2, "X")]);
    assert_eq!(text_of(&d), "aXc");
}

#[test]
fn empty_batch_leaves_content_unchanged() {
    let mut d = doc("hello\nworld");
    d.apply_changes(vec![]);
    assert_eq!(text_of(&d), "hello\nworld");
}

#[test]
fn full_replace_wins_regardless_of_prior_state() {
    let mut d = doc("anything at all");
    d.apply_changes(vec![ev(0, 0, 0, 3, "zzz"), full("T")]);
    assert_eq!(text_of(&d), "T");
    let mut d2 = doc("");
    d2.apply_changes(vec![full("T")]);
    assert_eq!(text_of(&d2), "T");
}

#[test]
fn non_boundary_change_is_dropped_entirely() {
    // the second column of the wide character is not a character boundary
    let mut d = doc("a\u{1F600}b");
    let before = text_of(&d);
    d.apply_changes(vec![ev(0, 2, 0, 3, "X")]);
    assert_eq!(text_of(&d), before);
}

#[test]
fn out_of_bounds_change_is_dropped() {
    let mut d = doc("ab");
    d.apply_changes(vec![ev(5, 0, 5, 1, "X")]);
    assert_eq!(text_of(&d), "ab");
    d.apply_changes(vec![ev(0, 7, 0, 9, "X")]);
    assert_eq!(text_of(&d), "ab");
}

#[test]
fn inverted_range_is_dropped() {
    let mut d = doc("aa\nbb\ncc");
    d.apply_changes(vec![ev(2, 0, 0, 0, "X")]);
    assert_eq!(text_of(&d), "aa\nbb\ncc");
}

#[test]
fn disjoint_edits_commute() {
    let forwards = {
        let mut d = doc("aaa\nbbb\nccc");
        d.apply_changes(vec![ev(0, 0, 0, 1, "X"), ev(2, 0, 2, 1, "Y")]);
        text_of(&d)
    };
    let backwards = {
        let mut d = doc("aaa\nbbb\nccc");
        d.apply_changes(vec![ev(2, 0, 2, 1, "Y"), ev(0, 0, 0, 1, "X")]);
        text_of(&d)
    };
    assert_eq!(forwards, backwards);
    assert_eq!(forwards, "Xaa\nbbb\nYcc");
}

#[test]
fn reverse_ordered_edits_apply_sequentially() {
    let mut d = doc("one\ntwo\nthree");
    d.apply_changes(vec![ev(2, 0, 2, 5, "3"), ev(1, 0, 1, 3, "2"), ev(0, 0, 0, 3, "1")]);
    assert_eq!(text_of(&d), "1\n2\n3");
}

#[test]
fn multi_line_replacement_shifts_following_lines() {
    let mut d = doc("aa\nbb\ncc");
    d.apply_changes(vec![ev(0, 1, 1, 1, "-"), ev(1, 0, 1, 1, "Z")]);
    // after the first event the buffer is "a-b\ncc"; line 1 is then "cc"
    assert_eq!(text_of(&d), "a-b\nZc");
}

#[test]
fn from_bytes_never_fails_on_arbitrary_bytes() {
    let bytes: Vec<u8> = vec![0xff, 0x00, 0x61, 0xfe, 0x80];
    let d = Document::from_bytes(&bytes);
    // the fallback decodes one character per byte
    let s = text_of(&d);
    assert_eq!(s.chars().count(), 5);
    assert_eq!(s.chars().nth(2).unwrap(), 'a');
}

#[test]
fn from_bytes_keeps_valid_utf8_intact() {
    let d = Document::from_bytes("héllo\n".as_bytes());
    assert_eq!(text_of(&d), "héllo\n");
    assert_eq!(d.into_bytes(), "héllo\n".as_bytes().to_vec());
}

#[test]
fn vfs_to_salsa_normalizes_line_endings() {
    let d = Document::from_bytes(b"a\r\nb\r\nc");
    let (text, endings) = d.vfs_to_salsa();
    assert_eq!(text, "a\nb\nc");
    assert_eq!(endings, LineEndings::Dos);

    let d2 = Document::from_bytes(b"a\nb");
    let (text2, endings2) = d2.vfs_to_salsa();
    assert_eq!(text2, "a\nb");
    assert_eq!(endings2, LineEndings::Unix);
}

#[test]
fn utf16_columns_address_wide_characters() {
    // the wide character occupies two UTF-16 code units
    let mut d = doc("a\u{1F600}b");
    d.apply_changes(vec![ev(0, 1, 0, 3, "X")]);
    assert_eq!(text_of(&d), "aXb");
}
