use file_stats::content::{analyze_file, analyze_text, FileContent, ReadError};

fn counts(content: FileContent) -> (usize, usize) {
    (content.length(), content.whitespaces())
}

#[test]
fn empty_text_has_no_characters() {
    assert_eq!(counts(analyze_text("")), (0, 0));
}

#[test]
fn text_of_only_whitespace_counts_every_character_twice() {
    assert_eq!(counts(analyze_text(" \t\n\r")), (4, 4));
}

#[test]
fn null_characters_are_characters_but_no_whitespace() {
    assert_eq!(counts(analyze_text("\0\0\0")), (3, 0));
}

#[test]
fn text_with_one_space() {
    assert_eq!(counts(analyze_text("ab c")), (4, 1));
}

#[test]
fn characters_are_counted_not_bytes() {
    let text = "héllo wörld";
    assert_eq!(text.len(), 13);
    assert_eq!(counts(analyze_text(text)), (11, 1));
    assert_eq!(counts(analyze_text("日本語")), (3, 0));
    assert_eq!(counts(analyze_text("😀\u{3000}😀")), (3, 1));
}

#[test]
fn whitespace_never_exceeds_length() {
    for text in ["", " ", "a", "a b", "\n\n\n", "tab\there", "\u{00A0}\u{2003}x", "\0 \0"] {
        let content = analyze_text(text);
        assert!(content.whitespaces() <= content.length(), "{:?}", text);
        assert_eq!(content.length(), text.chars().count(), "{:?}", text);
    }
}

#[test]
fn analysis_of_empty_bytes_is_the_empty_text() {
    assert_eq!(analyze_file(b""), Ok(analyze_text("")));
    assert_eq!(analyze_file(b"").map(counts), Ok((0, 0)));
}

#[test]
fn analysis_of_bytes_decodes_them_as_utf8() {
    assert_eq!(analyze_file(b"ab c").map(counts), Ok((4, 1)));
    assert_eq!(analyze_file(b" \t\n\r").map(counts), Ok((4, 4)));
    assert_eq!(analyze_file(b"\0\0\0").map(counts), Ok((3, 0)));
    assert_eq!(analyze_file("héllo wörld".as_bytes()).map(counts), Ok((11, 1)));
    assert_eq!(analyze_file(&[0xE3, 0x80, 0x80]).map(counts), Ok((1, 1)));
    assert_eq!(analyze_file(&[0xF0, 0x9F, 0x98, 0x80, 0x20]).map(counts), Ok((2, 1)));
}

#[test]
fn analysis_agrees_with_the_analysis_of_the_decoded_text() {
    for text in ["", "x", "two words", "línea\nnueva", "\u{2028}\u{2029}", "a\0b"] {
        assert_eq!(analyze_file(text.as_bytes()), Ok(analyze_text(text)), "{:?}", text);
    }
}

#[test]
fn bytes_that_encode_no_text_are_rejected() {
    assert_eq!(analyze_file(&[0xFF]), Err(ReadError::InvalidText));
    assert_eq!(analyze_file(&[0x80]), Err(ReadError::InvalidText));
    assert_eq!(analyze_file(&[b'a', b' ', 0xC3]), Err(ReadError::InvalidText));
    assert_eq!(analyze_file(&[0xC0, 0x80]), Err(ReadError::InvalidText));
    assert_eq!(analyze_file(&[0xE0, 0x80, 0x80]), Err(ReadError::InvalidText));
    assert_eq!(analyze_file(&[0xED, 0xA0, 0x80]), Err(ReadError::InvalidText));
    assert_eq!(analyze_file(&[0xF4, 0x90, 0x80, 0x80]), Err(ReadError::InvalidText));
    assert_eq!(analyze_file(&[0xF8, 0x88, 0x80, 0x80, 0x80]), Err(ReadError::InvalidText));
}

#[test]
fn longest_and_shortest_encodings_of_each_width_are_accepted() {
    assert_eq!(analyze_file(&[0x00]).map(counts), Ok((1, 0)));
    assert_eq!(analyze_file(&[0x7F]).map(counts), Ok((1, 0)));
    assert_eq!(analyze_file(&[0xC2, 0x80]).map(counts), Ok((1, 0)));
    assert_eq!(analyze_file(&[0xC2, 0x85]).map(counts), Ok((1, 1)));
    assert_eq!(analyze_file(&[0xDF, 0xBF]).map(counts), Ok((1, 0)));
    assert_eq!(analyze_file(&[0xE0, 0xA0, 0x80]).map(counts), Ok((1, 0)));
    assert_eq!(analyze_file(&[0xED, 0x9F, 0xBF]).map(counts), Ok((1, 0)));
    assert_eq!(analyze_file(&[0xEE, 0x80, 0x80]).map(counts), Ok((1, 0)));
    assert_eq!(analyze_file(&[0xEF, 0xBF, 0xBF]).map(counts), Ok((1, 0)));
    assert_eq!(analyze_file(&[0xF0, 0x90, 0x80, 0x80]).map(counts), Ok((1, 0)));
    assert_eq!(analyze_file(&[0xF4, 0x8F, 0xBF, 0xBF]).map(counts), Ok((1, 0)));
}

#[test]
fn analyzing_twice_gives_the_same_statistics() {
    let bytes = "some text\twith whitespace\n".as_bytes();
    let first = analyze_file(bytes);
    let second = analyze_file(bytes);
    assert_eq!(first, second);
    assert_eq!(first.map(counts), Ok((26, 4)));
    let broken = [b'o', b'k', 0xFE];
    assert_eq!(analyze_file(&broken), analyze_file(&broken));
}

#[test]
fn statistics_are_made_only_of_consistent_counts() {
    assert_eq!(FileContent::new(4, 1).map(counts), Some((4, 1)));
    assert_eq!(FileContent::new(0, 0).map(counts), Some((0, 0)));
    assert_eq!(FileContent::new(7, 7).map(counts), Some((7, 7)));
    assert_eq!(FileContent::new(7, 8), None);
    assert_eq!(FileContent::new(0, 1), None);
    assert_eq!(FileContent::new(usize::MAX, usize::MAX).map(counts), Some((usize::MAX, usize::MAX)));
}

#[test]
fn statistics_made_by_hand_equal_those_of_an_analysis() {
    assert_eq!(FileContent::new(4, 1), Some(analyze_text("ab c")));
    assert_ne!(FileContent::new(4, 2), Some(analyze_text("ab c")));
    assert_ne!(FileContent::new(5, 1), Some(analyze_text("ab c")));
}
