use file_stats::whitespace::char_is_whitespace;

#[test]
fn classifies_every_character_as_the_standard_library_does() {
    let mut code: u32 = 0;
    while code <= 0x10FFFF {
        if let Some(c) = char::from_u32(code) {
            assert_eq!(char_is_whitespace(c), c.is_whitespace(), "U+{:04X}", code);
        }
        code += 1;
    }
}

#[test]
fn space_tab_newline_and_carriage_return_are_whitespace() {
    assert!(char_is_whitespace(' '));
    assert!(char_is_whitespace('\t'));
    assert!(char_is_whitespace('\n'));
    assert!(char_is_whitespace('\r'));
}

#[test]
fn vertical_tab_and_form_feed_are_whitespace() {
    assert!(char_is_whitespace('\u{000B}'));
    assert!(char_is_whitespace('\u{000C}'));
}

#[test]
fn null_is_not_whitespace() {
    assert!(!char_is_whitespace('\0'));
}

#[test]
fn neighbours_of_the_ascii_whitespace_are_not_whitespace() {
    assert!(!char_is_whitespace('\u{0008}'));
    assert!(!char_is_whitespace('\u{000E}'));
    assert!(!char_is_whitespace('\u{001F}'));
    assert!(!char_is_whitespace('!'));
}

#[test]
fn letters_digits_and_punctuation_are_not_whitespace() {
    for c in ['a', 'Z', '0', '9', '_', '-', '.', 'é', '日', '😀'] {
        assert!(!char_is_whitespace(c), "{:?}", c);
    }
}

#[test]
fn spaces_beyond_ascii_are_whitespace() {
    for c in [
        '\u{0085}', '\u{00A0}', '\u{1680}', '\u{2000}', '\u{2001}', '\u{2005}', '\u{200A}',
        '\u{2028}', '\u{2029}', '\u{202F}', '\u{205F}', '\u{3000}',
    ] {
        assert!(char_is_whitespace(c), "{:?}", c);
    }
}

#[test]
fn invisible_characters_without_the_property_are_not_whitespace() {
    for c in ['\u{180E}', '\u{200B}', '\u{200C}', '\u{200D}', '\u{2060}', '\u{FEFF}'] {
        assert!(!char_is_whitespace(c), "{:?}", c);
    }
}
