use mdbook_checklist::chars::{is_name_character, is_space_char, CharClass};

#[test]
fn white_space_is_what_unicode_calls_so() {
    let spaces = [
        '\u{9}', '\u{a}', '\u{b}', '\u{c}', '\u{d}', ' ', '\u{85}', '\u{a0}', '\u{1680}', '\u{2000}',
        '\u{2001}', '\u{2002}', '\u{2003}', '\u{2004}', '\u{2005}', '\u{2006}', '\u{2007}', '\u{2008}',
        '\u{2009}', '\u{200a}', '\u{2028}', '\u{2029}', '\u{202f}', '\u{205f}', '\u{3000}',
    ];
    for c in spaces {
        assert!(is_space_char(c), "{:?}", c);
    }
    for c in ['\u{8}', '\u{e}', '\u{1f}', '!', 'a', '\u{84}', '\u{86}', '\u{9f}', '\u{a1}', '\u{200b}', '\u{2060}', '\u{feff}'] {
        assert!(!is_space_char(c), "{:?}", c);
    }
}

#[test]
fn white_space_agrees_with_the_standard_library() {
    let mut code: u32 = 0;
    while code <= 0x10ffff {
        if let Some(c) = char::from_u32(code) {
            assert_eq!(is_space_char(c), c.is_whitespace(), "{:?}", c);
        }
        code += 1;
    }
}

#[test]
fn name_characters_are_ascii_letters_digits_and_hyphen() {
    let mut code: u32 = 0;
    while code <= 0x10ffff {
        if let Some(c) = char::from_u32(code) {
            assert_eq!(is_name_character(c), c.is_ascii_alphanumeric() || c == '-', "{:?}", c);
        }
        code += 1;
    }
}

#[test]
fn classes_hold_their_characters() {
    assert!(CharClass::Space.contains('\t'));
    assert!(!CharClass::Space.contains('x'));
    assert!(CharClass::Name.contains('x'));
    assert!(CharClass::Name.contains('-'));
    assert!(!CharClass::Name.contains('_'));
    assert!(!CharClass::Name.contains(' '));
    assert!(CharClass::Text.contains('{'));
    assert!(CharClass::Text.contains(' '));
    assert!(CharClass::Text.contains('\n'));
    assert!(!CharClass::Text.contains('}'));
}
