use quark::chars::{is_ident_start, CharClass};

fn every_char() -> impl Iterator<Item = char> {
    (0..=0x10ffffu32).filter_map(char::from_u32)
}

#[test]
fn white_space_within_ascii() {
    for c in every_char().take_while(|c| *c <= '\x7f') {
        let expected = c == ' ' || ('\t'..='\r').contains(&c);
        assert_eq!(CharClass::Whitespace.contains(c), expected, "{:?}", c);
        assert_eq!(c.is_whitespace(), expected, "{:?}", c);
    }
}

#[test]
fn letters_within_ascii() {
    for c in every_char().take_while(|c| *c <= '\x7f') {
        let letter = ('a'..='z').contains(&c) || ('A'..='Z').contains(&c);
        assert_eq!(is_ident_start(c), letter || c == '_', "{:?}", c);
        assert_eq!(c.is_alphabetic(), letter, "{:?}", c);
    }
}

#[test]
fn letters_and_digits_within_ascii() {
    for c in every_char().take_while(|c| *c <= '\x7f') {
        let letter = ('a'..='z').contains(&c) || ('A'..='Z').contains(&c);
        let digit = ('0'..='9').contains(&c);
        assert_eq!(CharClass::IdentPart.contains(c), letter || digit || c == '_', "{:?}", c);
        assert_eq!(c.is_alphanumeric(), letter || digit, "{:?}", c);
    }
}

#[test]
fn no_character_is_a_letter_and_white_space() {
    for c in every_char() {
        assert!(!(c.is_alphabetic() && c.is_whitespace()), "{:?}", c);
        assert!(!(is_ident_start(c) && CharClass::Whitespace.contains(c)), "{:?}", c);
    }
}

#[test]
fn every_letter_continues_an_identifier() {
    for c in every_char() {
        if c.is_alphabetic() {
            assert!(c.is_alphanumeric(), "{:?}", c);
        }
        if is_ident_start(c) {
            assert!(CharClass::IdentPart.contains(c), "{:?}", c);
        }
    }
}

#[test]
fn a_few_characters_beyond_ascii() {
    assert!(CharClass::Whitespace.contains('\u{a0}'));
    assert!(CharClass::Whitespace.contains('\u{3000}'));
    assert!(!CharClass::Whitespace.contains('é'));
    assert!(is_ident_start('é') && is_ident_start('京'));
    assert!(!is_ident_start('€') && !is_ident_start('٣'));
    assert!(CharClass::IdentPart.contains('٣') && !CharClass::IdentPart.contains('€'));
}
