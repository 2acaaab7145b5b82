use radio_utils::keyer::morse::{char_to_morse, text_to_elements, MorseElement};

#[test]
fn lookup_standard_characters() {
    assert_eq!(char_to_morse('A'), Some(".-"));
    assert_eq!(char_to_morse('B'), Some("-..."));
    assert_eq!(char_to_morse('0'), Some("-----"));
    assert_eq!(char_to_morse('9'), Some("----."));
    assert_eq!(char_to_morse('/'), Some("-..-."));
}

#[test]
fn lookup_is_case_insensitive() {
    assert_eq!(char_to_morse('a'), char_to_morse('A'));
    assert_eq!(char_to_morse('z'), char_to_morse('Z'));
}

#[test]
fn unknown_char_returns_none() {
    assert_eq!(char_to_morse('€'), None);
    assert_eq!(char_to_morse('💀'), None);
}

#[test]
fn text_to_elements_simple() {
    // H = ....  I = ..
    let expected = vec![
        MorseElement::Dit, MorseElement::ElementGap, MorseElement::Dit, MorseElement::ElementGap, MorseElement::Dit, MorseElement::ElementGap, MorseElement::Dit, // H
        MorseElement::LetterGap, MorseElement::Dit, MorseElement::ElementGap, MorseElement::Dit, // I
    ];
    assert_eq!(text_to_elements("HI"), expected);
}

#[test]
fn text_to_elements_with_space() {
    // A = .-   B = -...
    let expected = vec![
        MorseElement::Dit, MorseElement::ElementGap, MorseElement::Dash, // A
        MorseElement::WordGap, MorseElement::Dash, MorseElement::ElementGap, MorseElement::Dit, MorseElement::ElementGap, MorseElement::Dit, MorseElement::ElementGap, MorseElement::Dit, // B
    ];
    assert_eq!(text_to_elements("A B"), expected);
}

#[test]
fn unknown_chars_are_skipped() {
    assert_eq!(text_to_elements("A€B"), text_to_elements("AB"));
}

#[test]
fn characters_without_a_code_are_skipped() {
    assert_eq!(text_to_elements("A~B \u{e9}#C%"), text_to_elements("AB C"));
    assert!(text_to_elements("~#%").is_empty());
}
