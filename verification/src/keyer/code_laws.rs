//! The Morse code that the keyer sends.

use crate::keyer::morse::{
    ascii_upper, char_to_morse, ends_in_word, is_mark, lemma_patterns_are_marks, mark_elements,
    morse_pattern, pattern_of_upper, spaced_elements, text_elements, text_to_elements,
    MorseElement,
};
use vstd::prelude::*;

verus! {

/// Digit `k` of a number in base two, counted from the lowest.
pub open spec fn binary_digit(n: int, k: int) -> int {
    if k == 0 {
        n % 2
    } else if k == 1 {
        n / 2 % 2
    } else if k == 2 {
        n / 4 % 2
    } else if k == 3 {
        n / 8 % 2
    } else if k == 4 {
        n / 16 % 2
    } else if k == 5 {
        n / 32 % 2
    } else {
        n / 64 % 2
    }
}

/// The letters: the number of marks, and the marks as binary digits, 1 for a dash.
pub open spec fn letter_code(c: char) -> (int, int) {
    match c {
        'A' => (2, 0b01),
        'B' => (4, 0b1000),
        'C' => (4, 0b1010),
        'D' => (3, 0b100),
        'E' => (1, 0b0),
        'F' => (4, 0b0010),
        'G' => (3, 0b110),
        'H' => (4, 0b0000),
        'I' => (2, 0b00),
        'J' => (4, 0b0111),
        'K' => (3, 0b101),
        'L' => (4, 0b0100),
        'M' => (2, 0b11),
        'N' => (2, 0b10),
        'O' => (3, 0b111),
        'P' => (4, 0b0110),
        'Q' => (4, 0b1101),
        'R' => (3, 0b010),
        'S' => (3, 0b000),
        'T' => (1, 0b1),
        'U' => (3, 0b001),
        'V' => (4, 0b0001),
        'W' => (3, 0b011),
        'X' => (4, 0b1001),
        'Y' => (4, 0b1011),
        'Z' => (4, 0b1100),
        _ => (0, 0),
    }
}

/// The signs, in the same way.
pub open spec fn sign_code(c: char) -> (int, int) {
    match c {
        '.' => (6, 0b010101),
        ',' => (6, 0b110011),
        '?' => (6, 0b001100),
        '\'' => (6, 0b011110),
        '!' => (6, 0b101011),
        '/' => (5, 0b10010),
        '(' => (5, 0b10110),
        ')' => (6, 0b101101),
        '&' => (5, 0b01000),
        ':' => (6, 0b111000),
        ';' => (6, 0b101010),
        '=' => (5, 0b10001),
        '+' => (5, 0b01010),
        '-' => (6, 0b100001),
        '_' => (6, 0b001101),
        '"' => (6, 0b010010),
        '$' => (7, 0b0001001),
        '@' => (6, 0b011010),
        _ => (0, 0),
    }
}

/// The digits have five marks each. From 1 to 5 they begin with as many dits; from 6 on
/// they begin with as many dashes as they are above 5, and 0 is all dashes.
pub open spec fn digit_has_dash(d: int, k: int) -> bool {
    if 1 <= d <= 5 {
        k >= d
    } else if d == 0 {
        true
    } else {
        k < d - 5
    }
}

/// A pattern has exactly the marks that binary digits say.
pub open spec fn has_marks(pattern: Seq<char>, code: (int, int)) -> bool {
    &&& pattern.len() == code.0
    &&& forall|k: int|
        0 <= k < code.0 ==> #[trigger] pattern[k] == if binary_digit(code.1, code.0 - 1 - k) == 1 {
            '-'
        } else {
            '.'
        }
}

proof fn lemma_letters(c: char)
    requires
        letter_code(c).0 > 0,
    ensures
        pattern_of_upper(c) is Some,
        has_marks(pattern_of_upper(c)->0@, letter_code(c)),
{
    match c {
        'A' => reveal_strlit(".-"),
        'B' => reveal_strlit("-..."),
        'C' => reveal_strlit("-.-."),
        'D' => reveal_strlit("-.."),
        'E' => reveal_strlit("."),
        'F' => reveal_strlit("..-."),
        'G' => reveal_strlit("--."),
        'H' => reveal_strlit("...."),
        'I' => reveal_strlit(".."),
        'J' => reveal_strlit(".---"),
        'K' => reveal_strlit("-.-"),
        'L' => reveal_strlit(".-.."),
        'M' => reveal_strlit("--"),
        'N' => reveal_strlit("-."),
        'O' => reveal_strlit("---"),
        'P' => reveal_strlit(".--."),
        'Q' => reveal_strlit("--.-"),
        'R' => reveal_strlit(".-."),
        'S' => reveal_strlit("..."),
        'T' => reveal_strlit("-"),
        'U' => reveal_strlit("..-"),
        'V' => reveal_strlit("...-"),
        'W' => reveal_strlit(".--"),
        'X' => reveal_strlit("-..-"),
        'Y' => reveal_strlit("-.--"),
        'Z' => reveal_strlit("--.."),
        _ => {},
    }
}

proof fn lemma_signs(c: char)
    requires
        sign_code(c).0 > 0,
    ensures
        pattern_of_upper(c) is Some,
        has_marks(pattern_of_upper(c)->0@, sign_code(c)),
{
    match c {
        '.' => reveal_strlit(".-.-.-"),
        ',' => reveal_strlit("--..--"),
        '?' => reveal_strlit("..--.."),
        '\'' => reveal_strlit(".----."),
        '!' => reveal_strlit("-.-.--"),
        '/' => reveal_strlit("-..-."),
        '(' => reveal_strlit("-.--."),
        ')' => reveal_strlit("-.--.-"),
        '&' => reveal_strlit(".-..."),
        ':' => reveal_strlit("---..."),
        ';' => reveal_strlit("-.-.-."),
        '=' => reveal_strlit("-...-"),
        '+' => reveal_strlit(".-.-."),
        '-' => reveal_strlit("-....-"),
        '_' => reveal_strlit("..--.-"),
        '"' => reveal_strlit(".-..-."),
        '$' => reveal_strlit("...-..-"),
        '@' => reveal_strlit(".--.-."),
        _ => {},
    }
}

proof fn lemma_digits(c: char)
    requires
        '0' <= c <= '9',
    ensures
        pattern_of_upper(c) is Some,
        pattern_of_upper(c)->0@.len() == 5,
        forall|k: int|
            0 <= k < 5 ==> #[trigger] pattern_of_upper(c)->0@[k] == if digit_has_dash(
                c as int - '0' as int,
                k,
            ) {
                '-'
            } else {
                '.'
            },
{
    match c {
        '0' => reveal_strlit("-----"),
        '1' => reveal_strlit(".----"),
        '2' => reveal_strlit("..---"),
        '3' => reveal_strlit("...--"),
        '4' => reveal_strlit("....-"),
        '5' => reveal_strlit("....."),
        '6' => reveal_strlit("-...."),
        '7' => reveal_strlit("--..."),
        '8' => reveal_strlit("---.."),
        '9' => reveal_strlit("----."),
        _ => {},
    }
}

/// The keyer knows the international Morse code: the letters in either case, the
/// digits and the signs have their marks, and nothing else has any.
pub proof fn lemma_characters_have_their_marks(c: char, r: Option<&'static str>)
    requires
        call_ensures(char_to_morse, (c,), r),
    ensures
        r is Some <==> 'a' <= c <= 'z' || 'A' <= c <= 'Z' || '0' <= c <= '9' || sign_code(c).0 > 0,
        'A' <= c <= 'Z' ==> has_marks(r->0@, letter_code(c)),
        'a' <= c <= 'z' ==> has_marks(r->0@, letter_code((c as u32 - 32) as char)),
        sign_code(c).0 > 0 ==> has_marks(r->0@, sign_code(c)),
        '0' <= c <= '9' ==> r->0@.len() == 5 && forall|k: int|
            0 <= k < 5 ==> #[trigger] r->0@[k] == if digit_has_dash(c as int - '0' as int, k) {
                '-'
            } else {
                '.'
            },
{
    let u = ascii_upper(c);
    if letter_code(u).0 > 0 {
        lemma_letters(u);
    } else if sign_code(c).0 > 0 {
        lemma_signs(c);
    } else if '0' <= c <= '9' {
        lemma_digits(c);
    }
}

/// A character alone is keyed mark by mark, dits and dashes as its code has them, with
/// a gap of one dit between two of them.
pub proof fn lemma_character_is_keyed_mark_by_mark(
    text: &str,
    c: char,
    p: &'static str,
    elements: Vec<MorseElement>,
    k: int,
)
    requires
        text@ == seq![c],
        c != ' ',
        call_ensures(char_to_morse, (c,), Some(p)),
        call_ensures(text_to_elements, (text,), elements),
    ensures
        elements@.len() == 2 * p@.len() - 1,
        0 <= k < p@.len() ==> elements@[2 * k] == if p@[k] == '-' {
            MorseElement::Dash
        } else {
            MorseElement::Dit
        },
        0 <= k < p@.len() - 1 ==> elements@[2 * k + 1] is ElementGap,
{
    lemma_patterns_are_marks(c);
    let t = text@;
    assert(t.drop_last() =~= Seq::empty());
    assert(spaced_elements(t.drop_last()) =~= Seq::empty());
    assert(!ends_in_word(t.drop_last()));
    assert(spaced_elements(t) =~= mark_elements(p@));
    assert(is_mark(mark_elements(p@).last()));
    if 0 <= k < p@.len() {
        assert(p@[k] == '.' || p@[k] == '-');
    }
}

/// One more character of a word is keyed behind a letter gap.
pub proof fn lemma_letter_gap_joins_characters(text: Seq<char>, b: char, c: char)
    requires
        b != ' ' && c != ' ',
        morse_pattern(b) is Some,
        morse_pattern(c) is Some,
    ensures
        text_elements(text.push(b).push(c)) == text_elements(text.push(b))
            + seq![MorseElement::LetterGap] + text_elements(seq![c]),
{
    lemma_patterns_are_marks(b);
    lemma_patterns_are_marks(c);
    let t = text.push(b);
    assert(t.drop_last() =~= text);
    assert(t.push(c).drop_last() =~= t);
    assert(seq![c].drop_last() =~= Seq::empty());
    assert(spaced_elements(seq![c].drop_last()) =~= Seq::empty());
    assert(!ends_in_word(seq![c].drop_last()));
    let mb = mark_elements(morse_pattern(b)->0@);
    let mc = mark_elements(morse_pattern(c)->0@);
    assert(spaced_elements(seq![c]) =~= mc);
    assert(is_mark(mc.last()) && is_mark(mb.last()));
    assert(text_elements(seq![c]) == mc);
    let st = spaced_elements(t);
    assert(st.last() == mb.last());
    assert(text_elements(t) == st);
    let sc = spaced_elements(t.push(c));
    assert(ends_in_word(t));
    assert(sc =~= st + (seq![MorseElement::LetterGap] + mc));
    assert(sc.last() == mc.last());
    assert(text_elements(t.push(c)) == sc);
    assert(sc =~= st + seq![MorseElement::LetterGap] + mc);
}

} // verus!
