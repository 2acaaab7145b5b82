//! Morse code of characters and texts.

use vstd::prelude::*;

verus! {

/// One step of a keyed text.
#[derive(Debug, Clone, Copy, PartialEq, Eq, Structural)]
pub enum MorseElement {
    Dit,
    Dash,
    ElementGap,
    LetterGap,
    WordGap,
}

/// Number of characters in [`MORSE_TABLE`].
pub const MORSE_TABLE_LEN: usize = 54;

/// The known characters with their codes.
pub const MORSE_TABLE: [(char, &'static str); 54] = [
    ('A', ".-"),
    ('B', "-..."),
    ('C', "-.-."),
    ('D', "-.."),
    ('E', "."),
    ('F', "..-."),
    ('G', "--."),
    ('H', "...."),
    ('I', ".."),
    ('J', ".---"),
    ('K', "-.-"),
    ('L', ".-.."),
    ('M', "--"),
    ('N', "-."),
    ('O', "---"),
    ('P', ".--."),
    ('Q', "--.-"),
    ('R', ".-."),
    ('S', "..."),
    ('T', "-"),
    ('U', "..-"),
    ('V', "...-"),
    ('W', ".--"),
    ('X', "-..-"),
    ('Y', "-.--"),
    ('Z', "--.."),
    ('0', "-----"),
    ('1', ".----"),
    ('2', "..---"),
    ('3', "...--"),
    ('4', "....-"),
    ('5', "....."),
    ('6', "-...."),
    ('7', "--..."),
    ('8', "---.."),
    ('9', "----."),
    ('.', ".-.-.-"),
    (',', "--..--"),
    ('?', "..--.."),
    ('\'', ".----."),
    ('!', "-.-.--"),
    ('/', "-..-."),
    ('(', "-.--."),
    (')', "-.--.-"),
    ('&', ".-..."),
    (':', "---..."),
    (';', "-.-.-."),
    ('=', "-...-"),
    ('+', ".-.-."),
    ('-', "-....-"),
    ('_', "..--.-"),
    ('"', ".-..-."),
    ('$', "...-..-"),
    ('@', ".--.-."),
];

/// `c` with an ASCII lower-case letter raised to upper case.
pub open spec fn ascii_upper(c: char) -> char {
    if 'a' <= c <= 'z' {
        (c as u32 - 32) as char
    } else {
        c
    }
}

/// The code of an upper-case character, one `.` or `-` per mark.
pub open spec fn pattern_of_upper(c: char) -> Option<&'static str> {
    match c {
        'A' => Some(".-"),
        'B' => Some("-..."),
        'C' => Some("-.-."),
        'D' => Some("-.."),
        'E' => Some("."),
        'F' => Some("..-."),
        'G' => Some("--."),
        'H' => Some("...."),
        'I' => Some(".."),
        'J' => Some(".---"),
        'K' => Some("-.-"),
        'L' => Some(".-.."),
        'M' => Some("--"),
        'N' => Some("-."),
        'O' => Some("---"),
        'P' => Some(".--."),
        'Q' => Some("--.-"),
        'R' => Some(".-."),
        'S' => Some("..."),
        'T' => Some("-"),
        'U' => Some("..-"),
        'V' => Some("...-"),
        'W' => Some(".--"),
        'X' => Some("-..-"),
        'Y' => Some("-.--"),
        'Z' => Some("--.."),
        '0' => Some("-----"),
        '1' => Some(".----"),
        '2' => Some("..---"),
        '3' => Some("...--"),
        '4' => Some("....-"),
        '5' => Some("....."),
        '6' => Some("-...."),
        '7' => Some("--..."),
        '8' => Some("---.."),
        '9' => Some("----."),
        '.' => Some(".-.-.-"),
        ',' => Some("--..--"),
        '?' => Some("..--.."),
        '\'' => Some(".----."),
        '!' => Some("-.-.--"),
        '/' => Some("-..-."),
        '(' => Some("-.--."),
        ')' => Some("-.--.-"),
        '&' => Some(".-..."),
        ':' => Some("---..."),
        ';' => Some("-.-.-."),
        '=' => Some("-...-"),
        '+' => Some(".-.-."),
        '-' => Some("-....-"),
        '_' => Some("..--.-"),
        '"' => Some(".-..-."),
        '$' => Some("...-..-"),
        '@' => Some(".--.-."),
        _ => None,
    }
}

/// The code of a character in either case, where it has one.
pub open spec fn morse_pattern(c: char) -> Option<&'static str> {
    pattern_of_upper(ascii_upper(c))
}

/// The table lists exactly the characters that have a code, each with its code.
pub proof fn lemma_table_is_the_code()
    ensures
        forall|i: int|
            0 <= i < MORSE_TABLE_LEN ==> pattern_of_upper((#[trigger] MORSE_TABLE[i]).0) == Some(
                MORSE_TABLE[i].1,
            ),
        forall|c: char| #[trigger]
            pattern_of_upper(c) is Some ==> exists|i: int|
                0 <= i < MORSE_TABLE_LEN && (#[trigger] MORSE_TABLE[i]).0 == c,
{
    assert(MORSE_TABLE[0] == ('A', ".-"));
    assert(MORSE_TABLE[1] == ('B', "-..."));
    assert(MORSE_TABLE[2] == ('C', "-.-."));
    assert(MORSE_TABLE[3] == ('D', "-.."));
    assert(MORSE_TABLE[4] == ('E', "."));
    assert(MORSE_TABLE[5] == ('F', "..-."));
    assert(MORSE_TABLE[6] == ('G', "--."));
    assert(MORSE_TABLE[7] == ('H', "...."));
    assert(MORSE_TABLE[8] == ('I', ".."));
    assert(MORSE_TABLE[9] == ('J', ".---"));
    assert(MORSE_TABLE[10] == ('K', "-.-"));
    assert(MORSE_TABLE[11] == ('L', ".-.."));
    assert(MORSE_TABLE[12] == ('M', "--"));
    assert(MORSE_TABLE[13] == ('N', "-."));
    assert(MORSE_TABLE[14] == ('O', "---"));
    assert(MORSE_TABLE[15] == ('P', ".--."));
    assert(MORSE_TABLE[16] == ('Q', "--.-"));
    assert(MORSE_TABLE[17] == ('R', ".-."));
    assert(MORSE_TABLE[18] == ('S', "..."));
    assert(MORSE_TABLE[19] == ('T', "-"));
    assert(MORSE_TABLE[20] == ('U', "..-"));
    assert(MORSE_TABLE[21] == ('V', "...-"));
    assert(MORSE_TABLE[22] == ('W', ".--"));
    assert(MORSE_TABLE[23] == ('X', "-..-"));
    assert(MORSE_TABLE[24] == ('Y', "-.--"));
    assert(MORSE_TABLE[25] == ('Z', "--.."));
    assert(MORSE_TABLE[26] == ('0', "-----"));
    assert(MORSE_TABLE[27] == ('1', ".----"));
    assert(MORSE_TABLE[28] == ('2', "..---"));
    assert(MORSE_TABLE[29] == ('3', "...--"));
    assert(MORSE_TABLE[30] == ('4', "....-"));
    assert(MORSE_TABLE[31] == ('5', "....."));
    assert(MORSE_TABLE[32] == ('6', "-...."));
    assert(MORSE_TABLE[33] == ('7', "--..."));
    assert(MORSE_TABLE[34] == ('8', "---.."));
    assert(MORSE_TABLE[35] == ('9', "----."));
    assert(MORSE_TABLE[36] == ('.', ".-.-.-"));
    assert(MORSE_TABLE[37] == (',', "--..--"));
    assert(MORSE_TABLE[38] == ('?', "..--.."));
    assert(MORSE_TABLE[39] == ('\'', ".----."));
    assert(MORSE_TABLE[40] == ('!', "-.-.--"));
    assert(MORSE_TABLE[41] == ('/', "-..-."));
    assert(MORSE_TABLE[42] == ('(', "-.--."));
    assert(MORSE_TABLE[43] == (')', "-.--.-"));
    assert(MORSE_TABLE[44] == ('&', ".-..."));
    assert(MORSE_TABLE[45] == (':', "---..."));
    assert(MORSE_TABLE[46] == (';', "-.-.-."));
    assert(MORSE_TABLE[47] == ('=', "-...-"));
    assert(MORSE_TABLE[48] == ('+', ".-.-."));
    assert(MORSE_TABLE[49] == ('-', "-....-"));
    assert(MORSE_TABLE[50] == ('_', "..--.-"));
    assert(MORSE_TABLE[51] == ('"', ".-..-."));
    assert(MORSE_TABLE[52] == ('$', "...-..-"));
    assert(MORSE_TABLE[53] == ('@', ".--.-."));
    assert forall|i: int| 0 <= i < MORSE_TABLE_LEN implies pattern_of_upper(
        (#[trigger] MORSE_TABLE[i]).0,
    ) == Some(MORSE_TABLE[i].1) by {
        if i == 0 {
        } else if i == 1 {
        } else if i == 2 {
        } else if i == 3 {
        } else if i == 4 {
        } else if i == 5 {
        } else if i == 6 {
        } else if i == 7 {
        } else if i == 8 {
        } else if i == 9 {
        } else if i == 10 {
        } else if i == 11 {
        } else if i == 12 {
        } else if i == 13 {
        } else if i == 14 {
        } else if i == 15 {
        } else if i == 16 {
        } else if i == 17 {
        } else if i == 18 {
        } else if i == 19 {
        } else if i == 20 {
        } else if i == 21 {
        } else if i == 22 {
        } else if i == 23 {
        } else if i == 24 {
        } else if i == 25 {
        } else if i == 26 {
        } else if i == 27 {
        } else if i == 28 {
        } else if i == 29 {
        } else if i == 30 {
        } else if i == 31 {
        } else if i == 32 {
        } else if i == 33 {
        } else if i == 34 {
        } else if i == 35 {
        } else if i == 36 {
        } else if i == 37 {
        } else if i == 38 {
        } else if i == 39 {
        } else if i == 40 {
        } else if i == 41 {
        } else if i == 42 {
        } else if i == 43 {
        } else if i == 44 {
        } else if i == 45 {
        } else if i == 46 {
        } else if i == 47 {
        } else if i == 48 {
        } else if i == 49 {
        } else if i == 50 {
        } else if i == 51 {
        } else if i == 52 {
        } else if i == 53 {
        }
    }
}

/// Every code is a non-empty sequence of at most seven dots and dashes.
pub proof fn lemma_patterns_are_marks(c: char)
    requires
        morse_pattern(c) is Some,
    ensures
        1 <= morse_pattern(c)->0@.len() <= 7,
        forall|k: int|
            0 <= k < morse_pattern(c)->0@.len() ==> #[trigger] morse_pattern(c)->0@[k] == '.'
                || morse_pattern(c)->0@[k] == '-',
{
    reveal_strlit(".-");
    reveal_strlit("-...");
    reveal_strlit("-.-.");
    reveal_strlit("-..");
    reveal_strlit(".");
    reveal_strlit("..-.");
    reveal_strlit("--.");
    reveal_strlit("....");
    reveal_strlit("..");
    reveal_strlit(".---");
    reveal_strlit("-.-");
    reveal_strlit(".-..");
    reveal_strlit("--");
    reveal_strlit("-.");
    reveal_strlit("---");
    reveal_strlit(".--.");
    reveal_strlit("--.-");
    reveal_strlit(".-.");
    reveal_strlit("...");
    reveal_strlit("-");
    reveal_strlit("..-");
    reveal_strlit("...-");
    reveal_strlit(".--");
    reveal_strlit("-..-");
    reveal_strlit("-.--");
    reveal_strlit("--..");
    reveal_strlit("-----");
    reveal_strlit(".----");
    reveal_strlit("..---");
    reveal_strlit("...--");
    reveal_strlit("....-");
    reveal_strlit(".....");
    reveal_strlit("-....");
    reveal_strlit("--...");
    reveal_strlit("---..");
    reveal_strlit("----.");
    reveal_strlit(".-.-.-");
    reveal_strlit("--..--");
    reveal_strlit("..--..");
    reveal_strlit(".----.");
    reveal_strlit("-.-.--");
    reveal_strlit("-..-.");
    reveal_strlit("-.--.");
    reveal_strlit("-.--.-");
    reveal_strlit(".-...");
    reveal_strlit("---...");
    reveal_strlit("-.-.-.");
    reveal_strlit("-...-");
    reveal_strlit(".-.-.");
    reveal_strlit("-....-");
    reveal_strlit("..--.-");
    reveal_strlit(".-..-.");
    reveal_strlit("...-..-");
    reveal_strlit(".--.-.");
}

/// The Morse code of a character, in either case; `None` for a character
/// without one.
pub fn char_to_morse(c: char) -> (r: Option<&'static str>)
    ensures
        r == morse_pattern(c),
{
    let upper: char = if c >= 'a' && c <= 'z' {
        ((c as u8) - 32) as char
    } else {
        c
    };
    proof {
        lemma_table_is_the_code();
    }
    let mut i: usize = 0;
    while i < MORSE_TABLE_LEN
        invariant
            i <= MORSE_TABLE_LEN,
            upper == ascii_upper(c),
            forall|j: int| 0 <= j < i ==> (#[trigger] MORSE_TABLE[j]).0 != upper,
            forall|j: int|
                0 <= j < MORSE_TABLE_LEN ==> pattern_of_upper((#[trigger] MORSE_TABLE[j]).0)
                    == Some(MORSE_TABLE[j].1),
        decreases MORSE_TABLE_LEN - i,
    {
        if MORSE_TABLE[i].0 == upper {
            return Some(MORSE_TABLE[i].1);
        }
        i = i + 1;
    }
    None
}

/// The marks of one character with an element gap between each two.
pub open spec fn mark_elements(pattern: Seq<char>) -> Seq<MorseElement> {
    if pattern.len() == 0 {
        Seq::empty()
    } else {
        Seq::new(
            (2 * pattern.len() - 1) as nat,
            |k: int|
                if k % 2 == 1 {
                    MorseElement::ElementGap
                } else if pattern[k / 2] == '.' {
                    MorseElement::Dit
                } else {
                    MorseElement::Dash
                },
        )
    }
}

/// Whether a text ends inside a word: a character with a code has come since
/// the last space.
pub open spec fn ends_in_word(text: Seq<char>) -> bool
    decreases text.len(),
{
    if text.len() == 0 || text.last() == ' ' {
        false
    } else {
        morse_pattern(text.last()) is Some || ends_in_word(text.drop_last())
    }
}

/// What one more character adds to the elements of the text before it.
pub open spec fn char_elements(before: Seq<char>, c: char) -> Seq<MorseElement> {
    if c == ' ' {
        seq![MorseElement::WordGap]
    } else {
        match morse_pattern(c) {
            Some(p) => if ends_in_word(before) {
                seq![MorseElement::LetterGap] + mark_elements(p@)
            } else {
                mark_elements(p@)
            },
            None => Seq::empty(),
        }
    }
}

/// The elements of a text and of the spaces behind it: characters without a code
/// are left out, a space is a word gap, and a letter gap stands between the
/// characters of a word.
pub open spec fn spaced_elements(text: Seq<char>) -> Seq<MorseElement>
    decreases text.len(),
{
    if text.len() == 0 {
        Seq::empty()
    } else {
        spaced_elements(text.drop_last()) + char_elements(text.drop_last(), text.last())
    }
}

/// Whether an element keys the transmitter.
pub open spec fn is_mark(e: MorseElement) -> bool {
    e is Dit || e is Dash
}

/// Elements without the gaps at their end.
pub open spec fn without_trailing_gaps(elements: Seq<MorseElement>) -> Seq<MorseElement>
    decreases elements.len(),
{
    if elements.len() > 0 && !is_mark(elements.last()) {
        without_trailing_gaps(elements.drop_last())
    } else {
        elements
    }
}

/// The elements of a text, without gaps at their end.
pub open spec fn text_elements(text: Seq<char>) -> Seq<MorseElement> {
    without_trailing_gaps(spaced_elements(text))
}

/// The gaps of a text are well placed: two neighbours are never both marks,
/// an element or letter gap stands between two marks, and a text that ends in a
/// word ends in a mark.
pub open spec fn well_spaced(elements: Seq<MorseElement>) -> bool {
    forall|i: int|
        0 <= i < elements.len() ==> {
            &&& (is_mark(#[trigger] elements[i]) && i + 1 < elements.len() ==> !is_mark(
                elements[i + 1],
            ))
            &&& (elements[i] is ElementGap || elements[i] is LetterGap ==> i > 0
                && i + 1 < elements.len() && is_mark(elements[i - 1]) && is_mark(elements[i + 1]))
        }
}

proof fn lemma_mark_elements(pattern: Seq<char>)
    requires
        pattern.len() > 0,
    ensures
        well_spaced(mark_elements(pattern)),
        is_mark(mark_elements(pattern)[0]),
        is_mark(mark_elements(pattern).last()),
{
}

proof fn lemma_spaced_elements(text: Seq<char>)
    ensures
        well_spaced(spaced_elements(text)),
        spaced_elements(text).len() > 0 ==> (is_mark(spaced_elements(text).last())
            || spaced_elements(text).last() is WordGap),
        ends_in_word(text) <==> spaced_elements(text).len() > 0 && is_mark(
            spaced_elements(text).last(),
        ),
    decreases text.len(),
{
    if text.len() > 0 {
        let before = text.drop_last();
        let c = text.last();
        lemma_spaced_elements(before);
        assert(ascii_upper(' ') == ' ');
        if c != ' ' && morse_pattern(c) is Some {
            lemma_patterns_are_marks(c);
            lemma_mark_elements(morse_pattern(c)->0@);
        }
        let a = spaced_elements(before);
        let b = char_elements(before, c);
        assert(spaced_elements(text) == a + b);
        if b.len() > 0 {
            assert((a + b).last() == b.last());
        } else {
            assert(a + b == a);
        }
    }
}

proof fn lemma_trimmed_is_well_spaced(elements: Seq<MorseElement>)
    requires
        well_spaced(elements),
        elements.len() > 0 ==> is_mark(elements.last()) || elements.last() is WordGap,
    ensures
        well_spaced(without_trailing_gaps(elements)),
        without_trailing_gaps(elements).len() > 0 ==> is_mark(
            without_trailing_gaps(elements).last(),
        ),
    decreases elements.len(),
{
    if elements.len() > 0 && !is_mark(elements.last()) {
        let rest = elements.drop_last();
        assert forall|i: int| 0 <= i < rest.len() implies {
            &&& (is_mark(#[trigger] rest[i]) && i + 1 < rest.len() ==> !is_mark(rest[i + 1]))
            &&& (rest[i] is ElementGap || rest[i] is LetterGap ==> i > 0 && i + 1 < rest.len()
                && is_mark(rest[i - 1]) && is_mark(rest[i + 1]))
        } by {
            assert(elements[i] == rest[i]);
        }
        if rest.len() > 0 {
            assert(elements[rest.len() - 1] == rest.last());
        }
        lemma_trimmed_is_well_spaced(rest);
    }
}

/// Element and letter gaps only ever stand between two marks, no two marks
/// touch, and there is no gap at the end.
pub proof fn lemma_text_is_well_spaced(text: Seq<char>)
    ensures
        well_spaced(text_elements(text)),
        text_elements(text).len() > 0 ==> is_mark(text_elements(text).last()),
{
    lemma_spaced_elements(text);
    lemma_trimmed_is_well_spaced(spaced_elements(text));
}

proof fn lemma_suffix_elements(a: Seq<char>, b: Seq<char>)
    ensures
        ends_in_word(a + seq![' '] + b) == ends_in_word(b),
        spaced_elements(a + seq![' '] + b) == spaced_elements(a) + seq![MorseElement::WordGap]
            + spaced_elements(b),
    decreases b.len(),
{
    let joined = a + seq![' '] + b;
    if b.len() == 0 {
        assert(joined == a.push(' '));
        assert(joined.drop_last() == a);
        assert(spaced_elements(joined) == spaced_elements(a) + seq![MorseElement::WordGap]);
        assert(spaced_elements(a) + seq![MorseElement::WordGap] + spaced_elements(b) == spaced_elements(a)
            + seq![MorseElement::WordGap]);
    } else {
        lemma_suffix_elements(a, b.drop_last());
        assert(joined.drop_last() == a + seq![' '] + b.drop_last());
        assert(joined.last() == b.last());
        assert(char_elements(joined.drop_last(), joined.last()) == char_elements(
            b.drop_last(),
            b.last(),
        ));
        assert(spaced_elements(joined) == spaced_elements(a) + seq![MorseElement::WordGap]
            + spaced_elements(b));
    }
}

proof fn lemma_trim_of_sum(a: Seq<MorseElement>, b: Seq<MorseElement>)
    requires
        without_trailing_gaps(b).len() > 0,
    ensures
        without_trailing_gaps(a + b) == a + without_trailing_gaps(b),
    decreases b.len(),
{
    assert((a + b).last() == b.last());
    if !is_mark(b.last()) {
        assert((a + b).drop_last() =~= a + b.drop_last());
        lemma_trim_of_sum(a, b.drop_last());
    }
}

/// Words are keyed independently: a space between two texts becomes one word
/// gap between their elements, if the first text has no spaces at its end and
/// there is something to key in the second.
pub proof fn lemma_words_are_independent(a: Seq<char>, b: Seq<char>)
    requires
        text_elements(a) == spaced_elements(a),
        text_elements(b).len() > 0,
    ensures
        text_elements(a + seq![' '] + b) == text_elements(a) + seq![MorseElement::WordGap]
            + text_elements(b),
{
    lemma_suffix_elements(a, b);
    lemma_trim_of_sum(spaced_elements(a) + seq![MorseElement::WordGap], spaced_elements(b));
}

/// Spaces at the end of a text add nothing.
pub proof fn lemma_trailing_space_is_dropped(text: Seq<char>)
    ensures
        text_elements(text.push(' ')) == text_elements(text),
{
    let longer = text.push(' ');
    assert(longer.drop_last() =~= text);
    let s = spaced_elements(text);
    assert(spaced_elements(longer) =~= s + seq![MorseElement::WordGap]);
    assert(spaced_elements(longer).drop_last() =~= s);
}

/// Whether a character is keyed or parts words; others are left out.
pub open spec fn is_keyed(c: char) -> bool {
    c == ' ' || morse_pattern(c) is Some
}

proof fn lemma_left_out(text: Seq<char>)
    ensures
        ends_in_word(text.filter(|c: char| is_keyed(c))) == ends_in_word(text),
        spaced_elements(text.filter(|c: char| is_keyed(c))) == spaced_elements(text),
    decreases text.len(),
{
    reveal(Seq::filter);
    let keyed = |c: char| is_keyed(c);
    if text.len() > 0 {
        let before = text.drop_last();
        let c = text.last();
        lemma_left_out(before);
        if is_keyed(c) {
            let kept = before.filter(keyed);
            assert(text.filter(keyed) == kept.push(c));
            assert(kept.push(c).drop_last() =~= kept);
        } else {
            assert(text.filter(keyed) == before.filter(keyed));
            assert(spaced_elements(text) =~= spaced_elements(before));
        }
    }
}

/// Characters without a code are skipped: a text is keyed as if they were not there.
pub proof fn lemma_unknown_characters_are_skipped(text: Seq<char>)
    ensures
        text_elements(text) == text_elements(text.filter(|c: char| is_keyed(c))),
{
    lemma_left_out(text);
}

/// Appends the marks of `pattern`, with an element gap between each two.
fn push_marks(elements: &mut Vec<MorseElement>, pattern: &str)
    requires
        forall|k: int|
            0 <= k < pattern@.len() ==> #[trigger] pattern@[k] == '.' || pattern@[k] == '-',
    ensures
        final(elements)@ == old(elements)@ + mark_elements(pattern@),
{
    let ghost start = elements@;
    let ghost p = pattern@;
    let mut first: bool = true;
    for symbol in it: pattern.chars()
        invariant
            it.seq() == p,
            p == pattern@,
            first == (it.index() == 0),
            elements@ == start + mark_elements(p.take(it.index())),
            forall|k: int| 0 <= k < p.len() ==> #[trigger] p[k] == '.' || p[k] == '-',
    {
        let ghost done = p.take(it.index());
        let ghost next = p.take(it.index() + 1);
        if !first {
            elements.push(MorseElement::ElementGap);
        }
        if symbol == '.' {
            elements.push(MorseElement::Dit);
        } else if symbol == '-' {
            elements.push(MorseElement::Dash);
        }
        first = false;
        proof {
            assert(symbol == p[it.index()]);
            assert(next == done.push(symbol));
            assert(elements@ =~= start + mark_elements(next));
        }
    }
    assert(p.take(p.len() as int) == p);
}

fn is_gap(e: MorseElement) -> (r: bool)
    ensures
        r == !is_mark(e),
{
    match e {
        MorseElement::Dit | MorseElement::Dash => false,
        _ => true,
    }
}

/// The element sequence that keys `text`.
pub fn text_to_elements(text: &str) -> (elements: Vec<MorseElement>)
    ensures
        elements@ == text_elements(text@),
{
    let ghost all = text@;
    let mut elements: Vec<MorseElement> = Vec::new();
    let mut first_char: bool = true;
    for c in it: text.chars()
        invariant
            it.seq() == all,
            all == text@,
            elements@ == spaced_elements(all.take(it.index())),
            first_char == !ends_in_word(all.take(it.index())),
    {
        let ghost before = all.take(it.index());
        let ghost after = all.take(it.index() + 1);
        proof {
            assert(c == all[it.index()]);
            assert(after.drop_last() == before);
            assert(after.last() == c);
            assert(ascii_upper(' ') == ' ');
        }
        if c == ' ' {
            elements.push(MorseElement::WordGap);
            first_char = true;
            assert(elements@ =~= spaced_elements(before) + char_elements(before, c));
        } else {
            match char_to_morse(c) {
                Some(pattern) => {
                    proof {
                        lemma_patterns_are_marks(c);
                    }
                    if !first_char {
                        elements.push(MorseElement::LetterGap);
                    }
                    first_char = false;
                    push_marks(&mut elements, pattern);
                    assert(elements@ =~= spaced_elements(before) + char_elements(before, c));
                },
                None => {
                    assert(elements@ =~= spaced_elements(before) + char_elements(before, c));
                },
            }
        }
    }
    assert(all.take(all.len() as int) == all);
    while elements.len() > 0 && is_gap(elements[elements.len() - 1])
        invariant
            without_trailing_gaps(elements@) == text_elements(all),
        decreases elements@.len(),
    {
        let _ = elements.pop();
    }
    elements
}

} // verus!
