//! What the decoder reads of a text that the keyer's element table produces.

use crate::decoder::{
    between_chars, code_of, dit_us, heard, keyed_us, lemma_code_bounds, lemma_dit_positive,
    lemma_marks_are_counted, lemma_table_inverts_morse, mark_us, DecoderModel, LineState,
    HISTORY_CAPACITY, LOOKUP, SPACE,
};
use crate::keyer::morse::{
    char_elements, ends_in_word, is_mark, lemma_patterns_are_marks, mark_elements,
    morse_pattern, spaced_elements, text_elements, MorseElement,
};
use vstd::prelude::*;

verus! {

/// Length of an element keyed with exact timing.
pub open spec fn element_us(e: MorseElement, dit: int) -> int {
    match e {
        MorseElement::Dit => dit,
        MorseElement::Dash => 3 * dit,
        MorseElement::ElementGap => dit,
        MorseElement::LetterGap => 3 * dit,
        MorseElement::WordGap => 7 * dit,
    }
}

/// Length of several elements keyed with exact timing.
pub open spec fn elements_us(elements: Seq<MorseElement>, dit: int) -> int
    decreases elements.len(),
{
    if elements.len() == 0 {
        0
    } else {
        elements_us(elements.drop_last(), dit) + element_us(elements.last(), dit)
    }
}

/// The decoder after elements have been keyed from `start_us` on with exact timing:
/// each mark is a press and a release of the key, and nothing is polled.
pub open spec fn elements_heard(
    m: DecoderModel,
    elements: Seq<MorseElement>,
    start_us: int,
    wpm: u8,
) -> DecoderModel
    decreases elements.len(),
{
    if elements.len() == 0 {
        m
    } else {
        let before = elements_heard(m, elements.drop_last(), start_us, wpm);
        let from = start_us + elements_us(elements.drop_last(), dit_us(wpm));
        let to = from + element_us(elements.last(), dit_us(wpm));
        if is_mark(elements.last()) {
            before.on_transition(from, true, wpm).on_transition(to, false, wpm)
        } else {
            before
        }
    }
}

/// A character that the decoder can give out.
pub open spec fn is_decodable(c: char) -> bool {
    'A' <= c <= 'Z' || '0' <= c <= '9' || c == '=' || c == '/' || c == '?' || c == '.' || c == ','
}

/// A text of such characters in words with one space between each two. The last
/// space may still wait for its word.
pub open spec fn is_readable(text: Seq<char>) -> bool {
    &&& text.len() <= HISTORY_CAPACITY
    &&& forall|k: int|
        0 <= k < text.len() ==> is_decodable(#[trigger] text[k]) || (text[k] == ' ' && k > 0
            && text[k - 1] != ' ')
}

/// The characters of a text as bytes.
pub open spec fn text_bytes(text: Seq<char>) -> Seq<u8> {
    Seq::new(text.len(), |k: int| text[k] as u8)
}

pub(crate) proof fn lemma_decodable_has_code(c: char)
    requires
        is_decodable(c),
    ensures
        c != ' ',
        morse_pattern(c) is Some,
        1 < code_of(morse_pattern(c)->0@) < 128,
        LOOKUP[code_of(morse_pattern(c)->0@)] == c as u8,
        LOOKUP[code_of(morse_pattern(c)->0@)] != 0,
{
    assert(LOOKUP[2] == 69 && LOOKUP[3] == 84 && LOOKUP[4] == 73 && LOOKUP[5] == 65);
    assert(LOOKUP[6] == 78 && LOOKUP[7] == 77 && LOOKUP[8] == 83 && LOOKUP[9] == 85);
    assert(LOOKUP[10] == 82 && LOOKUP[11] == 87 && LOOKUP[12] == 68 && LOOKUP[13] == 75);
    assert(LOOKUP[14] == 71 && LOOKUP[15] == 79 && LOOKUP[16] == 72 && LOOKUP[17] == 86);
    assert(LOOKUP[18] == 70 && LOOKUP[20] == 76 && LOOKUP[22] == 80 && LOOKUP[23] == 74);
    assert(LOOKUP[24] == 66 && LOOKUP[25] == 88 && LOOKUP[26] == 67 && LOOKUP[27] == 89);
    assert(LOOKUP[28] == 90 && LOOKUP[29] == 81 && LOOKUP[32] == 53 && LOOKUP[33] == 52);
    assert(LOOKUP[35] == 51 && LOOKUP[39] == 50 && LOOKUP[47] == 49 && LOOKUP[48] == 54);
    assert(LOOKUP[49] == 61 && LOOKUP[50] == 47 && LOOKUP[56] == 55 && LOOKUP[60] == 56);
    assert(LOOKUP[62] == 57 && LOOKUP[63] == 48 && LOOKUP[76] == 63 && LOOKUP[85] == 46);
    assert(LOOKUP[115] == 44);
    let i: int = match c {
        'A' => 5,
        'B' => 24,
        'C' => 26,
        'D' => 12,
        'E' => 2,
        'F' => 18,
        'G' => 14,
        'H' => 16,
        'I' => 4,
        'J' => 23,
        'K' => 13,
        'L' => 20,
        'M' => 7,
        'N' => 6,
        'O' => 15,
        'P' => 22,
        'Q' => 29,
        'R' => 10,
        'S' => 8,
        'T' => 3,
        'U' => 9,
        'V' => 17,
        'W' => 11,
        'X' => 25,
        'Y' => 27,
        'Z' => 28,
        '0' => 63,
        '1' => 47,
        '2' => 39,
        '3' => 35,
        '4' => 33,
        '5' => 32,
        '6' => 48,
        '7' => 56,
        '8' => 60,
        '9' => 62,
        '=' => 49,
        '/' => 50,
        '?' => 76,
        '.' => 85,
        _ => 115,
    };
    assert(LOOKUP[i] as char == c);
    lemma_table_inverts_morse(i);
}

proof fn lemma_heard_in_parts(
    m: DecoderModel,
    a: Seq<MorseElement>,
    b: Seq<MorseElement>,
    start_us: int,
    wpm: u8,
)
    ensures
        elements_us(a + b, dit_us(wpm)) == elements_us(a, dit_us(wpm)) + elements_us(
            b,
            dit_us(wpm),
        ),
        elements_heard(m, a + b, start_us, wpm) == elements_heard(
            elements_heard(m, a, start_us, wpm),
            b,
            start_us + elements_us(a, dit_us(wpm)),
            wpm,
        ),
    decreases b.len(),
{
    if b.len() == 0 {
        assert(a + b =~= a);
    } else {
        assert((a + b).drop_last() =~= a + b.drop_last());
        assert((a + b).last() == b.last());
        lemma_heard_in_parts(m, a, b.drop_last(), start_us, wpm);
    }
}

proof fn lemma_marks_are_heard(m: DecoderModel, pattern: Seq<char>, start_us: int, wpm: u8)
    requires
        pattern.len() > 0,
        forall|k: int| 0 <= k < pattern.len() ==> #[trigger] pattern[k] == '.' || pattern[k] == '-',
    ensures
        elements_us(mark_elements(pattern), dit_us(wpm)) == keyed_us(pattern, dit_us(wpm)) - dit_us(
            wpm,
        ),
        elements_heard(m, mark_elements(pattern), start_us, wpm) == heard(
            m,
            pattern,
            start_us,
            wpm,
        ),
    decreases pattern.len(),
{
    let dit = dit_us(wpm);
    let init = pattern.drop_last();
    let all = mark_elements(pattern);
    let mark = all.last();
    assert(pattern.last() == pattern[pattern.len() - 1]);
    assert(is_mark(mark) && element_us(mark, dit) == mark_us(pattern.last(), dit));
    if init.len() == 0 {
        assert(all.drop_last() =~= Seq::empty());
        assert(keyed_us(init, dit) == 0);
        assert(heard(m, init, start_us, wpm) == m);
        assert(elements_us(all.drop_last(), dit) == 0);
        assert(elements_heard(m, all.drop_last(), start_us, wpm) == m);
    } else {
        assert forall|k: int| 0 <= k < init.len() implies #[trigger] init[k] == '.' || init[k]
            == '-' by {
            assert(init[k] == pattern[k]);
        }
        lemma_marks_are_heard(m, init, start_us, wpm);
        let gapped = all.drop_last();
        assert(gapped.last() is ElementGap);
        assert(gapped.drop_last() =~= mark_elements(init));
        assert(elements_us(gapped, dit) == keyed_us(init, dit));
        assert(elements_heard(m, gapped, start_us, wpm) == heard(m, init, start_us, wpm));
    }
}

/// Polling at the moment at which the key goes down changes nothing.
proof fn lemma_press_ends_the_gap(m: DecoderModel, pattern: Seq<char>, now_us: int, wpm: u8)
    requires
        pattern.len() > 0,
        m.line is Up,
    ensures
        heard(m, pattern, now_us, wpm) == heard(m.poll(now_us, wpm), pattern, now_us, wpm),
    decreases pattern.len(),
{
    lemma_dit_positive(wpm);
    let init = pattern.drop_last();
    if init.len() == 0 {
        let q = m.poll(now_us, wpm);
        assert(heard(m, init, now_us, wpm) == m);
        assert(heard(q, init, now_us, wpm) == q);
        assert(keyed_us(init, dit_us(wpm)) == 0);
        assert(q.char_ended() == q || q == m);
        assert(m.on_transition(now_us, true, wpm) == q.on_transition(now_us, true, wpm));
    } else {
        lemma_press_ends_the_gap(m, init, now_us, wpm);
    }
}

/// The decoder after the elements of a text, as far as it has heard them: the last
/// character still waits for the gap behind it to be noticed.
pub open spec fn has_heard(m: DecoderModel, text: Seq<char>, now_us: int, wpm: u8) -> bool {
    if text.len() == 0 {
        m == DecoderModel::fresh()
    } else {
        let spaced = text.last() == ' ';
        let word = if spaced {
            text.drop_last()
        } else {
            text
        };
        m == (DecoderModel {
            line: LineState::Up,
            since_us: now_us - (if spaced {
                7 * dit_us(wpm)
            } else {
                0
            }),
            code: code_of(morse_pattern(word.last())->0@),
            space_emitted: false,
            text: text_bytes(word.drop_last()),
        })
    }
}

proof fn lemma_gap_is_noticed(m: DecoderModel, text: Seq<char>, now_us: int, gap_us: int, wpm: u8)
    requires
        has_heard(m, text, now_us, wpm),
        is_readable(text),
        text.len() > 0,
        text.last() == ' ' ==> gap_us == 0,
        text.last() != ' ' ==> 2 * dit_us(wpm) <= gap_us < 6 * dit_us(wpm),
    ensures
        m.poll(now_us + gap_us, wpm).text == text_bytes(text),
        between_chars(m.poll(now_us + gap_us, wpm), now_us + gap_us, wpm),
{
    lemma_dit_positive(wpm);
    let n = text.len();
    assert(text.last() == text[n - 1]);
    let word = if text.last() == ' ' {
        text.drop_last()
    } else {
        text
    };
    if text.last() == ' ' {
        assert(is_decodable(text[n - 2]) || text[n - 2] == ' ');
        assert(word.last() == text[n - 2]);
    }
    lemma_decodable_has_code(word.last());
    lemma_code_bounds(morse_pattern(word.last())->0@);
    assert(text_bytes(word.drop_last()).push(word.last() as u8) =~= text_bytes(word));
    assert(m.char_ended().text == text_bytes(word));
    if text.last() == ' ' {
        assert(SPACE == ' ' as u8);
        assert(text_bytes(word).push(SPACE) =~= text_bytes(text));
    }
}

proof fn lemma_one_element(m: DecoderModel, e: MorseElement, now_us: int, wpm: u8)
    requires
        !is_mark(e),
    ensures
        elements_us(seq![e], dit_us(wpm)) == element_us(e, dit_us(wpm)),
        elements_heard(m, seq![e], now_us, wpm) == m,
{
    let one = seq![e];
    assert(one.drop_last() =~= Seq::empty());
    assert(elements_us(one.drop_last(), dit_us(wpm)) == 0);
    assert(elements_heard(m, one.drop_last(), now_us, wpm) == m);
}

proof fn lemma_char_is_heard(m: DecoderModel, before: Seq<char>, c: char, now_us: int, wpm: u8)
    requires
        has_heard(m, before, now_us, wpm),
        is_readable(before),
        is_decodable(c),
        ends_in_word(before) == (before.len() > 0 && before.last() != ' '),
        now_us >= 0,
    ensures
        ({
            let b = char_elements(before, c);
            let end = now_us + elements_us(b, dit_us(wpm));
            &&& elements_us(b, dit_us(wpm)) >= 0
            &&& has_heard(elements_heard(m, b, now_us, wpm), before.push(c), end, wpm)
        }),
{
    let dit = dit_us(wpm);
    lemma_dit_positive(wpm);
    lemma_decodable_has_code(c);
    lemma_patterns_are_marks(c);
    let p = morse_pattern(c)->0@;
    let b = char_elements(before, c);
    let gap: int = if ends_in_word(before) {
        3 * dit
    } else {
        0
    };
    let from = now_us + gap;
    if ends_in_word(before) {
        lemma_one_element(m, MorseElement::LetterGap, now_us, wpm);
        lemma_heard_in_parts(
            m,
            seq![MorseElement::LetterGap],
            mark_elements(p),
            now_us,
            wpm,
        );
    }
    lemma_marks_are_heard(m, p, from, wpm);
    assert(elements_us(b, dit) == gap + keyed_us(p, dit) - dit);
    assert(elements_heard(m, b, now_us, wpm) == heard(m, p, from, wpm));
    let q = m.poll(from, wpm);
    if before.len() > 0 {
        lemma_gap_is_noticed(m, before, now_us, gap, wpm);
        lemma_press_ends_the_gap(m, p, from, wpm);
    } else {
        assert(text_bytes(before) =~= Seq::empty());
    }
    lemma_marks_are_counted(q, p, from, wpm);
    lemma_keyed_time(p, dit);
    let text = before.push(c);
    assert(text.drop_last() =~= before);
    assert(text.last() == c);
}

proof fn lemma_text_is_heard(text: Seq<char>, start_us: int, wpm: u8)
    requires
        is_readable(text),
        start_us >= 0,
    ensures
        has_heard(
            elements_heard(DecoderModel::fresh(), spaced_elements(text), start_us, wpm),
            text,
            start_us + elements_us(spaced_elements(text), dit_us(wpm)),
            wpm,
        ),
        ends_in_word(text) == (text.len() > 0 && text.last() != ' '),
        elements_us(spaced_elements(text), dit_us(wpm)) >= 0,
    decreases text.len(),
{
    let dit = dit_us(wpm);
    lemma_dit_positive(wpm);
    if text.len() > 0 {
        let before = text.drop_last();
        let c = text.last();
        assert(c == text[text.len() - 1]);
        assert forall|k: int| 0 <= k < before.len() implies is_decodable(#[trigger] before[k]) || (
        before[k] == ' ' && k > 0 && before[k - 1] != ' ') by {
            assert(before[k] == text[k]);
            if k > 0 {
                assert(before[k - 1] == text[k - 1]);
            }
        }
        lemma_text_is_heard(before, start_us, wpm);
        let a = spaced_elements(before);
        let b = char_elements(before, c);
        let m = elements_heard(DecoderModel::fresh(), a, start_us, wpm);
        let now = start_us + elements_us(a, dit);
        lemma_heard_in_parts(DecoderModel::fresh(), a, b, start_us, wpm);
        if c == ' ' {
            assert(before.last() == text[text.len() - 2]);
            lemma_one_element(m, MorseElement::WordGap, now, wpm);
        } else {
            lemma_decodable_has_code(c);
            lemma_char_is_heard(m, before, c, now, wpm);
            assert(before.push(c) =~= text);
        }
    }
}

proof fn lemma_keyed_time(pattern: Seq<char>, dit: int)
    requires
        dit > 0,
    ensures
        keyed_us(pattern, dit) >= dit * (if pattern.len() > 0 {
            1int
        } else {
            0
        }),
    decreases pattern.len(),
{
    if pattern.len() > 0 {
        lemma_keyed_time(pattern.drop_last(), dit);
    }
}

/// A text of up to 32 letters, digits and signs, with one space between each two
/// words, is read back: a fresh decoder that hears the elements which the keyer makes
/// of the text, dits one unit and dashes three units long with gaps of one, three and
/// seven units, and that is polled once, four units after the last mark, holds
/// exactly the text.
pub proof fn lemma_keyer_text_is_read(text: Seq<char>, start_us: int, wpm: u8)
    requires
        text.len() > 0,
        is_readable(text),
        text.last() != ' ',
        start_us >= 0,
    ensures
        ({
            let elements = text_elements(text);
            let end = start_us + elements_us(elements, dit_us(wpm));
            let m = elements_heard(DecoderModel::fresh(), elements, start_us, wpm);
            m.poll(end + 4 * dit_us(wpm), wpm).text == text_bytes(text)
        }),
{
    lemma_dit_positive(wpm);
    lemma_text_is_heard(text, start_us, wpm);
    let elements = spaced_elements(text);
    let c = text.last();
    assert(c == text[text.len() - 1]);
    lemma_decodable_has_code(c);
    lemma_patterns_are_marks(c);
    let b = char_elements(text.drop_last(), c);
    assert(is_mark(b.last()));
    assert(elements.last() == b.last());
    assert(text_elements(text) == elements);
    lemma_gap_is_noticed(
        elements_heard(DecoderModel::fresh(), elements, start_us, wpm),
        text,
        start_us + elements_us(elements, dit_us(wpm)),
        4 * dit_us(wpm),
        wpm,
    );
}

} // verus!
