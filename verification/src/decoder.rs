//! Morse decoder.
//!
//! The decoder is fed with the transitions of a key line and with the speed at
//! which they are keyed. A pulse of two dits or more counts as a dash, a gap of
//! two dits or more ends a character, and a gap of six dits or more ends a
//! word. The decoded text is kept in a bounded history.

use crate::keyer::morse::morse_pattern;
use crate::ring::{
    history_as_slices, history_clear, history_contents, history_is_empty, history_is_full,
    history_len, history_new, history_pop_front, history_push_back, remembered,
};
use vstd::prelude::*;

verus! {

/// Number of characters that the history keeps.
pub const HISTORY_CAPACITY: usize = 32;

/// The character of each mark code. A code starts at 1 and is doubled for each
/// mark, with 1 added for a dash; 0 stands for a code without a character.
pub const LOOKUP: [u8; 128] = [
    0, 0, 69, 84, 73, 65, 78, 77,  // . . E T I A N M
    83, 85, 82, 87, 68, 75, 71, 79,  // S U R W D K G O
    72, 86, 70, 0, 76, 0, 80, 74,  // H V F . L . P J
    66, 88, 67, 89, 90, 81, 0, 0,  // B X C Y Z Q . .
    53, 52, 0, 51, 0, 0, 0, 50,  // 5 4 . 3 . . . 2
    0, 0, 0, 0, 0, 0, 0, 49,  // . . . . . . . 1
    54, 61, 47, 0, 0, 0, 0, 0,  // 6 = / . . . . .
    55, 0, 0, 0, 56, 0, 57, 48,  // 7 . . . 8 . 9 0
    0, 0, 0, 0, 0, 0, 0, 0,  // . . . . . . . .
    0, 0, 0, 0, 63, 0, 0, 0,  // . . . . ? . . .
    0, 0, 0, 0, 0, 46, 0, 0,  // . . . . . . . .
    0, 0, 0, 0, 0, 0, 0, 0,  // . . . . . . . .
    0, 0, 0, 0, 0, 0, 0, 0,  // . . . . . . . .
    0, 0, 0, 0, 0, 0, 0, 0,  // . . . . . . . .
    0, 0, 0, 44, 0, 0, 0, 0,  // . . . , . . . .
    0, 0, 0, 0, 0, 0, 0, 0,  // . . . . . . . .
];

/// The character that stands for a word gap.
pub const SPACE: u8 = 32;

/// What the decoder last heard of the key line.
#[derive(Clone, Copy, PartialEq, Eq, Structural)]
pub enum LineState {
    Idle,
    Down,
    Up,
}

/// The decoder's state as mathematical values.
#[verifier::ext_equal]
pub struct DecoderModel {
    pub line: LineState,
    /// Time of the last transition.
    pub since_us: int,
    /// Code of the marks heard since the last character, 0 once there were too many.
    pub code: int,
    /// Whether the gap that is going on has already produced its space.
    pub space_emitted: bool,
    /// The decoded text, oldest character first.
    pub text: Seq<u8>,
}

/// Length of a dit.
pub open spec fn dit_us(wpm: u8) -> int {
    1_200_000int / (if wpm == 0 {
        1int
    } else {
        wpm as int
    })
}

impl DecoderModel {
    /// A decoder that has heard nothing.
    pub open spec fn fresh() -> DecoderModel {
        DecoderModel {
            line: LineState::Idle,
            since_us: 0,
            code: 1,
            space_emitted: false,
            text: Seq::empty(),
        }
    }

    /// Time that has passed at `now_us` since the last transition.
    pub open spec fn passed(self, now_us: int) -> int {
        if now_us >= self.since_us {
            now_us - self.since_us
        } else {
            0
        }
    }

    /// One more character in the history.
    pub open spec fn with_char(self, c: u8) -> DecoderModel {
        DecoderModel { text: remembered(self.text, HISTORY_CAPACITY as nat, c), ..self }
    }

    /// A pulse has ended. Marks beyond the seventh spoil the character.
    pub open spec fn after_pulse(self, pulse_us: int, dit: int) -> DecoderModel {
        DecoderModel {
            code: if self.code == 0 || self.code >= 128 {
                0
            } else if pulse_us >= 2 * dit {
                2 * self.code + 1
            } else {
                2 * self.code
            },
            ..self
        }
    }

    /// The character heard so far is complete.
    pub open spec fn char_ended(self) -> DecoderModel {
        let done = if 1 < self.code < 128 && LOOKUP[self.code] != 0 {
            self.with_char(LOOKUP[self.code])
        } else {
            self
        };
        DecoderModel { code: 1, ..done }
    }

    /// The key has been up for `gap_us`.
    pub open spec fn after_gap(self, gap_us: int, dit: int) -> DecoderModel {
        if gap_us >= 6 * dit {
            let done = self.char_ended();
            if done.space_emitted {
                done
            } else {
                DecoderModel { space_emitted: true, ..done.with_char(SPACE) }
            }
        } else if gap_us >= 2 * dit {
            self.char_ended()
        } else {
            self
        }
    }

    /// The key line changed.
    pub open spec fn on_transition(self, now_us: int, key_down: bool, wpm: u8) -> DecoderModel {
        let passed = self.passed(now_us);
        if key_down {
            let heard = if self.line is Up {
                self.after_gap(passed, dit_us(wpm))
            } else {
                self
            };
            DecoderModel {
                line: LineState::Down,
                space_emitted: false,
                since_us: now_us,
                ..heard
            }
        } else {
            let heard = if self.line is Down {
                self.after_pulse(passed, dit_us(wpm))
            } else {
                self
            };
            DecoderModel { line: LineState::Up, since_us: now_us, ..heard }
        }
    }

    /// Time has passed without a transition.
    pub open spec fn poll(self, now_us: int, wpm: u8) -> DecoderModel {
        if self.line is Up {
            self.after_gap(self.passed(now_us), dit_us(wpm))
        } else {
            self
        }
    }

    /// The history is within its bound.
    pub open spec fn wf(self) -> bool {
        &&& self.text.len() <= HISTORY_CAPACITY
        &&& 0 <= self.code < 256
    }
}

/// A Morse decoder.
pub struct Decoder {
    line: LineState,
    last_transition_us: u64,
    accum: u8,
    space_emitted: bool,
    history: heapless::Deque<u8, 32>,
}

impl View for Decoder {
    type V = DecoderModel;

    closed spec fn view(&self) -> DecoderModel {
        DecoderModel {
            line: self.line,
            since_us: self.last_transition_us as int,
            code: self.accum as int,
            space_emitted: self.space_emitted,
            text: history_contents(self.history),
        }
    }
}

impl Decoder {
    /// A decoder that has heard nothing.
    pub fn new() -> (d: Self)
        ensures
            d@ == DecoderModel::fresh(),
            d@.wf(),
    {
        Decoder {
            line: LineState::Idle,
            last_transition_us: 0,
            accum: 1,
            space_emitted: false,
            history: history_new(),
        }
    }

    /// Takes in a transition of the key line at `now_us`.
    pub fn on_transition(&mut self, now_us: u64, key_down: bool, wpm: u8)
        requires
            old(self)@.wf(),
        ensures
            final(self)@ == old(self)@.on_transition(now_us as int, key_down, wpm),
            final(self)@.wf(),
    {
        let dit: u64 = dit_duration_us(wpm) as u64;
        let elapsed: u64 = now_us.saturating_sub(self.last_transition_us);
        if key_down {
            if self.line == LineState::Up {
                self.process_gap(elapsed, dit);
            }
            self.line = LineState::Down;
            self.space_emitted = false;
        } else {
            if self.line == LineState::Down {
                self.process_pulse(elapsed, dit);
            }
            self.line = LineState::Up;
        }
        self.last_transition_us = now_us;
    }

    /// Takes in that the key line has not changed until `now_us`.
    pub fn poll(&mut self, now_us: u64, wpm: u8)
        requires
            old(self)@.wf(),
        ensures
            final(self)@ == old(self)@.poll(now_us as int, wpm),
            final(self)@.wf(),
    {
        if self.line != LineState::Up {
            return;
        }
        let dit: u64 = dit_duration_us(wpm) as u64;
        let gap: u64 = now_us.saturating_sub(self.last_transition_us);
        self.process_gap(gap, dit);
    }

    /// Copies the history into `out`, oldest character first, as far as it
    /// fits, and returns the number of characters copied.
    pub fn snapshot(&self, out: &mut [u8]) -> (n: usize)
        ensures
            n == if self@.text.len() < old(out)@.len() {
                self@.text.len()
            } else {
                old(out)@.len()
            },
            final(out)@ == self@.text.take(n as int) + old(out)@.skip(n as int),
    {
        let (head, tail) = history_as_slices(&self.history);
        let ghost text = self@.text;
        let ghost before = out@;
        let total: usize = history_len(&self.history);
        let n: usize = if total < out.len() {
            total
        } else {
            out.len()
        };
        let mut i: usize = 0;
        while i < n
            invariant
                i <= n,
                n <= text.len(),
                n <= before.len(),
                text == head@ + tail@,
                out@ == text.take(i as int) + before.skip(i as int),
            decreases n - i,
        {
            let c: u8 = if i < head.len() {
                head[i]
            } else {
                tail[i - head.len()]
            };
            out[i] = c;
            i = i + 1;
            assert(out@ =~= text.take(i as int) + before.skip(i as int));
        }
        n
    }

    /// Number of characters in the history.
    pub fn len(&self) -> (n: usize)
        ensures
            n == self@.text.len(),
    {
        history_len(&self.history)
    }

    /// Whether the history holds no character.
    pub fn is_empty(&self) -> (r: bool)
        ensures
            r == (self@.text.len() == 0),
    {
        history_is_empty(&self.history)
    }

    /// Forgets the history and any character that is going on. The time of the
    /// last transition stays.
    pub fn clear(&mut self)
        ensures
            final(self)@ == (DecoderModel {
                line: LineState::Idle,
                code: 1,
                space_emitted: false,
                text: Seq::empty(),
                ..old(self)@
            }),
            final(self)@.wf(),
    {
        history_clear(&mut self.history);
        self.accum = 1;
        self.space_emitted = false;
        self.line = LineState::Idle;
    }

    fn process_pulse(&mut self, pulse_us: u64, dit: u64)
        requires
            old(self)@.wf(),
            dit <= 1_200_000,
        ensures
            final(self)@ == old(self)@.after_pulse(pulse_us as int, dit as int),
            final(self)@.wf(),
    {
        if self.accum == 0 {
            return;
        }
        if self.accum >= 128 {
            self.accum = 0;
            return;
        }
        if pulse_us >= 2 * dit {
            self.accum = 2 * self.accum + 1;
        } else {
            self.accum = 2 * self.accum;
        }
    }

    fn process_gap(&mut self, gap_us: u64, dit: u64)
        requires
            old(self)@.wf(),
            dit <= 1_200_000,
        ensures
            final(self)@ == old(self)@.after_gap(gap_us as int, dit as int),
            final(self)@.wf(),
    {
        if gap_us >= 6 * dit {
            self.emit_pending_char();
            if !self.space_emitted {
                self.push_char(SPACE);
                self.space_emitted = true;
            }
        } else if gap_us >= 2 * dit {
            self.emit_pending_char();
        }
    }

    fn emit_pending_char(&mut self)
        requires
            old(self)@.wf(),
        ensures
            final(self)@ == old(self)@.char_ended(),
            final(self)@.wf(),
    {
        if self.accum > 1 && self.accum < 128 {
            let c: u8 = LOOKUP[self.accum as usize];
            if c != 0 {
                self.push_char(c);
            }
        }
        self.accum = 1;
    }

    fn push_char(&mut self, c: u8)
        requires
            old(self)@.wf(),
        ensures
            final(self)@ == old(self)@.with_char(c),
            final(self)@.wf(),
    {
        if history_is_full(&self.history) {
            let _ = history_pop_front(&mut self.history);
        }
        let _ = history_push_back(&mut self.history, c);
    }
}

impl Default for Decoder {
    fn default() -> (d: Self)
        ensures
            d@ == DecoderModel::fresh(),
            d@.wf(),
    {
        Decoder::new()
    }
}

/// Length of a dit in microseconds; a speed of 0 counts as 1.
pub fn dit_duration_us(wpm: u8) -> (us: u32)
    ensures
        us == dit_us(wpm),
        0 < us <= 1_200_000,
{
    let speed: u32 = if wpm == 0 {
        1
    } else {
        wpm as u32
    };
    assert(1_200_000int / (speed as int) <= 1_200_000 && 1_200_000int / (speed as int) > 0)
        by (nonlinear_arith)
        requires
            1 <= speed <= 255,
    ;
    1_200_000 / speed
}

/// The code that a sequence of marks leads to.
pub open spec fn code_of(pattern: Seq<char>) -> int
    decreases pattern.len(),
{
    if pattern.len() == 0 {
        1
    } else {
        2 * code_of(pattern.drop_last()) + (if pattern.last() == '-' {
            1int
        } else {
            0int
        })
    }
}

/// Length of a mark keyed with exact timing.
pub open spec fn mark_us(symbol: char, dit: int) -> int {
    if symbol == '-' {
        3 * dit
    } else {
        dit
    }
}

/// Time from the start of the first mark of `pattern` to the start of what
/// follows, each mark with a gap of one dit behind it.
pub open spec fn keyed_us(pattern: Seq<char>, dit: int) -> int
    decreases pattern.len(),
{
    if pattern.len() == 0 {
        0
    } else {
        keyed_us(pattern.drop_last(), dit) + mark_us(pattern.last(), dit) + dit
    }
}

/// The decoder after `pattern` has been keyed from `start_us` on with exact timing.
pub open spec fn heard(m: DecoderModel, pattern: Seq<char>, start_us: int, wpm: u8) -> DecoderModel
    decreases pattern.len(),
{
    if pattern.len() == 0 {
        m
    } else {
        let down = start_us + keyed_us(pattern.drop_last(), dit_us(wpm));
        let up = down + mark_us(pattern.last(), dit_us(wpm));
        heard(m, pattern.drop_last(), start_us, wpm).on_transition(down, true, wpm).on_transition(
            up,
            false,
            wpm,
        )
    }
}

/// A decoder between two characters: whatever ends at `now_us` adds nothing.
pub open spec fn between_chars(m: DecoderModel, now_us: int, wpm: u8) -> bool {
    &&& m.code == 1
    &&& m.line !is Down
    &&& m.since_us <= now_us
    &&& m.line is Up ==> m.space_emitted || now_us - m.since_us < 6 * dit_us(wpm)
}

pub(crate) proof fn lemma_dit_positive(wpm: u8)
    ensures
        dit_us(wpm) > 0,
{
    let s = if wpm == 0 {
        1int
    } else {
        wpm as int
    };
    assert(1_200_000int / s > 0) by (nonlinear_arith)
        requires
            1 <= s <= 255,
    ;
}

pub(crate) proof fn lemma_code_bounds(pattern: Seq<char>)
    ensures
        code_of(pattern) >= 1,
        pattern.len() > 0 ==> code_of(pattern.drop_last()) < code_of(pattern),
        pattern.len() > 0 ==> code_of(pattern) >= 2,
    decreases pattern.len(),
{
    if pattern.len() > 0 {
        lemma_code_bounds(pattern.drop_last());
    }
}

pub(crate) proof fn lemma_marks_are_counted(
    m: DecoderModel,
    pattern: Seq<char>,
    start_us: int,
    wpm: u8,
)
    requires
        between_chars(m, start_us, wpm),
        code_of(pattern) < 128,
        pattern.len() > 0,
    ensures
        heard(m, pattern, start_us, wpm) == (DecoderModel {
            line: LineState::Up,
            since_us: start_us + keyed_us(pattern, dit_us(wpm)) - dit_us(wpm),
            code: code_of(pattern),
            space_emitted: false,
            text: m.text,
        }),
    decreases pattern.len(),
{
    lemma_dit_positive(wpm);
    lemma_code_bounds(pattern);
    let init = pattern.drop_last();
    lemma_code_bounds(init);
    if init.len() > 0 {
        lemma_marks_are_counted(m, init, start_us, wpm);
    } else {
        assert(heard(m, init, start_us, wpm) == m);
        assert(code_of(init) == 1);
        assert(keyed_us(init, dit_us(wpm)) == 0);
    }
}

/// A character keyed with exact timing, dits one unit and dashes three units
/// long with gaps of one unit, is in the history once the gap behind it has
/// lasted two dits, whatever was decoded before.
pub proof fn lemma_keyed_char_is_decoded(
    m: DecoderModel,
    pattern: Seq<char>,
    start_us: int,
    gap_us: int,
    wpm: u8,
)
    requires
        between_chars(m, start_us, wpm),
        pattern.len() > 0,
        code_of(pattern) < 128,
        LOOKUP[code_of(pattern)] != 0,
        2 * dit_us(wpm) <= gap_us < 6 * dit_us(wpm),
    ensures
        ({
            let end = start_us + keyed_us(pattern, dit_us(wpm)) - dit_us(wpm);
            let after = heard(m, pattern, start_us, wpm).poll(end + gap_us, wpm);
            &&& after.text == remembered(
                m.text,
                HISTORY_CAPACITY as nat,
                LOOKUP[code_of(pattern)],
            )
            &&& between_chars(after, end + gap_us, wpm)
        }),
{
    lemma_dit_positive(wpm);
    lemma_code_bounds(pattern);
    lemma_marks_are_counted(m, pattern, start_us, wpm);
}

/// A character as it is keyed, and the gap behind it.
pub struct KeyedChar {
    pub pattern: Seq<char>,
    pub gap_us: int,
}

impl KeyedChar {
    /// A character that the decoder knows, with at least the gap behind a letter.
    pub open spec fn is_clear(self, wpm: u8) -> bool {
        &&& self.pattern.len() > 0
        &&& code_of(self.pattern) < 128
        &&& LOOKUP[code_of(self.pattern)] != 0
        &&& self.gap_us >= 2 * dit_us(wpm)
    }

    /// Time from its start to the end of the gap.
    pub open spec fn span_us(self, wpm: u8) -> int {
        keyed_us(self.pattern, dit_us(wpm)) - dit_us(wpm) + self.gap_us
    }

    /// The history with the character, and with a space if a word ends.
    pub open spec fn read_after(self, text: Seq<u8>, wpm: u8) -> Seq<u8> {
        let with_char = remembered(text, HISTORY_CAPACITY as nat, LOOKUP[code_of(self.pattern)]);
        if self.gap_us >= 6 * dit_us(wpm) {
            remembered(with_char, HISTORY_CAPACITY as nat, SPACE)
        } else {
            with_char
        }
    }
}

/// Time from the start of the first of several characters to the end of the last
/// gap.
pub open spec fn text_us(chars: Seq<KeyedChar>, wpm: u8) -> int
    decreases chars.len(),
{
    if chars.len() == 0 {
        0
    } else {
        text_us(chars.drop_last(), wpm) + chars.last().span_us(wpm)
    }
}

/// The decoder after several characters have been keyed from `start_us` on, with
/// a poll at the end of each gap.
pub open spec fn text_heard(
    m: DecoderModel,
    chars: Seq<KeyedChar>,
    start_us: int,
    wpm: u8,
) -> DecoderModel
    decreases chars.len(),
{
    if chars.len() == 0 {
        m
    } else {
        let from = start_us + text_us(chars.drop_last(), wpm);
        let c = chars.last();
        heard(text_heard(m, chars.drop_last(), start_us, wpm), c.pattern, from, wpm).poll(
            from + c.span_us(wpm),
            wpm,
        )
    }
}

/// The history after several characters.
pub open spec fn text_read(text: Seq<u8>, chars: Seq<KeyedChar>, wpm: u8) -> Seq<u8>
    decreases chars.len(),
{
    if chars.len() == 0 {
        text
    } else {
        chars.last().read_after(text_read(text, chars.drop_last(), wpm), wpm)
    }
}

/// A text keyed with exact timing is decoded: each character is read, and each
/// gap of six dits or more ends a word with one space.
pub proof fn lemma_keyed_text_is_decoded(
    m: DecoderModel,
    chars: Seq<KeyedChar>,
    start_us: int,
    wpm: u8,
)
    requires
        between_chars(m, start_us, wpm),
        forall|k: int| 0 <= k < chars.len() ==> (#[trigger] chars[k]).is_clear(wpm),
    ensures
        text_heard(m, chars, start_us, wpm).text == text_read(m.text, chars, wpm),
        between_chars(text_heard(m, chars, start_us, wpm), start_us + text_us(chars, wpm), wpm),
    decreases chars.len(),
{
    if chars.len() > 0 {
        let init = chars.drop_last();
        let c = chars.last();
        assert(c == chars[chars.len() - 1]);
        assert(c.is_clear(wpm));
        assert forall|k: int| 0 <= k < init.len() implies (#[trigger] init[k]).is_clear(wpm) by {
            assert(init[k] == chars[k]);
        }
        lemma_keyed_text_is_decoded(m, init, start_us, wpm);
        let before = text_heard(m, init, start_us, wpm);
        let from = start_us + text_us(init, wpm);
        lemma_dit_positive(wpm);
        lemma_code_bounds(c.pattern);
        lemma_marks_are_counted(before, c.pattern, from, wpm);
    }
}

/// The decoder's table inverts the keyer's: every character that the decoder
/// can give out has a Morse code, and that code leads to the character.
pub proof fn lemma_table_inverts_morse(i: int)
    requires
        0 <= i < 128,
        LOOKUP[i] != 0,
    ensures
        morse_pattern(LOOKUP[i] as char) is Some,
        code_of(morse_pattern(LOOKUP[i] as char)->0@) == i,
{
    reveal_with_fuel(code_of, 8);
    if i == 2 {
        reveal_strlit(".");
        assert(LOOKUP[2] == 69);
        assert(morse_pattern('E') == Some("."));
        assert(code_of("."@) == 2);
    } else if i == 3 {
        reveal_strlit("-");
        assert(LOOKUP[3] == 84);
        assert(morse_pattern('T') == Some("-"));
        assert(code_of("-"@) == 3);
    } else if i == 4 {
        reveal_strlit("..");
        assert(LOOKUP[4] == 73);
        assert(morse_pattern('I') == Some(".."));
        assert(code_of(".."@) == 4);
    } else if i == 5 {
        reveal_strlit(".-");
        assert(LOOKUP[5] == 65);
        assert(morse_pattern('A') == Some(".-"));
        assert(code_of(".-"@) == 5);
    } else if i == 6 {
        reveal_strlit("-.");
        assert(LOOKUP[6] == 78);
        assert(morse_pattern('N') == Some("-."));
        assert(code_of("-."@) == 6);
    } else if i == 7 {
        reveal_strlit("--");
        assert(LOOKUP[7] == 77);
        assert(morse_pattern('M') == Some("--"));
        assert(code_of("--"@) == 7);
    } else if i == 8 {
        reveal_strlit("...");
        assert(LOOKUP[8] == 83);
        assert(morse_pattern('S') == Some("..."));
        assert(code_of("..."@) == 8);
    } else if i == 9 {
        reveal_strlit("..-");
        assert(LOOKUP[9] == 85);
        assert(morse_pattern('U') == Some("..-"));
        assert(code_of("..-"@) == 9);
    } else if i == 10 {
        reveal_strlit(".-.");
        assert(LOOKUP[10] == 82);
        assert(morse_pattern('R') == Some(".-."));
        assert(code_of(".-."@) == 10);
    } else if i == 11 {
        reveal_strlit(".--");
        assert(LOOKUP[11] == 87);
        assert(morse_pattern('W') == Some(".--"));
        assert(code_of(".--"@) == 11);
    } else if i == 12 {
        reveal_strlit("-..");
        assert(LOOKUP[12] == 68);
        assert(morse_pattern('D') == Some("-.."));
        assert(code_of("-.."@) == 12);
    } else if i == 13 {
        reveal_strlit("-.-");
        assert(LOOKUP[13] == 75);
        assert(morse_pattern('K') == Some("-.-"));
        assert(code_of("-.-"@) == 13);
    } else if i == 14 {
        reveal_strlit("--.");
        assert(LOOKUP[14] == 71);
        assert(morse_pattern('G') == Some("--."));
        assert(code_of("--."@) == 14);
    } else if i == 15 {
        reveal_strlit("---");
        assert(LOOKUP[15] == 79);
        assert(morse_pattern('O') == Some("---"));
        assert(code_of("---"@) == 15);
    } else if i == 16 {
        reveal_strlit("....");
        assert(LOOKUP[16] == 72);
        assert(morse_pattern('H') == Some("...."));
        assert(code_of("...."@) == 16);
    } else if i == 17 {
        reveal_strlit("...-");
        assert(LOOKUP[17] == 86);
        assert(morse_pattern('V') == Some("...-"));
        assert(code_of("...-"@) == 17);
    } else if i == 18 {
        reveal_strlit("..-.");
        assert(LOOKUP[18] == 70);
        assert(morse_pattern('F') == Some("..-."));
        assert(code_of("..-."@) == 18);
    } else if i == 20 {
        reveal_strlit(".-..");
        assert(LOOKUP[20] == 76);
        assert(morse_pattern('L') == Some(".-.."));
        assert(code_of(".-.."@) == 20);
    } else if i == 22 {
        reveal_strlit(".--.");
        assert(LOOKUP[22] == 80);
        assert(morse_pattern('P') == Some(".--."));
        assert(code_of(".--."@) == 22);
    } else if i == 23 {
        reveal_strlit(".---");
        assert(LOOKUP[23] == 74);
        assert(morse_pattern('J') == Some(".---"));
        assert(code_of(".---"@) == 23);
    } else if i == 24 {
        reveal_strlit("-...");
        assert(LOOKUP[24] == 66);
        assert(morse_pattern('B') == Some("-..."));
        assert(code_of("-..."@) == 24);
    } else if i == 25 {
        reveal_strlit("-..-");
        assert(LOOKUP[25] == 88);
        assert(morse_pattern('X') == Some("-..-"));
        assert(code_of("-..-"@) == 25);
    } else if i == 26 {
        reveal_strlit("-.-.");
        assert(LOOKUP[26] == 67);
        assert(morse_pattern('C') == Some("-.-."));
        assert(code_of("-.-."@) == 26);
    } else if i == 27 {
        reveal_strlit("-.--");
        assert(LOOKUP[27] == 89);
        assert(morse_pattern('Y') == Some("-.--"));
        assert(code_of("-.--"@) == 27);
    } else if i == 28 {
        reveal_strlit("--..");
        assert(LOOKUP[28] == 90);
        assert(morse_pattern('Z') == Some("--.."));
        assert(code_of("--.."@) == 28);
    } else if i == 29 {
        reveal_strlit("--.-");
        assert(LOOKUP[29] == 81);
        assert(morse_pattern('Q') == Some("--.-"));
        assert(code_of("--.-"@) == 29);
    } else if i == 32 {
        reveal_strlit(".....");
        assert(LOOKUP[32] == 53);
        assert(morse_pattern('5') == Some("....."));
        assert(code_of("....."@) == 32);
    } else if i == 33 {
        reveal_strlit("....-");
        assert(LOOKUP[33] == 52);
        assert(morse_pattern('4') == Some("....-"));
        assert(code_of("....-"@) == 33);
    } else if i == 35 {
        reveal_strlit("...--");
        assert(LOOKUP[35] == 51);
        assert(morse_pattern('3') == Some("...--"));
        assert(code_of("...--"@) == 35);
    } else if i == 39 {
        reveal_strlit("..---");
        assert(LOOKUP[39] == 50);
        assert(morse_pattern('2') == Some("..---"));
        assert(code_of("..---"@) == 39);
    } else if i == 47 {
        reveal_strlit(".----");
        assert(LOOKUP[47] == 49);
        assert(morse_pattern('1') == Some(".----"));
        assert(code_of(".----"@) == 47);
    } else if i == 48 {
        reveal_strlit("-....");
        assert(LOOKUP[48] == 54);
        assert(morse_pattern('6') == Some("-...."));
        assert(code_of("-...."@) == 48);
    } else if i == 49 {
        reveal_strlit("-...-");
        assert(LOOKUP[49] == 61);
        assert(morse_pattern('=') == Some("-...-"));
        assert(code_of("-...-"@) == 49);
    } else if i == 50 {
        reveal_strlit("-..-.");
        assert(LOOKUP[50] == 47);
        assert(morse_pattern('/') == Some("-..-."));
        assert(code_of("-..-."@) == 50);
    } else if i == 56 {
        reveal_strlit("--...");
        assert(LOOKUP[56] == 55);
        assert(morse_pattern('7') == Some("--..."));
        assert(code_of("--..."@) == 56);
    } else if i == 60 {
        reveal_strlit("---..");
        assert(LOOKUP[60] == 56);
        assert(morse_pattern('8') == Some("---.."));
        assert(code_of("---.."@) == 60);
    } else if i == 62 {
        reveal_strlit("----.");
        assert(LOOKUP[62] == 57);
        assert(morse_pattern('9') == Some("----."));
        assert(code_of("----."@) == 62);
    } else if i == 63 {
        reveal_strlit("-----");
        assert(LOOKUP[63] == 48);
        assert(morse_pattern('0') == Some("-----"));
        assert(code_of("-----"@) == 63);
    } else if i == 76 {
        reveal_strlit("..--..");
        assert(LOOKUP[76] == 63);
        assert(morse_pattern('?') == Some("..--.."));
        assert(code_of("..--.."@) == 76);
    } else if i == 85 {
        reveal_strlit(".-.-.-");
        assert(LOOKUP[85] == 46);
        assert(morse_pattern('.') == Some(".-.-.-"));
        assert(code_of(".-.-.-"@) == 85);
    } else if i == 115 {
        reveal_strlit("--..--");
        assert(LOOKUP[115] == 44);
        assert(morse_pattern(',') == Some("--..--"));
        assert(code_of("--..--"@) == 115);
    } else {
        assert(LOOKUP[0] == 0);
        assert(LOOKUP[1] == 0);
        assert(LOOKUP[19] == 0);
        assert(LOOKUP[21] == 0);
        assert(LOOKUP[30] == 0);
        assert(LOOKUP[31] == 0);
        assert(LOOKUP[34] == 0);
        assert(LOOKUP[36] == 0);
        assert(LOOKUP[37] == 0);
        assert(LOOKUP[38] == 0);
        assert(LOOKUP[40] == 0);
        assert(LOOKUP[41] == 0);
        assert(LOOKUP[42] == 0);
        assert(LOOKUP[43] == 0);
        assert(LOOKUP[44] == 0);
        assert(LOOKUP[45] == 0);
        assert(LOOKUP[46] == 0);
        assert(LOOKUP[51] == 0);
        assert(LOOKUP[52] == 0);
        assert(LOOKUP[53] == 0);
        assert(LOOKUP[54] == 0);
        assert(LOOKUP[55] == 0);
        assert(LOOKUP[57] == 0);
        assert(LOOKUP[58] == 0);
        assert(LOOKUP[59] == 0);
        assert(LOOKUP[61] == 0);
        assert(LOOKUP[64] == 0);
        assert(LOOKUP[65] == 0);
        assert(LOOKUP[66] == 0);
        assert(LOOKUP[67] == 0);
        assert(LOOKUP[68] == 0);
        assert(LOOKUP[69] == 0);
        assert(LOOKUP[70] == 0);
        assert(LOOKUP[71] == 0);
        assert(LOOKUP[72] == 0);
        assert(LOOKUP[73] == 0);
        assert(LOOKUP[74] == 0);
        assert(LOOKUP[75] == 0);
        assert(LOOKUP[77] == 0);
        assert(LOOKUP[78] == 0);
        assert(LOOKUP[79] == 0);
        assert(LOOKUP[80] == 0);
        assert(LOOKUP[81] == 0);
        assert(LOOKUP[82] == 0);
        assert(LOOKUP[83] == 0);
        assert(LOOKUP[84] == 0);
        assert(LOOKUP[86] == 0);
        assert(LOOKUP[87] == 0);
        assert(LOOKUP[88] == 0);
        assert(LOOKUP[89] == 0);
        assert(LOOKUP[90] == 0);
        assert(LOOKUP[91] == 0);
        assert(LOOKUP[92] == 0);
        assert(LOOKUP[93] == 0);
        assert(LOOKUP[94] == 0);
        assert(LOOKUP[95] == 0);
        assert(LOOKUP[96] == 0);
        assert(LOOKUP[97] == 0);
        assert(LOOKUP[98] == 0);
        assert(LOOKUP[99] == 0);
        assert(LOOKUP[100] == 0);
        assert(LOOKUP[101] == 0);
        assert(LOOKUP[102] == 0);
        assert(LOOKUP[103] == 0);
        assert(LOOKUP[104] == 0);
        assert(LOOKUP[105] == 0);
        assert(LOOKUP[106] == 0);
        assert(LOOKUP[107] == 0);
        assert(LOOKUP[108] == 0);
        assert(LOOKUP[109] == 0);
        assert(LOOKUP[110] == 0);
        assert(LOOKUP[111] == 0);
        assert(LOOKUP[112] == 0);
        assert(LOOKUP[113] == 0);
        assert(LOOKUP[114] == 0);
        assert(LOOKUP[116] == 0);
        assert(LOOKUP[117] == 0);
        assert(LOOKUP[118] == 0);
        assert(LOOKUP[119] == 0);
        assert(LOOKUP[120] == 0);
        assert(LOOKUP[121] == 0);
        assert(LOOKUP[122] == 0);
        assert(LOOKUP[123] == 0);
        assert(LOOKUP[124] == 0);
        assert(LOOKUP[125] == 0);
        assert(LOOKUP[126] == 0);
        assert(LOOKUP[127] == 0);
    }
}

/// The decoder after polls at several times and speeds.
pub open spec fn polled(m: DecoderModel, polls: Seq<(int, u8)>) -> DecoderModel
    decreases polls.len(),
{
    if polls.len() == 0 {
        m
    } else {
        polled(m, polls.drop_last()).poll(polls.last().0, polls.last().1)
    }
}

/// However often the decoder is polled while the key is up, there is at most one
/// character, the one that was being keyed, and at most one space behind it.
pub proof fn lemma_silence_adds_a_character_and_a_space(m: DecoderModel, polls: Seq<(int, u8)>)
    requires
        m.line is Up,
    ensures
        ({
            let after = polled(m, polls);
            let ended = m.char_ended();
            ||| after == m
            ||| after == ended
            ||| !m.space_emitted && after == (DecoderModel {
                space_emitted: true,
                ..ended.with_char(SPACE)
            })
        }),
    decreases polls.len(),
{
    if polls.len() > 0 {
        lemma_silence_adds_a_character_and_a_space(m, polls.drop_last());
        lemma_dit_positive(polls.last().1);
        let ended = m.char_ended();
        let spaced = DecoderModel { space_emitted: true, ..ended.with_char(SPACE) };
        assert(ended.char_ended() == ended);
        assert(spaced.char_ended() == spaced);
    }
}

/// Waiting longer in one gap adds nothing after its space.
pub proof fn lemma_one_space_per_gap(m: DecoderModel, first_us: int, second_us: int, wpm: u8)
    requires
        m.line is Up,
        m.since_us + 6 * dit_us(wpm) <= first_us <= second_us,
    ensures
        m.poll(first_us, wpm).poll(second_us, wpm) == m.poll(first_us, wpm),
{
    lemma_dit_positive(wpm);
}

/// There is one space for each pause between two presses of the key: after a
/// space, neither waiting nor another report that the key is up adds anything.
pub proof fn lemma_next_space_needs_a_press(
    m: DecoderModel,
    edge_us: int,
    later_us: int,
    wpm: u8,
)
    requires
        m.line is Up,
        m.space_emitted,
        m.code == 1,
    ensures
        m.poll(later_us, wpm) == m,
        m.on_transition(edge_us, false, wpm).poll(later_us, wpm).text == m.text,
{
    lemma_dit_positive(wpm);
}

} // verus!
