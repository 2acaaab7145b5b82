//! What the decoder makes of pulses and gaps of any length.

use crate::decoder::{
    code_of, dit_duration_us, lemma_dit_positive, lemma_table_inverts_morse, Decoder, DecoderModel,
    LineState, LOOKUP,
};
use crate::decoder_laws::{is_decodable, lemma_decodable_has_code};
use crate::keyer::morse::{lemma_patterns_are_marks, morse_pattern};
use vstd::prelude::*;

verus! {

/// The speed that a setting asks for, at least one word per minute.
pub open spec fn words_per_minute(wpm: u8) -> int {
    if wpm == 0 {
        1
    } else {
        wpm as int
    }
}

/// Whether a time is at least `count` dits, of 1.2 s divided by the speed each.
pub open spec fn lasts_dits(us: int, count: int, wpm: u8) -> bool {
    us >= count * (1_200_000int / words_per_minute(wpm))
}

/// A pulse that ends after two dits or more adds a dash to the character, every
/// shorter one a dit. The character's code is 1 with a binary digit for each mark
/// behind it, 1 for a dash. Nothing is read yet.
pub proof fn lemma_two_dits_part_dit_and_dash(m: DecoderModel, now_us: int, wpm: u8)
    requires
        m.line is Down,
        now_us >= m.since_us,
        1 <= m.code < 128,
    ensures
        lasts_dits(now_us - m.since_us, 2, wpm) ==> m.on_transition(now_us, false, wpm).code == 2
            * m.code + 1,
        !lasts_dits(now_us - m.since_us, 2, wpm) ==> m.on_transition(now_us, false, wpm).code == 2
            * m.code,
        m.on_transition(now_us, false, wpm).text == m.text,
        m.on_transition(now_us, false, wpm).line is Up,
        m.on_transition(now_us, false, wpm).since_us == now_us,
{
}

/// Pulses, each with the times at which the key went down and up.
pub open spec fn pulses_heard(m: DecoderModel, pulses: Seq<(int, int)>, wpm: u8) -> DecoderModel
    decreases pulses.len(),
{
    if pulses.len() == 0 {
        m
    } else {
        pulses_heard(m, pulses.drop_last(), wpm).on_transition(
            pulses.last().0,
            true,
            wpm,
        ).on_transition(pulses.last().1, false, wpm)
    }
}

/// The marks that pulses stand for.
pub open spec fn marks_of(pulses: Seq<(int, int)>, wpm: u8) -> Seq<char> {
    Seq::new(
        pulses.len(),
        |k: int|
            if lasts_dits(pulses[k].1 - pulses[k].0, 2, wpm) {
                '-'
            } else {
                '.'
            },
    )
}

/// Pulses in order, with less than two dits between one and the next.
pub open spec fn in_one_character(pulses: Seq<(int, int)>, wpm: u8) -> bool {
    &&& forall|k: int| 0 <= k < pulses.len() ==> (#[trigger] pulses[k]).0 <= pulses[k].1
    &&& forall|k: int, j: int|
        0 <= k < pulses.len() && j == k + 1 && j < pulses.len() ==> (#[trigger] pulses[k]).1 <= (
        #[trigger] pulses[j]).0 && !lasts_dits(pulses[j].0 - pulses[k].1, 2, wpm)
}

/// A decoder that begins a new character when the key goes down at `now_us`.
pub open spec fn begins_at(m: DecoderModel, now_us: int, wpm: u8) -> bool {
    &&& m.code == 1
    &&& m.line !is Down
    &&& m.since_us <= now_us
    &&& m.line is Up ==> m.space_emitted || !lasts_dits(now_us - m.since_us, 6, wpm)
}

proof fn lemma_code_range(p: Seq<char>)
    ensures
        code_of(p) >= 1,
        p.len() == 0 ==> code_of(p) == 1,
        p.len() <= 1 ==> code_of(p) < 4,
        p.len() <= 2 ==> code_of(p) < 8,
        p.len() <= 3 ==> code_of(p) < 16,
        p.len() <= 4 ==> code_of(p) < 32,
        p.len() <= 5 ==> code_of(p) < 64,
        p.len() <= 6 ==> code_of(p) < 128,
        p.len() <= 7 ==> code_of(p) < 256,
        p.len() >= 1 ==> code_of(p) >= 2,
        p.len() >= 2 ==> code_of(p) >= 4,
        p.len() >= 3 ==> code_of(p) >= 8,
        p.len() >= 4 ==> code_of(p) >= 16,
        p.len() >= 5 ==> code_of(p) >= 32,
        p.len() >= 6 ==> code_of(p) >= 64,
        p.len() >= 7 ==> code_of(p) >= 128,
    decreases p.len(),
{
    if p.len() > 0 {
        lemma_code_range(p.drop_last());
    }
}

proof fn lemma_pulses_are_counted(m: DecoderModel, pulses: Seq<(int, int)>, wpm: u8)
    requires
        pulses.len() > 0,
        in_one_character(pulses, wpm),
        begins_at(m, pulses[0].0, wpm),
    ensures
        pulses_heard(m, pulses, wpm) == (DecoderModel {
            line: LineState::Up,
            since_us: pulses.last().1,
            code: if pulses.len() > 7 {
                0
            } else {
                code_of(marks_of(pulses, wpm))
            },
            space_emitted: false,
            text: m.text,
        }),
    decreases pulses.len(),
{
    lemma_dit_positive(wpm);
    let init = pulses.drop_last();
    let marks = marks_of(pulses, wpm);
    assert(marks.drop_last() =~= marks_of(init, wpm));
    lemma_code_range(marks);
    lemma_code_range(marks_of(init, wpm));
    let last = pulses[pulses.len() - 1];
    assert(last.0 <= last.1);
    if init.len() > 0 {
        assert forall|k: int| 0 <= k < init.len() implies (#[trigger] init[k]).0 <= init[k].1 by {
            assert(pulses[k] == init[k]);
        }
        assert forall|k: int, j: int|
            0 <= k < init.len() && j == k + 1 && j < init.len() implies (#[trigger] init[k]).1 <= (
        #[trigger] init[j]).0 && !lasts_dits(init[j].0 - init[k].1, 2, wpm) by {
            assert(pulses[k] == init[k] && pulses[j] == init[j]);
        }
        lemma_pulses_are_counted(m, init, wpm);
        assert(init.last() == pulses[pulses.len() - 2]);
    } else {
        assert(pulses_heard(m, init, wpm) == m);
    }
}

/// The history after one more character: the newest at the end, and at most the last
/// 32 of them.
pub open spec fn last_32(text: Seq<u8>, c: u8) -> Seq<u8> {
    let all = text.push(c);
    if all.len() <= 32 {
        all
    } else {
        all.subrange(all.len() - 32, all.len() as int)
    }
}

/// Pulses of any length with short gaps between them are read as the character whose
/// Morse code they spell, a pulse of two dits or more as a dash and a shorter one as a
/// dit, once the key has been up for two dits; after six dits a space follows. Before
/// two dits nothing is read. It is the same whether the gap is noticed by a poll or by
/// the next press.
pub proof fn lemma_pulses_spell_the_character(
    m: DecoderModel,
    pulses: Seq<(int, int)>,
    c: char,
    gap_us: int,
    wpm: u8,
)
    requires
        pulses.len() > 0,
        in_one_character(pulses, wpm),
        begins_at(m, pulses[0].0, wpm),
        m.wf(),
        is_decodable(c),
        morse_pattern(c)->0@ == marks_of(pulses, wpm),
        gap_us >= 0,
    ensures
        ({
            let heard = pulses_heard(m, pulses, wpm);
            let now = pulses.last().1 + gap_us;
            let read = last_32(m.text, c as u8);
            let text = if lasts_dits(gap_us, 6, wpm) {
                last_32(read, 32)
            } else if lasts_dits(gap_us, 2, wpm) {
                read
            } else {
                m.text
            };
            &&& heard.poll(now, wpm).text == text
            &&& heard.on_transition(now, true, wpm).text == text
            &&& lasts_dits(gap_us, 2, wpm) ==> heard.poll(now, wpm).code == 1
            &&& lasts_dits(gap_us, 6, wpm) ==> heard.poll(now, wpm).space_emitted
        }),
{
    lemma_dit_positive(wpm);
    lemma_pulses_are_counted(m, pulses, wpm);
    lemma_decodable_has_code(c);
    lemma_code_range(marks_of(pulses, wpm));
    let heard = pulses_heard(m, pulses, wpm);
    let b = c as u8;
    assert(last_32(m.text, b) =~= heard.with_char(b).text);
    assert(last_32(last_32(m.text, b), 32) =~= heard.with_char(b).with_char(32).text);
    assert(heard.char_ended().text == heard.with_char(b).text);
}

/// Seven marks or more read nothing: no character is that long. A gap of six dits
/// still gives a space.
pub proof fn lemma_long_patterns_read_nothing(
    m: DecoderModel,
    pulses: Seq<(int, int)>,
    gap_us: int,
    wpm: u8,
)
    requires
        pulses.len() >= 7,
        in_one_character(pulses, wpm),
        begins_at(m, pulses[0].0, wpm),
        m.wf(),
        gap_us >= 0,
    ensures
        ({
            let heard = pulses_heard(m, pulses, wpm);
            let now = pulses.last().1 + gap_us;
            &&& !lasts_dits(gap_us, 6, wpm) ==> heard.poll(now, wpm).text == m.text
            &&& lasts_dits(gap_us, 6, wpm) ==> heard.poll(now, wpm).text == last_32(m.text, 32)
            &&& lasts_dits(gap_us, 2, wpm) ==> heard.poll(now, wpm).code == 1
        }),
{
    lemma_dit_positive(wpm);
    lemma_pulses_are_counted(m, pulses, wpm);
    lemma_code_range(marks_of(pulses, wpm));
    let heard = pulses_heard(m, pulses, wpm);
    assert(last_32(m.text, 32) =~= heard.with_char(32).text);
}

/// A gap gives one space only, however often it is looked at.
pub proof fn lemma_gap_gives_one_space(m: DecoderModel, first_us: int, later_us: int, wpm: u8)
    requires
        m.line is Up,
        m.since_us <= first_us <= later_us,
        lasts_dits(first_us - m.since_us, 6, wpm),
    ensures
        m.poll(first_us, wpm).poll(later_us, wpm).text == m.poll(first_us, wpm).text,
        m.poll(first_us, wpm).on_transition(later_us, true, wpm).text == m.poll(first_us, wpm).text,
{
    lemma_dit_positive(wpm);
}

/// A character is read once, however often the gap behind it is looked at; the space
/// follows when the gap has become long enough.
pub proof fn lemma_character_is_read_once(m: DecoderModel, first_us: int, later_us: int, wpm: u8)
    requires
        m.wf(),
        m.line is Up,
        m.since_us <= first_us <= later_us,
        lasts_dits(first_us - m.since_us, 2, wpm),
        !lasts_dits(first_us - m.since_us, 6, wpm),
    ensures
        !lasts_dits(later_us - m.since_us, 6, wpm) ==> m.poll(first_us, wpm).poll(
            later_us,
            wpm,
        ).text == m.poll(first_us, wpm).text,
        lasts_dits(later_us - m.since_us, 6, wpm) && !m.space_emitted ==> m.poll(
            first_us,
            wpm,
        ).poll(later_us, wpm).text == last_32(m.poll(first_us, wpm).text, 32),
        m.poll(first_us, wpm).poll(later_us, wpm) == m.poll(later_us, wpm),
{
    lemma_dit_positive(wpm);
    let read = m.poll(first_us, wpm);
    assert(last_32(read.text, 32) =~= read.with_char(32).text);
}

/// A dit lasts 1.2 s divided by the speed, in whole microseconds; a speed of 0 counts as
/// 1.
pub proof fn lemma_dit_follows_the_speed(wpm: u8, us: u32)
    requires
        call_ensures(dit_duration_us, (wpm,), us),
    ensures
        us * words_per_minute(wpm) <= 1_200_000 < (us + 1) * words_per_minute(wpm),
{
    let w = words_per_minute(wpm);
    let u = us as int;
    assert(u * w <= 1_200_000 < (u + 1) * w) by (nonlinear_arith)
        requires
            u == 1_200_000int / w,
            w >= 1,
    ;
}

/// The same of a decoder that is called: a pulse is measured from the press to the
/// release, and a clock that has gone back counts as no time.
pub proof fn lemma_release_adds_a_mark(d: &mut Decoder, now_us: u64, wpm: u8)
    requires
        call_ensures(Decoder::on_transition, (d, now_us, false, wpm), ()),
        old(d)@.wf(),
        old(d)@.line is Down,
        1 <= old(d)@.code < 128,
    ensures
        ({
            let length = if now_us >= old(d)@.since_us {
                now_us - old(d)@.since_us
            } else {
                0
            };
            &&& lasts_dits(length, 2, wpm) ==> final(d)@.code == 2 * old(d)@.code + 1
            &&& !lasts_dits(length, 2, wpm) ==> final(d)@.code == 2 * old(d)@.code
            &&& final(d)@.text == old(d)@.text
        }),
{
    lemma_dit_positive(wpm);
}

/// A press while the key is down starts the pulse anew and adds nothing; a release while
/// it is up adds no mark.
pub proof fn lemma_repeated_transitions_add_nothing(m: DecoderModel, now_us: int, wpm: u8)
    ensures
        m.line is Down ==> m.on_transition(now_us, true, wpm).code == m.code && m.on_transition(
            now_us,
            true,
            wpm,
        ).text == m.text && m.on_transition(now_us, true, wpm).since_us == now_us,
        !(m.line is Down) ==> m.on_transition(now_us, false, wpm).code == m.code && m.on_transition(
            now_us,
            false,
            wpm,
        ).text == m.text,
        m.line is Down ==> m.poll(now_us, wpm) == m,
        m.line is Idle ==> m.poll(now_us, wpm) == m && m.on_transition(now_us, true, wpm).text
            == m.text,
{
}

/// A snapshot is the oldest part of the text that fits; the rest of the target stays.
pub proof fn lemma_snapshot_shows_the_text(d: Decoder, out: &mut [u8], n: usize, k: int)
    requires
        call_ensures(Decoder::snapshot, (&d, out), n),
    ensures
        n <= d@.text.len() && n <= old(out)@.len(),
        n == d@.text.len() || n == old(out)@.len(),
        final(out)@.len() == old(out)@.len(),
        0 <= k < n ==> final(out)@[k] == d@.text[k],
        n <= k < old(out)@.len() ==> final(out)@[k] == old(out)@[k],
{
}

proof fn lemma_code_tells_the_marks(p: Seq<char>, q: Seq<char>)
    requires
        forall|k: int| 0 <= k < p.len() ==> #[trigger] p[k] == '.' || p[k] == '-',
        forall|k: int| 0 <= k < q.len() ==> #[trigger] q[k] == '.' || q[k] == '-',
        code_of(p) == code_of(q),
    ensures
        p == q,
    decreases p.len(),
{
    lemma_code_range(p);
    lemma_code_range(q);
    if p.len() == 0 || q.len() == 0 {
        assert(p =~= q);
    } else {
        let a = p.drop_last();
        let b = q.drop_last();
        lemma_code_range(a);
        lemma_code_range(b);
        assert(p.last() == p[p.len() - 1] && q.last() == q[q.len() - 1]);
        assert forall|k: int| 0 <= k < a.len() implies #[trigger] a[k] == '.' || a[k] == '-' by {
            assert(a[k] == p[k]);
        }
        assert forall|k: int| 0 <= k < b.len() implies #[trigger] b[k] == '.' || b[k] == '-' by {
            assert(b[k] == q[k]);
        }
        lemma_code_tells_the_marks(a, b);
        assert(p =~= a.push(p.last()));
        assert(q =~= b.push(q.last()));
    }
}

/// Marks that are the code of no character read nothing.
pub proof fn lemma_unknown_patterns_read_nothing(
    m: DecoderModel,
    pulses: Seq<(int, int)>,
    gap_us: int,
    wpm: u8,
)
    requires
        pulses.len() > 0,
        in_one_character(pulses, wpm),
        begins_at(m, pulses[0].0, wpm),
        m.wf(),
        forall|c: char| #[trigger]
            morse_pattern(c) is Some ==> morse_pattern(c)->0@ != marks_of(pulses, wpm),
        gap_us >= 0,
        !lasts_dits(gap_us, 6, wpm),
    ensures
        pulses_heard(m, pulses, wpm).poll(pulses.last().1 + gap_us, wpm).text == m.text,
        lasts_dits(gap_us, 2, wpm) ==> pulses_heard(m, pulses, wpm).poll(
            pulses.last().1 + gap_us,
            wpm,
        ).code == 1,
{
    lemma_dit_positive(wpm);
    lemma_pulses_are_counted(m, pulses, wpm);
    let p = marks_of(pulses, wpm);
    lemma_code_range(p);
    let code = code_of(p);
    if pulses.len() <= 6 && LOOKUP[code] != 0 {
        lemma_table_inverts_morse(code);
        let c = LOOKUP[code] as char;
        lemma_patterns_are_marks(c);
        lemma_code_tells_the_marks(morse_pattern(c)->0@, p);
    }
}

} // verus!
