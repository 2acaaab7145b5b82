//! What the keyer does at the single tick, in terms of times and settings.

use crate::keyer::config::KeyerConfig;
use crate::keyer::control::outputs;
use crate::keyer::engine::{EngineModel, KeyerEngine, KeyerOutput, KeyerState};
use crate::keyer::laws::run;
use crate::keyer::mode_laws::{hangs, lemma_transmission_hangs_on};
use crate::keyer::morse::{text_to_elements, MorseElement};
use vstd::prelude::*;

verus! {

/// The time for which the transmitter stays on, in microseconds: what the setting
/// says in milliseconds, as far as 32 bits can count it.
pub open spec fn hang_limit(c: KeyerConfig) -> int {
    let us = c.hang_time_ms * 1000;
    if us < 0xffff_ffff {
        us
    } else {
        0xffff_ffff
    }
}

/// While the engine is idle with the key up and the transmitter on, in every mode, a
/// tick adds its span to the time that counts. The transmitter stays on as long as
/// that time is less than the hang time, and is released at the first tick at which it
/// is not.
pub proof fn lemma_hang_time_releases_the_transmitter(m: EngineModel)
    requires
        m.wf(),
        hangs(m),
    ensures
        m.hang_counter + m.tick < hang_limit(m.config) ==> {
            &&& m.ticked().1 is None
            &&& hangs(m.ticked().0)
            &&& m.ticked().0.hang_counter == m.hang_counter + m.tick
        },
        m.hang_counter + m.tick >= hang_limit(m.config) ==> {
            &&& m.ticked().1 == Some(KeyerOutput::PttRequest(false))
            &&& !m.ticked().0.ptt_active
        },
{
}

/// The same of the tick that is called on an engine.
pub proof fn lemma_tick_waits_for_the_hang_time(e: &mut KeyerEngine, out: Option<KeyerOutput>)
    requires
        call_ensures(KeyerEngine::tick, (e,), out),
        old(e)@.wf(),
        hangs(old(e)@),
    ensures
        out == if old(e)@.hang_counter + old(e)@.tick < hang_limit(old(e)@.config) {
            None
        } else {
            Some(KeyerOutput::PttRequest(false))
        },
        final(e)@.ptt_active == (out is None),
{
    lemma_hang_time_releases_the_transmitter(old(e)@);
}

/// Over any number of ticks: nothing is asked of the transmitter as long as they last
/// less than the hang time, and the tick that reaches it asks for the release.
pub proof fn lemma_hang_time_over_ticks(m: EngineModel, n: nat)
    requires
        m.wf(),
        hangs(m),
        m.hang_counter + n * m.tick < hang_limit(m.config),
    ensures
        outputs(m, n).len() == 0,
        run(m, n).ptt_active,
        run(m, n).ticked().1 == if m.hang_counter + (n + 1) * m.tick < hang_limit(m.config) {
            None
        } else {
            Some(KeyerOutput::PttRequest(false))
        },
{
    lemma_transmission_hangs_on(m, n);
    assert((n + 1) * m.tick == n * m.tick + m.tick) by (nonlinear_arith);
    assert(n * m.tick >= 0) by (nonlinear_arith)
        requires
            m.tick > 0,
            n >= 0,
    ;
    lemma_hang_time_releases_the_transmitter(run(m, n));
}

/// A gap goes on, and there is nothing to send behind it.
pub open spec fn last_gap(m: EngineModel) -> bool {
    &&& m.state is DitDelay || m.state is DashDelay
    &&& !(m.config.mode is Straight)
    &&& m.ptt_active && !m.key_active
    &&& !m.dit_held && !m.dash_held && !m.dit_memory && !m.dash_memory
    &&& m.text_queue.len() == 0
}

/// The hang time counts from the end of the gap behind the last element: the tick at
/// which the gap is over leaves the engine idle with nothing counted, and the
/// transmitter is released by the tick at which the hang time is over, not before.
pub proof fn lemma_hang_time_counts_from_the_gap(m: EngineModel, n: nat)
    requires
        m.wf(),
        last_gap(m),
        !m.config.auto_spacing || m.config.mode is SinglePaddle,
        m.elapsed + m.tick >= m.phase_end,
        n * m.tick < hang_limit(m.config),
    ensures
        m.ticked().1 is None,
        outputs(m.ticked().0, n).len() == 0,
        run(m.ticked().0, n).ptt_active,
        run(m.ticked().0, n).ticked().1 == if (n + 1) * m.tick < hang_limit(m.config) {
            None
        } else {
            Some(KeyerOutput::PttRequest(false))
        },
{
    let idle = m.ticked().0;
    assert(hangs(idle) && idle.hang_counter == 0);
    lemma_hang_time_over_ticks(idle, n);
}

/// With a straight key, and with the dash paddle of a bug, it counts from the key-up.
pub proof fn lemma_hang_time_counts_from_key_up(m: EngineModel, n: nat)
    requires
        m.wf(),
        m.config.mode is Straight || m.config.mode is Bug,
        m.state is StraightKey,
        !m.dit_held && !m.dash_held && !m.dit_memory && !m.dash_memory,
        m.text_queue.len() == 0,
        m.ticked().1 == Some(KeyerOutput::KeyUp),
        n * m.tick < hang_limit(m.config),
    ensures
        outputs(m.ticked().0, n).len() == 0,
        run(m.ticked().0, n).ptt_active,
        run(m.ticked().0, n).ticked().1 == if (n + 1) * m.tick < hang_limit(m.config) {
            None
        } else {
            Some(KeyerOutput::PttRequest(false))
        },
{
    let idle = m.ticked().0;
    assert(hangs(idle) && idle.hang_counter == 0);
    assert(idle.transitions.len() <= 64);
    lemma_hang_time_over_ticks(idle, n);
}

/// Opening a straight key is believed when it has lasted 20 ms.
pub proof fn lemma_straight_key_waits_20_ms(m: EngineModel)
    requires
        m.wf(),
        m.config.mode is Straight,
        m.state is StraightKey,
        m.key_active,
    ensures
        (m.dit_held || m.dash_held) ==> m.ticked().1 is None && m.ticked().0.key_active
            && m.ticked().0.release_grace == 0,
        !m.dit_held && !m.dash_held && m.release_grace + m.tick < 20_000 ==> m.ticked().1 is None
            && m.ticked().0.key_active && m.ticked().0.release_grace == m.release_grace + m.tick,
        !m.dit_held && !m.dash_held && m.release_grace + m.tick >= 20_000 ==> m.ticked().1 == Some(
            KeyerOutput::KeyUp,
        ) && !m.ticked().0.key_active && m.ticked().0.release_grace == 0,
{
}

/// What is left of an element is more than the dead zone: `percent` of its length, at
/// most all of it.
pub open spec fn before_dead_zone(end: int, now: int, length: int, percent: int) -> bool {
    let left = if end > now {
        end - now
    } else {
        0
    };
    100 * left > length * (if percent < 100 {
        percent
    } else {
        100
    })
}

proof fn lemma_window_is_before_dead_zone(m: EngineModel)
    requires
        m.element_duration >= 0,
    ensures
        m.memory_window_open() <==> before_dead_zone(
            m.phase_end,
            m.elapsed,
            m.element_duration,
            m.config.iambic_b_timing_percent as int,
        ),
{
    let left: int = if m.phase_end > m.elapsed {
        m.phase_end - m.elapsed
    } else {
        0
    };
    let percent: int = if m.config.iambic_b_timing_percent < 100 {
        m.config.iambic_b_timing_percent as int
    } else {
        100
    };
    let part = m.element_duration * percent;
    assert((left > part / 100) <==> (100 * left > part));
}

/// Iambic B remembers the opposite paddle during an element as long as more of the
/// element is left than its dead zone; the other modes that send on their own always
/// remember it. What was remembered stays so.
pub proof fn lemma_opposite_press_is_latched(m: EngineModel)
    requires
        m.wf(),
        m.config.mode is IambicA || m.config.mode is IambicB || m.config.mode is Ultimatic
            || m.config.mode is Bug,
        m.state is SendDit || m.state is SendDash,
        m.key_active,
    ensures
        ({
            let latch = !(m.config.mode is IambicB) || before_dead_zone(
                m.phase_end,
                m.elapsed + m.tick,
                m.element_duration,
                m.config.iambic_b_timing_percent as int,
            );
            let next = m.ticked().0;
            &&& m.state is SendDit ==> next.dash_memory == (m.dash_memory || (m.dash_held && latch))
                && next.dit_memory == m.dit_memory
            &&& m.state is SendDash ==> next.dit_memory == (m.dit_memory || (m.dit_held && latch))
                && next.dash_memory == m.dash_memory
        }),
{
    lemma_window_is_before_dead_zone(EngineModel { elapsed: m.elapsed + m.tick, ..m });
}

/// A paddle that is closed is remembered, even if it opens again before the next tick:
/// always between elements, and during one unless iambic B has come to its dead zone.
/// While a text goes out the text is dropped instead. Without reversal the dit contact
/// is the dit paddle.
pub proof fn lemma_closing_a_paddle_is_remembered(m: EngineModel, dit: bool, dash: bool)
    requires
        m.wf(),
        !m.config.keys_reversed,
    ensures
        ({
            let next = m.with_paddles(dit, dash);
            let latch = !m.text_sending && ((!(m.state is SendDit) && !(m.state is SendDash)) || !(
            m.config.mode is IambicB) || before_dead_zone(
                m.phase_end,
                m.elapsed,
                m.element_duration,
                m.config.iambic_b_timing_percent as int,
            ));
            &&& next.dit_held == dit && next.dash_held == dash
            &&& next.dit_memory == (m.dit_memory || (dit && !m.dit_held && latch))
            &&& next.dash_memory == (m.dash_memory || (dash && !m.dash_held && latch))
            &&& next.state == m.state && next.phase_end == m.phase_end && next.elapsed == m.elapsed
            &&& dash && !m.dash_held ==> next.last_paddle == Some(true)
            &&& dit && !m.dit_held && !(dash && !m.dash_held) ==> next.last_paddle == Some(false)
            &&& !(dit && !m.dit_held) && !(dash && !m.dash_held) ==> next.last_paddle
                == m.last_paddle
            &&& m.text_sending && (dit || dash) ==> next.text_queue.len() == 0
                && !next.text_sending
            &&& !(m.text_sending && (dit || dash)) ==> next.text_queue == m.text_queue
                && next.text_sending == m.text_sending
        }),
{
    lemma_window_is_before_dead_zone(m);
}

/// When a phase of a length begins at a tick, it ends that long after the last
/// deadline, if less than a tick has passed since, else that long after now.
pub open spec fn ends_after(m: EngineModel, length: int) -> int {
    let now = m.elapsed + m.tick;
    if now - m.phase_end < m.tick {
        m.phase_end + length
    } else {
        now + length
    }
}

/// An idle engine that sends on its own takes up a paddle at the next tick, the dit
/// paddle first: the transmitter is requested if it is off, else the key goes down. The
/// element lasts as long as the settings say.
pub proof fn lemma_idle_press_begins_an_element(m: EngineModel, dot: u32, dash: u32)
    requires
        m.wf(),
        m.state is Idle,
        m.config.mode is IambicA || m.config.mode is IambicB || m.config.mode is Ultimatic,
        m.dit_held || m.dit_memory || m.dash_held || m.dash_memory,
        call_ensures(KeyerConfig::effective_dot_duration_us, (&m.config,), dot),
        call_ensures(KeyerConfig::effective_dash_duration_us, (&m.config,), dash),
    ensures
        ({
            let is_dit = m.dit_held || m.dit_memory;
            let next = m.ticked().0;
            let length = if is_dit {
                dot as int
            } else {
                dash as int
            };
            &&& next.state == if is_dit {
                KeyerState::SendDit
            } else {
                KeyerState::SendDash
            }
            &&& next.phase_end == ends_after(m, length)
            &&& next.element_duration == length
            &&& m.ptt_active ==> m.ticked().1 == Some(KeyerOutput::KeyDown) && next.key_active
            &&& !m.ptt_active ==> m.ticked().1 == Some(KeyerOutput::PttRequest(true))
                && next.ptt_active && !next.key_active
            &&& is_dit ==> !next.dit_memory && next.dash_memory == m.dash_memory
            &&& !is_dit ==> !next.dash_memory && next.dit_memory == m.dit_memory
        }),
{
}

/// The key goes down at the tick behind the request for the transmitter.
pub proof fn lemma_key_follows_the_request(m: EngineModel)
    requires
        m.wf(),
        m.state is SendDit || m.state is SendDash,
        !(m.config.mode is Straight),
        !m.key_active,
    ensures
        m.ticked().1 == Some(KeyerOutput::KeyDown),
        m.ticked().0.key_active,
        m.ticked().0.phase_end == m.phase_end,
        m.ticked().0.state == m.state,
{
}

/// An element ends at the first tick at or behind its deadline: the key goes up, and a
/// gap of one dit begins, unless a text says what follows. An element of single-paddle
/// mode does once it is decided.
pub proof fn lemma_element_ends_at_its_deadline(m: EngineModel, gap: u32)
    requires
        m.wf(),
        m.state is SendDit || m.state is SendDash,
        !(m.config.mode is Straight),
        m.config.mode is SinglePaddle && m.state is SendDit ==> m.single_paddle_decided,
        m.key_active,
        call_ensures(KeyerConfig::element_gap_us, (&m.config,), gap),
    ensures
        m.elapsed + m.tick < m.phase_end ==> m.ticked().1 is None && m.ticked().0.key_active
            && m.ticked().0.phase_end == m.phase_end && m.ticked().0.state == m.state,
        m.elapsed + m.tick >= m.phase_end ==> m.ticked().1 == Some(KeyerOutput::KeyUp)
            && !m.ticked().0.key_active,
        m.elapsed + m.tick >= m.phase_end && !m.text_sending ==> m.ticked().0.phase_end
            == ends_after(m, gap as int) && m.ticked().0.state == (if m.state is SendDit {
            KeyerState::DitDelay
        } else {
            KeyerState::DashDelay
        }),
        m.elapsed + m.tick >= m.phase_end && m.text_sending ==> m.ticked().0.state is Idle
            && m.ticked().0.phase_end == m.phase_end,
{
}

/// A text takes its times from the settings: marks of the keyed lengths, gaps of one
/// dit within a letter, and letter and word gaps as they are configured.
pub proof fn lemma_text_element_takes_its_time(
    m: EngineModel,
    dot: u32,
    dash: u32,
    gap: u32,
    letter: u32,
    word: u32,
)
    requires
        m.wf(),
        m.state is Idle,
        !(m.config.mode is Straight),
        !m.dit_held && !m.dash_held && !m.dit_memory && !m.dash_memory,
        m.text_queue.len() > 0,
        call_ensures(KeyerConfig::effective_dot_duration_us, (&m.config,), dot),
        call_ensures(KeyerConfig::effective_dash_duration_us, (&m.config,), dash),
        call_ensures(KeyerConfig::element_gap_us, (&m.config,), gap),
        call_ensures(KeyerConfig::letter_gap_us, (&m.config,), letter),
        call_ensures(KeyerConfig::word_gap_us, (&m.config,), word),
    ensures
        ({
            let next = m.ticked().0;
            let e = m.text_queue[0];
            let is_mark = e is Dit || e is Dash;
            let length = match e {
                MorseElement::Dit => dot,
                MorseElement::Dash => dash,
                MorseElement::ElementGap => gap,
                MorseElement::LetterGap => letter,
                MorseElement::WordGap => word,
            };
            &&& next.phase_end == ends_after(m, length as int)
            &&& next.text_queue == m.text_queue.subrange(1, m.text_queue.len() as int)
            &&& next.text_sending && next.single_paddle_decided
            &&& !is_mark ==> m.ticked().1 is None && next.key_active == m.key_active
                && next.state is DitDelay
            &&& e is Dit ==> next.state is SendDit
            &&& e is Dash ==> next.state is SendDash
            &&& is_mark && m.ptt_active ==> m.ticked().1 == Some(KeyerOutput::KeyDown)
            &&& is_mark && !m.ptt_active ==> m.ticked().1 == Some(KeyerOutput::PttRequest(true))
        }),
{
}

/// With automatic spacing a letter gap follows the last element of a letter: its end
/// is a letter gap behind the end of the element. Without it the engine is idle as
/// soon as the gap of one dit is over.
pub proof fn lemma_spacing_completes_the_letter_gap(m: EngineModel, gap: u32, letter: u32)
    requires
        m.wf(),
        last_gap(m),
        m.config.mode is IambicA || m.config.mode is IambicB || m.config.mode is Ultimatic,
        m.phase_end <= m.elapsed + m.tick < m.phase_end + m.tick,
        call_ensures(KeyerConfig::element_gap_us, (&m.config,), gap),
        call_ensures(KeyerConfig::letter_gap_us, (&m.config,), letter),
    ensures
        m.ticked().1 is None,
        m.config.auto_spacing && letter > gap ==> m.ticked().0.state is LetterSpace
            && m.ticked().0.phase_end == (m.phase_end - gap) + letter,
        !m.config.auto_spacing || letter <= gap ==> m.ticked().0.state is Idle
            && m.ticked().0.hang_counter == 0,
{
}

/// The letter space lasts to its deadline or to the next press, and nothing is sent
/// meanwhile.
pub proof fn lemma_letter_space_ends(m: EngineModel)
    requires
        m.wf(),
        m.state is LetterSpace,
        !(m.config.mode is Straight),
        !(m.config.mode is Bug) || m.dit_held || !m.dash_held,
    ensures
        m.ticked().1 is None,
        m.ticked().0.state is LetterSpace <==> !m.dit_held && !m.dash_held && m.elapsed + m.tick
            < m.phase_end,
        m.ticked().0.state is LetterSpace || m.ticked().0.state is Idle,
        m.ticked().0.phase_end == if m.dit_held || m.dash_held {
            m.elapsed + m.tick
        } else {
            m.phase_end
        },
{
}

/// The element that follows a gap in the iambic modes: the opposite one where it is
/// held or, in iambic B, remembered; else the same one; else none.
pub proof fn lemma_gap_ends_with_the_opposite_element(m: EngineModel, dot: u32, dash: u32)
    requires
        m.wf(),
        m.config.mode is IambicA || m.config.mode is IambicB,
        m.state is DitDelay || m.state is DashDelay,
        m.elapsed + m.tick >= m.phase_end,
        call_ensures(KeyerConfig::effective_dot_duration_us, (&m.config,), dot),
        call_ensures(KeyerConfig::effective_dash_duration_us, (&m.config,), dash),
    ensures
        ({
            let b = m.config.mode is IambicB;
            let dit_due = m.dit_held || (b && m.dit_memory);
            let dash_due = m.dash_held || (b && m.dash_memory);
            let sends_dash = dash_due && (m.state is DitDelay || !dit_due);
            let next = m.ticked().0;
            &&& sends_dash ==> next.state is SendDash && next.phase_end == ends_after(
                m,
                dash as int,
            ) && !next.dash_memory
            &&& dit_due && !sends_dash ==> next.state is SendDit && next.phase_end == ends_after(
                m,
                dot as int,
            ) && !next.dit_memory
            &&& !dit_due && !dash_due ==> !(next.state is SendDit) && !(next.state is SendDash)
                && m.ticked().1 is None
        }),
{
}

/// In ultimatic mode the paddle that was pressed last decides, as long as it is held
/// or its press is still to be served; else a paddle that is held does.
pub proof fn lemma_ultimatic_follows_the_last_paddle(m: EngineModel)
    requires
        m.wf(),
        m.config.mode is Ultimatic,
        m.state is DitDelay || m.state is DashDelay,
        m.elapsed + m.tick >= m.phase_end,
    ensures
        ({
            let next = m.ticked().0.state;
            let dit = m.dit_held || m.dit_memory;
            let dash = m.dash_held || m.dash_memory;
            &&& m.last_paddle == Some(true) && dash ==> next is SendDash
            &&& m.last_paddle == Some(false) && dit ==> next is SendDit
            &&& m.last_paddle == Some(true) && !dash && m.dit_held ==> next is SendDit
            &&& m.last_paddle == Some(false) && !dit && m.dash_held ==> next is SendDash
            &&& m.last_paddle is None && m.dit_held ==> next is SendDit
            &&& m.last_paddle is None && !m.dit_held && m.dash_held ==> next is SendDash
            &&& !m.dit_held && !m.dash_held && !(m.last_paddle == Some(true) && m.dash_memory) && !(
            m.last_paddle == Some(false) && m.dit_memory) ==> !(next is SendDit) && !(
            next is SendDash)
        }),
{
}

/// The automatic dits of a bug follow the dit paddle, and its dash paddle never sends
/// an element.
pub proof fn lemma_bug_sends_dits_only(m: EngineModel)
    requires
        m.wf(),
        m.config.mode is Bug,
        !(m.state is SendDash),
    ensures
        m.text_queue.len() == 0 ==> !(m.ticked().0.state is SendDash),
        m.state is Idle && m.dit_held ==> m.ticked().0.state is SendDit,
        m.state is DitDelay && m.elapsed + m.tick >= m.phase_end && m.dit_held
            ==> m.ticked().0.state is SendDit,
        m.state is Idle && m.dash_held && !m.dit_held ==> m.ticked().0.state is StraightKey,
        m.state is DitDelay && !m.dit_held ==> !(m.ticked().0.state is SendDit),
{
}

/// A new engine is idle with everything off, an empty text and no time passed; its
/// ticks are a millisecond unless another span is given.
pub proof fn lemma_new_engine_is_at_rest(
    config: KeyerConfig,
    tick_us: u32,
    e: KeyerEngine,
    f: KeyerEngine,
)
    requires
        call_ensures(KeyerEngine::new, (config,), e),
        call_ensures(KeyerEngine::new_with_tick, (config, tick_us), f),
    ensures
        e@.tick == 1000 && f@.tick == tick_us,
        e@ == (EngineModel { tick: 1000, ..f@ }),
        e@.config == config && e@.state is Idle && e@.elapsed == 0 && e@.phase_end == 0,
        !e@.ptt_active && !e@.key_active && !e@.text_sending,
        !e@.dit_held && !e@.dash_held && !e@.dit_memory && !e@.dash_memory,
        e@.text_queue.len() == 0 && e@.transitions.len() == 0,
        e@.hang_counter == 0 && e@.release_grace == 0 && e@.last_paddle is None,
{
}

/// The engine keeps the last 64 transitions: a move of the key is the newest, and the
/// oldest makes room only when there are 64.
pub proof fn lemma_last_64_transitions_are_kept(m: EngineModel)
    requires
        m.wf(),
    ensures
        ({
            let next = m.ticked().0.transitions;
            let moved = m.ticked().1 == Some(KeyerOutput::KeyDown) || m.ticked().1 == Some(
                KeyerOutput::KeyUp,
            );
            &&& !moved ==> next == m.transitions
            &&& moved ==> next.len() == if m.transitions.len() < 64 {
                m.transitions.len() + 1
            } else {
                64
            }
            &&& moved ==> next.last().key_down == (m.ticked().1 == Some(KeyerOutput::KeyDown))
            &&& moved && m.elapsed + m.tick <= u64::MAX ==> next.last().timestamp_us == m.elapsed
                + m.tick
            &&& moved && m.transitions.len() < 64 ==> next.drop_last() == m.transitions
            &&& moved && m.transitions.len() == 64 ==> next.drop_last()
                == m.transitions.drop_first()
        }),
{
    crate::keyer::laws::lemma_moves_are_recorded(m);
}

/// A text joins the queue behind what waits, as the elements that it consists of, and
/// nothing else changes; dropping it empties the queue.
pub proof fn lemma_text_joins_the_queue(
    e: &mut KeyerEngine,
    text: &str,
    elements: Vec<MorseElement>,
    k: int,
)
    requires
        call_ensures(KeyerEngine::send_text, (e, text), ()),
        call_ensures(text_to_elements, (text,), elements),
    ensures
        ({
            let was = old(e)@.text_queue;
            let now = final(e)@.text_queue;
            &&& now.len() == was.len() + elements@.len()
            &&& 0 <= k < was.len() ==> now[k] == was[k]
            &&& was.len() <= k < now.len() ==> now[k] == elements@[k - was.len()]
            &&& final(e)@ == (EngineModel { text_queue: now, text_sending: true, ..old(e)@ })
        }),
{
}

/// A gap of a text ends at its deadline and leaves the rest of the text to the next tick.
/// The deadline stays, so that what follows counts from it.
pub proof fn lemma_text_gap_hands_over(m: EngineModel)
    requires
        m.wf(),
        m.state is DitDelay || m.state is DashDelay,
        !(m.config.mode is Straight),
        m.text_sending,
        m.text_queue.len() > 0,
        !m.dit_held && !m.dash_held && !m.dit_memory && !m.dash_memory,
    ensures
        m.ticked().1 is None,
        m.ticked().0.text_queue == m.text_queue,
        m.ticked().0.text_sending,
        m.ticked().0.phase_end == m.phase_end,
        m.ticked().0.state is Idle <==> m.elapsed + m.tick >= m.phase_end,
        m.elapsed + m.tick < m.phase_end ==> m.ticked().0.state == m.state,
{
}

/// In single-paddle mode either paddle begins an element at an idle tick: it starts as a
/// dit, and what it becomes is open until the paddle is released or the dit is over.
pub proof fn lemma_single_paddle_begins_undecided(m: EngineModel, dot: u32)
    requires
        m.wf(),
        m.config.mode is SinglePaddle,
        m.state is Idle,
        m.dit_held || m.dash_held,
        call_ensures(KeyerConfig::effective_dot_duration_us, (&m.config,), dot),
    ensures
        m.ticked().0.state is SendDit,
        !m.ticked().0.single_paddle_decided,
        m.ticked().0.phase_end == ends_after(m, dot as int),
        m.ptt_active ==> m.ticked().1 == Some(KeyerOutput::KeyDown),
        !m.ptt_active ==> m.ticked().1 == Some(KeyerOutput::PttRequest(true)),
{
}

/// Released before its deadline, or at it, such an element was a dit, and the gap of one
/// dit begins at its deadline, which is where a dit ends; held to the deadline, it goes
/// on as a dash and ends where a dash that began with it ends.
pub proof fn lemma_single_paddle_decides(
    m: EngineModel,
    dot: u32,
    dash: u32,
    gap: u32,
)
    requires
        m.wf(),
        m.config.mode is SinglePaddle,
        m.state is SendDit,
        m.key_active,
        !m.single_paddle_decided,
        m.elapsed + m.tick < m.phase_end + m.tick,
        call_ensures(KeyerConfig::effective_dot_duration_us, (&m.config,), dot),
        call_ensures(KeyerConfig::effective_dash_duration_us, (&m.config,), dash),
        call_ensures(KeyerConfig::element_gap_us, (&m.config,), gap),
    ensures
        ({
            let next = m.ticked().0;
            let held = m.dit_held || m.dash_held;
            &&& !held ==> m.ticked().1 == Some(KeyerOutput::KeyUp) && !next.key_active
                && next.phase_end == m.phase_end + gap && next.state is DitDelay
            &&& held && m.elapsed + m.tick < m.phase_end ==> m.ticked().1 is None && next.state
                is SendDit && next.key_active
            &&& held && m.elapsed + m.tick >= m.phase_end ==> m.ticked().1 is None && next.state
                is SendDash && next.key_active && next.phase_end == m.phase_end - dot + dash
        }),
{
    crate::keyer::config::lemma_dash_is_no_shorter(m.config);
}

/// What a step may do to the time that counts towards the hang time.
pub open spec fn hang_kept(m: EngineModel, r: (EngineModel, Option<KeyerOutput>)) -> bool {
    &&& r.1 == Some(KeyerOutput::KeyDown) ==> r.0.hang_counter == 0
    &&& r.0.hang_counter > m.hang_counter ==> m.state is Idle && m.ptt_active && !m.key_active
        && r.0.hang_counter <= m.hang_counter + m.tick
    &&& r.0.hang_counter < m.hang_counter ==> r.0.hang_counter == 0
}

proof fn lemma_idle_keeps_hang(m: EngineModel, bug_mode: bool)
    requires
        m.state is Idle,
        m.tick > 0,
        0 <= m.hang_counter <= u32::MAX,
    ensures
        hang_kept(m, m.iambic_idle_step(bug_mode)),
        hang_kept(m, m.single_idle_step()),
{
}

proof fn lemma_element_keeps_hang(m: EngineModel, is_dash: bool)
    requires
        m.state is SendDit || m.state is SendDash,
        0 <= m.hang_counter <= u32::MAX,
    ensures
        hang_kept(m, m.iambic_element_step(is_dash)),
        hang_kept(m, m.single_element_step(is_dash)),
{
}

proof fn lemma_delay_keeps_hang(m: EngineModel, after_dash: bool, bug_mode: bool)
    requires
        m.state is DitDelay || m.state is DashDelay,
        0 <= m.hang_counter <= u32::MAX,
    ensures
        hang_kept(m, m.iambic_delay_step(after_dash, bug_mode)),
        hang_kept(m, m.single_delay_step()),
{
}

proof fn lemma_iambic_keeps_hang(m: EngineModel, bug_mode: bool)
    requires
        m.tick > 0,
        0 <= m.hang_counter <= u32::MAX,
    ensures
        hang_kept(m, m.iambic_step(bug_mode)),
        hang_kept(m, m.single_paddle_step()),
{
    match m.state {
        KeyerState::Idle => lemma_idle_keeps_hang(m, bug_mode),
        KeyerState::SendDit => lemma_element_keeps_hang(m, false),
        KeyerState::SendDash => lemma_element_keeps_hang(m, true),
        KeyerState::DitDelay => lemma_delay_keeps_hang(m, false, bug_mode),
        KeyerState::DashDelay => lemma_delay_keeps_hang(m, true, bug_mode),
        _ => {},
    }
}

proof fn lemma_straight_keeps_hang(m: EngineModel)
    requires
        m.tick > 0,
        0 <= m.hang_counter <= u32::MAX,
    ensures
        hang_kept(m, m.straight_step()),
{
}

/// The time that counts towards the hang time is cleared whenever the key goes down, and
/// only a tick at rest with the transmitter on and the key up adds to it.
pub proof fn lemma_key_down_clears_the_hang_time(m: EngineModel)
    requires
        m.wf(),
    ensures
        m.ticked().1 == Some(KeyerOutput::KeyDown) ==> m.ticked().0.hang_counter == 0,
        m.ticked().0.hang_counter > m.hang_counter ==> m.state is Idle && m.ptt_active
            && !m.key_active && m.ticked().0.hang_counter <= m.hang_counter + m.tick,
        m.ticked().0.hang_counter < m.hang_counter ==> m.ticked().0.hang_counter == 0,
{
    let t = EngineModel { elapsed: m.elapsed + m.tick, ..m };
    lemma_iambic_keeps_hang(t, false);
    lemma_iambic_keeps_hang(t, true);
    lemma_straight_keeps_hang(t);
}

/// When everything has been sent nothing of it is left: no press, no paddle and no text.
pub proof fn lemma_rest_forgets_everything(m: EngineModel)
    requires
        m.wf(),
        last_gap(m),
        m.elapsed + m.tick >= m.phase_end,
        !m.config.auto_spacing || m.config.mode is SinglePaddle,
    ensures
        ({
            let next = m.ticked().0;
            &&& next.state is Idle
            &&& !next.dit_memory && !next.dash_memory && next.last_paddle is None
            &&& !next.text_sending && !next.single_paddle_decided
            &&& next.hang_counter == 0
            &&& next.ptt_active && !next.key_active
        }),
{
}

/// During the gap behind an element the opposite paddle is remembered when it is held;
/// the gap goes on to its deadline.
pub proof fn lemma_gap_remembers_the_opposite_paddle(m: EngineModel)
    requires
        m.wf(),
        m.state is DitDelay || m.state is DashDelay,
        m.config.mode is IambicA || m.config.mode is IambicB || m.config.mode is Ultimatic
            || m.config.mode is Bug,
        m.elapsed + m.tick < m.phase_end,
    ensures
        ({
            let next = m.ticked().0;
            &&& m.ticked().1 is None
            &&& next.state == m.state && next.phase_end == m.phase_end
            &&& m.state is DitDelay ==> next.dash_memory == (m.dash_memory || m.dash_held)
                && next.dit_memory == m.dit_memory
            &&& m.state is DashDelay ==> next.dit_memory == (m.dit_memory || m.dit_held)
                && next.dash_memory == m.dash_memory
        }),
{
}

/// A gap of single-paddle mode ends with a new undecided element while a paddle is held.
pub proof fn lemma_single_paddle_gap_ends(m: EngineModel, dot: u32)
    requires
        m.wf(),
        m.config.mode is SinglePaddle,
        m.state is DitDelay || m.state is DashDelay,
        call_ensures(KeyerConfig::effective_dot_duration_us, (&m.config,), dot),
    ensures
        m.elapsed + m.tick < m.phase_end ==> m.ticked().1 is None && m.ticked().0.state == m.state
            && m.ticked().0.phase_end == m.phase_end,
        m.elapsed + m.tick >= m.phase_end && (m.dit_held || m.dash_held)
            ==> m.ticked().0.state is SendDit && !m.ticked().0.single_paddle_decided
            && m.ticked().0.phase_end == ends_after(m, dot as int),
        m.elapsed + m.tick >= m.phase_end && !m.dit_held && !m.dash_held && m.text_queue.len() == 0
            ==> m.ticked().0.state is Idle && m.ticked().1 is None && m.ticked().0.hang_counter == 0
            && !m.ticked().0.dit_memory && !m.ticked().0.dash_memory,
{
}

/// In single-paddle mode only a paddle that is held begins an element: with nothing held
/// and no text the engine stays at rest, whatever was pressed before.
pub proof fn lemma_single_paddle_needs_a_held_paddle(m: EngineModel)
    requires
        m.wf(),
        m.config.mode is SinglePaddle,
        m.state is Idle,
        !m.dit_held && !m.dash_held,
        m.text_queue.len() == 0,
    ensures
        m.ticked().0.state is Idle,
        m.ticked().1 is None || m.ticked().1 == Some(KeyerOutput::PttRequest(false)),
        m.ticked().0.key_active == m.key_active,
{
}

/// In iambic A the gap behind the last element leaves nothing behind, even if a press was
/// remembered.
pub proof fn lemma_iambic_a_forgets_at_rest(m: EngineModel)
    requires
        m.wf(),
        m.config.mode is IambicA,
        m.state is DitDelay || m.state is DashDelay,
        !m.dit_held && !m.dash_held,
        m.text_queue.len() == 0,
        !m.config.auto_spacing,
        m.elapsed + m.tick >= m.phase_end,
    ensures
        m.ticked().1 is None,
        m.ticked().0.state is Idle,
        !m.ticked().0.dit_memory && !m.ticked().0.dash_memory,
        m.ticked().0.hang_counter == 0,
{
}

/// A straight key that is closed when the transmitter is on puts the key down at once,
/// else it asks for the transmitter first.
pub proof fn lemma_straight_key_follows_the_contact(m: EngineModel)
    requires
        m.wf(),
        m.config.mode is Straight,
        m.state is Idle,
        m.dit_held || m.dash_held,
    ensures
        m.ticked().0.state is StraightKey,
        m.ticked().0.release_grace == 0,
        m.ptt_active ==> m.ticked().1 == Some(KeyerOutput::KeyDown),
        !m.ptt_active ==> m.ticked().1 == Some(KeyerOutput::PttRequest(true)),
{
}

/// A mode that is changed meanwhile ends a closed straight key without an output, and an
/// element of another mode waits while the engine is a straight key.
pub proof fn lemma_changed_mode_is_taken_up(m: EngineModel)
    requires
        m.wf(),
    ensures
        m.state is StraightKey && !(m.config.mode is Straight) && !(m.config.mode is Bug)
            ==> m.ticked().1 is None && m.ticked().0 == (EngineModel {
            state: KeyerState::Idle,
            elapsed: m.elapsed + m.tick,
            ..m
        }),
        m.config.mode is Straight && !(m.state is Idle) && !(m.state is StraightKey)
            ==> m.ticked().1 is None && m.ticked().0 == (EngineModel {
            elapsed: m.elapsed + m.tick,
            ..m
        }),
{
}

} // verus!
