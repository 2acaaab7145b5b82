//! What holds of the keyer engine over any number of calls.

use crate::keyer::config::{max_int, min_int, KeyerConfig, KeyerMode};
use crate::keyer::engine::{
    EngineModel, KeyTransition, KeyerOutput, KeyerState, MAX_RECORDED_TRANSITIONS,
};
use crate::keyer::morse::MorseElement;
use crate::ring::remembered;
use vstd::prelude::*;

verus! {

/// The key is down at most while an element or a straight key is being sent,
/// and the mode knows about the straight key.
pub open spec fn settled(m: EngineModel) -> bool {
    &&& m.key_active ==> m.state is SendDit || m.state is SendDash || m.state is StraightKey
    &&& m.state is StraightKey ==> m.config.mode is Straight || m.config.mode is Bug
}

/// What an output says about the key and PTT lines before and after it.
pub open spec fn output_fits(m: EngineModel, n: EngineModel, out: Option<KeyerOutput>) -> bool {
    match out {
        Some(KeyerOutput::KeyDown) => !m.key_active && n.key_active && m.ptt_active && n.ptt_active,
        Some(KeyerOutput::KeyUp) => m.key_active && !n.key_active && m.ptt_active && n.ptt_active,
        Some(KeyerOutput::PttRequest(on)) => m.ptt_active == !on && n.ptt_active == on
            && !m.key_active && !n.key_active,
        None => n.key_active == m.key_active && n.ptt_active == m.ptt_active,
    }
}

/// The record after a step with output `out`.
pub open spec fn record_after(m: EngineModel, out: Option<KeyerOutput>) -> Seq<KeyTransition> {
    match out {
        Some(KeyerOutput::KeyDown) => m.recorded(true).transitions,
        Some(KeyerOutput::KeyUp) => m.recorded(false).transitions,
        _ => m.transitions,
    }
}

/// What remains of the queued text after a step.
pub open spec fn queue_after(m: EngineModel, queue: Seq<MorseElement>) -> bool {
    ||| queue == m.text_queue
    ||| m.text_queue.len() > 0 && queue == m.text_queue.drop_first()
    ||| queue.len() == 0 && (m.dit_held || m.dash_held)
}

/// The transmitter is on wherever the key is or will be down.
pub open spec fn covered(m: EngineModel) -> bool {
    &&& m.key_active ==> m.ptt_active
    &&& (m.state is SendDit || m.state is SendDash || m.state is StraightKey) ==> m.ptt_active
}

/// What each step of the engine keeps to.
spec fn step_fits(m: EngineModel, step: (EngineModel, Option<KeyerOutput>)) -> bool {
    let n = step.0;
    let out = step.1;
    &&& n.elapsed == m.elapsed && n.tick == m.tick && n.config == m.config
    &&& n.transitions == record_after(m, out)
    &&& queue_after(m, n.text_queue)
    &&& out == Some(KeyerOutput::PttRequest(false)) ==> m.state is Idle && !m.key_active
        && n.hang_counter >= m.config.hang_us()
    &&& covered(m) && settled(m) ==> covered(n) && settled(n) && output_fits(m, n, out)
}

proof fn lemma_hang_fits(m: EngineModel)
    requires
        m.state is Idle,
    ensures
        step_fits(m, m.hang_step()),
{
}

proof fn lemma_text_fits(m: EngineModel)
    requires
        m.state is Idle,
        m.text_queue.len() > 0,
    ensures
        step_fits(m, m.text_step()),
{
}

proof fn lemma_iambic_idle_fits(m: EngineModel, bug_mode: bool)
    requires
        m.state is Idle,
    ensures
        step_fits(m, m.iambic_idle_step(bug_mode)),
{
    lemma_hang_fits(m);
    if m.text_queue.len() > 0 {
        lemma_text_fits(m);
    }
}

proof fn lemma_iambic_element_fits(m: EngineModel, is_dash: bool)
    requires
        m.state is SendDit || m.state is SendDash,
    ensures
        step_fits(m, m.iambic_element_step(is_dash)),
{
}

proof fn lemma_tail_fits(m: EngineModel)
    requires
        m.state is DitDelay || m.state is DashDelay,
    ensures
        step_fits(m, (m.delay_tail(), None)),
{
}

proof fn lemma_gap_end_fits(m: EngineModel, after_dash: bool, bug_mode: bool)
    requires
        m.state is DitDelay || m.state is DashDelay,
    ensures
        step_fits(m, m.gap_ended(after_dash, bug_mode)),
{
    lemma_tail_fits(m);
}

proof fn lemma_iambic_delay_fits(m: EngineModel, after_dash: bool, bug_mode: bool)
    requires
        m.state is DitDelay || m.state is DashDelay,
    ensures
        step_fits(m, m.iambic_delay_step(after_dash, bug_mode)),
{
    lemma_gap_end_fits(m.text_yields(), after_dash, bug_mode);
}

proof fn lemma_letter_space_fits(m: EngineModel)
    requires
        m.state is LetterSpace,
    ensures
        step_fits(m, (m.letter_space_step(), None)),
{
}

proof fn lemma_iambic_fits(m: EngineModel, bug_mode: bool)
    requires
        !(m.state is StraightKey && (m.config.mode is Straight || m.config.mode is Bug)),
    ensures
        step_fits(m, m.iambic_step(bug_mode)),
{
    match m.state {
        KeyerState::Idle => lemma_iambic_idle_fits(m, bug_mode),
        KeyerState::SendDit => lemma_iambic_element_fits(m, false),
        KeyerState::SendDash => lemma_iambic_element_fits(m, true),
        KeyerState::DitDelay => lemma_iambic_delay_fits(m, false, bug_mode),
        KeyerState::DashDelay => lemma_iambic_delay_fits(m, true, bug_mode),
        KeyerState::LetterSpace => lemma_letter_space_fits(m),
        KeyerState::StraightKey => {},
    }
}

proof fn lemma_straight_fits(m: EngineModel)
    requires
        m.config.mode is Straight,
    ensures
        step_fits(m, m.straight_step()),
{
    if m.state is Idle {
        lemma_hang_fits(m);
    }
}

proof fn lemma_bug_fits(m: EngineModel)
    requires
        m.config.mode is Bug,
    ensures
        step_fits(m, m.bug_step()),
{
    if !(m.state is StraightKey) {
        lemma_iambic_fits(m, true);
    }
}

proof fn lemma_single_idle_fits(m: EngineModel)
    requires
        m.state is Idle,
    ensures
        step_fits(m, m.single_idle_step()),
{
    lemma_hang_fits(m);
    if m.text_queue.len() > 0 {
        lemma_text_fits(m);
    }
}

proof fn lemma_single_element_fits(m: EngineModel, is_dash: bool)
    requires
        m.state is SendDit || m.state is SendDash,
    ensures
        step_fits(m, m.single_element_step(is_dash)),
{
}

proof fn lemma_single_delay_fits(m: EngineModel)
    requires
        m.state is DitDelay || m.state is DashDelay,
    ensures
        step_fits(m, m.single_delay_step()),
{
}

proof fn lemma_single_fits(m: EngineModel)
    requires
        m.config.mode is SinglePaddle,
    ensures
        step_fits(m, m.single_paddle_step()),
{
    match m.state {
        KeyerState::Idle => lemma_single_idle_fits(m),
        KeyerState::SendDit => lemma_single_element_fits(m, false),
        KeyerState::SendDash => lemma_single_element_fits(m, true),
        KeyerState::DitDelay => lemma_single_delay_fits(m),
        KeyerState::DashDelay => lemma_single_delay_fits(m),
        KeyerState::LetterSpace => lemma_letter_space_fits(m),
        KeyerState::StraightKey => {},
    }
}

/// The engine just before the step of a tick.
spec fn advanced(m: EngineModel) -> EngineModel {
    EngineModel { elapsed: m.elapsed + m.tick, ..m }
}

proof fn lemma_tick_fits(m: EngineModel)
    ensures
        step_fits(advanced(m), m.ticked()),
{
    let a = advanced(m);
    match m.config.mode {
        KeyerMode::Straight => lemma_straight_fits(a),
        KeyerMode::Bug => lemma_bug_fits(a),
        KeyerMode::IambicA | KeyerMode::IambicB | KeyerMode::Ultimatic => lemma_iambic_fits(
            a,
            false,
        ),
        KeyerMode::SinglePaddle => lemma_single_fits(a),
    }
}

/// Outputs and lines go together: key-down and key-up alternate, the
/// transmitter is requested before the first key-down and released only with
/// the key up, and a tick without an output changes neither line.
pub proof fn lemma_outputs_alternate(m: EngineModel)
    requires
        covered(m),
        settled(m),
    ensures
        covered(m.ticked().0),
        settled(m.ticked().0),
        output_fits(m, m.ticked().0, m.ticked().1),
{
    lemma_tick_fits(m);
}

/// The record of transitions gains one entry, stamped with the time of the
/// tick, exactly when the tick moves the key.
pub proof fn lemma_moves_are_recorded(m: EngineModel)
    ensures
        m.ticked().0.transitions == match m.ticked().1 {
            Some(KeyerOutput::KeyDown) => remembered(
                m.transitions,
                MAX_RECORDED_TRANSITIONS as nat,
                (KeyTransition { key_down: true, timestamp_us: (m.elapsed + m.tick) as u64 }),
            ),
            Some(KeyerOutput::KeyUp) => remembered(
                m.transitions,
                MAX_RECORDED_TRANSITIONS as nat,
                (KeyTransition { key_down: false, timestamp_us: (m.elapsed + m.tick) as u64 }),
            ),
            _ => m.transitions,
        },
{
    lemma_tick_fits(m);
}

/// A tick moves the clock by its span and changes neither span nor configuration.
pub proof fn lemma_tick_keeps_clock(m: EngineModel)
    ensures
        m.ticked().0.elapsed == m.elapsed + m.tick,
        m.ticked().0.tick == m.tick,
        m.ticked().0.config == m.config,
{
    lemma_tick_fits(m);
}

/// The record of transitions is in order of time and does not lie ahead.
pub open spec fn in_order(m: EngineModel) -> bool {
    &&& forall|i: int, j: int|
        0 <= i <= j < m.transitions.len() ==> (#[trigger] m.transitions[i]).timestamp_us <= (
        #[trigger] m.transitions[j]).timestamp_us
    &&& forall|i: int|
        0 <= i < m.transitions.len() ==> (#[trigger] m.transitions[i]).timestamp_us <= m.elapsed
}

/// Recorded transitions stay in order of time.
pub proof fn lemma_record_stays_in_order(m: EngineModel)
    requires
        m.wf(),
        m.has_time(),
        in_order(m),
    ensures
        in_order(m.ticked().0),
{
    lemma_moves_are_recorded(m);
    lemma_tick_keeps_clock(m);
}

/// The engine after `n` ticks.
pub open spec fn run(m: EngineModel, n: nat) -> EngineModel
    decreases n,
{
    if n == 0 {
        m
    } else {
        run(m, (n - 1) as nat).ticked().0
    }
}

/// The dit paddle alone is held and nothing else is to be sent, in a mode that
/// repeats dits by itself.
pub open spec fn holds_dit(m: EngineModel) -> bool {
    &&& m.config.mode is IambicA || m.config.mode is IambicB || m.config.mode is Ultimatic
        || m.config.mode is Bug
    &&& m.dit_held && !m.dash_held && !m.dash_memory && !m.text_sending
    &&& m.ptt_active
}

/// A dit is going out and ends at `deadline`.
pub open spec fn dit_until(m: EngineModel, deadline: int) -> bool {
    &&& holds_dit(m)
    &&& m.state is SendDit && m.key_active
    &&& m.phase_end == deadline
    &&& m.elapsed < deadline
}

/// The gap behind a dit is going on and ends at `deadline`.
pub open spec fn gap_until(m: EngineModel, deadline: int) -> bool {
    &&& holds_dit(m)
    &&& m.state is DitDelay && !m.key_active
    &&& m.phase_end == deadline
    &&& m.elapsed < deadline
}

/// The tick is no longer than a dit, so that no phase is skipped.
pub open spec fn fine_tick(m: EngineModel) -> bool {
    0 < m.tick <= m.config.dot_us()
}

pub(crate) proof fn lemma_run_adds(m: EngineModel, a: nat, b: nat)
    ensures
        run(run(m, a), b) == run(m, a + b),
    decreases b,
{
    if b > 0 {
        lemma_run_adds(m, a, (b - 1) as nat);
    }
}

proof fn lemma_dit_runs_out(m: EngineModel, deadline: int) -> (n: nat)
    requires
        dit_until(m, deadline),
        fine_tick(m),
    ensures
        gap_until(run(m, n), deadline + m.config.dot_us()),
        run(m, n).config == m.config,
        run(m, n).tick == m.tick,
        n > 0,
    decreases deadline - m.elapsed,
{
    let next = m.ticked().0;
    assert(run(m, 1) == next) by {
        assert(run(m, 0) == m);
    }
    if next.elapsed < deadline {
        let rest = lemma_dit_runs_out(next, deadline);
        lemma_run_adds(m, 1, rest);
        1 + rest
    } else {
        1
    }
}

proof fn lemma_gap_runs_out(m: EngineModel, deadline: int) -> (n: nat)
    requires
        gap_until(m, deadline),
        fine_tick(m),
    ensures
        dit_until(run(m, n), deadline + m.config.element_us(false)),
        run(m, n).config == m.config,
        run(m, n).tick == m.tick,
        n > 0,
    decreases deadline - m.elapsed,
{
    let next = m.ticked().0;
    assert(run(m, 1) == next) by {
        assert(run(m, 0) == m);
    }
    if next.elapsed < deadline {
        let rest = lemma_gap_runs_out(next, deadline);
        lemma_run_adds(m, 1, rest);
        1 + rest
    } else {
        1
    }
}

/// Holding the dit paddle keeps exact time: the deadline of the dit that goes
/// out `cycles` dits later is later by exactly `cycles` times a dit and its
/// gap. The lateness of a single tick never adds up.
pub proof fn lemma_held_dits_do_not_drift(m: EngineModel, deadline: int, cycles: nat) -> (n: nat)
    requires
        dit_until(m, deadline),
        fine_tick(m),
    ensures
        dit_until(
            run(m, n),
            deadline + cycles * (m.config.dot_us() + m.config.element_us(false)),
        ),
        run(m, n).config == m.config,
        run(m, n).tick == m.tick,
        n >= cycles,
    decreases cycles,
{
    let cycle = m.config.dot_us() + m.config.element_us(false);
    if cycles == 0 {
        assert(0 * cycle == 0);
        0
    } else {
        let before = lemma_held_dits_do_not_drift(m, deadline, (cycles - 1) as nat);
        let due = deadline + (cycles - 1) * cycle;
        let a = run(m, before);
        let to_gap = lemma_dit_runs_out(a, due);
        lemma_run_adds(m, before, to_gap);
        let b = run(m, before + to_gap);
        let to_dit = lemma_gap_runs_out(b, due + m.config.dot_us());
        lemma_run_adds(m, before + to_gap, to_dit);
        assert((cycles - 1) * cycle + cycle == cycles * cycle) by (nonlinear_arith);
        before + to_gap + to_dit
    }
}

/// Nothing to do, nothing done: an idle engine with free paddles, no text and
/// the transmitter off gives no output and only lets time pass.
pub proof fn lemma_idle_rests(m: EngineModel)
    requires
        m.state is Idle,
        !m.dit_held && !m.dash_held && !m.dit_memory && !m.dash_memory,
        m.text_queue.len() == 0,
        !m.ptt_active,
    ensures
        m.ticked() == (EngineModel { elapsed: m.elapsed + m.tick, ..m }, None::<KeyerOutput>),
{
}

/// The transmission ends only when the engine is idle with the key up and the
/// hang time has passed.
pub proof fn lemma_ptt_hangs(m: EngineModel)
    requires
        m.ticked().1 == Some(KeyerOutput::PttRequest(false)),
    ensures
        m.state is Idle,
        !m.key_active,
        m.ticked().0.hang_counter >= m.config.hang_us(),
{
    lemma_tick_fits(m);
}

/// Touching a paddle while a text goes out drops what is left of the text.
pub proof fn lemma_paddle_stops_text(m: EngineModel, dit: bool, dash: bool)
    requires
        dit || dash,
        m.text_sending,
    ensures
        !m.with_paddles(dit, dash).text_sending,
        m.with_paddles(dit, dash).text_queue.len() == 0,
{
}

/// The same engine with the paddles reversed.
pub open spec fn reversed(m: EngineModel) -> EngineModel {
    EngineModel {
        config: KeyerConfig { keys_reversed: !m.config.keys_reversed, ..m.config },
        ..m
    }
}

/// Reversed keys are the same engine with the paddles exchanged.
pub proof fn lemma_reversed_keys_swap(m: EngineModel, dit: bool, dash: bool)
    ensures
        reversed(m).with_paddles(dash, dit) == reversed(m.with_paddles(dit, dash)),
{
}

/// A dead zone of the whole element: no press during an element is remembered.
pub proof fn lemma_full_dead_zone_never_remembers(m: EngineModel)
    requires
        m.config.iambic_b_timing_percent >= 100,
        m.phase_end - m.elapsed <= m.element_duration,
        m.element_duration >= 0,
    ensures
        !m.memory_window_open(),
{
    assert(min_int(m.config.iambic_b_timing_percent as int, 100) == 100);
    assert(m.element_duration * 100 / 100 == m.element_duration);
}

/// No dead zone: a press is remembered as long as anything of the element is left.
pub proof fn lemma_no_dead_zone_always_remembers(m: EngineModel)
    requires
        m.config.iambic_b_timing_percent == 0,
    ensures
        m.memory_window_open() <==> m.elapsed < m.phase_end,
{
    assert(m.element_duration * 0 == 0) by (nonlinear_arith);
}

/// The same engine with another dead zone.
pub open spec fn with_dead_zone(m: EngineModel, percent: u8) -> EngineModel {
    EngineModel { config: KeyerConfig { iambic_b_timing_percent: percent, ..m.config }, ..m }
}

/// Two steps differ in nothing but the dead zone of the engine.
spec fn same_but_dead_zone(
    other: (EngineModel, Option<KeyerOutput>),
    step: (EngineModel, Option<KeyerOutput>),
    percent: u8,
) -> bool {
    other.0 == with_dead_zone(step.0, percent) && other.1 == step.1
}

proof fn lemma_timing_ignores_dead_zone(m: EngineModel, percent: u8)
    ensures
        with_dead_zone(m, percent).config.dot_us() == m.config.dot_us(),
        with_dead_zone(m, percent).config.gap_unit_us() == m.config.gap_unit_us(),
        with_dead_zone(m, percent).config.hang_us() == m.config.hang_us(),
        with_dead_zone(m, percent).config.element_us(false) == m.config.element_us(false),
        with_dead_zone(m, percent).config.element_us(true) == m.config.element_us(true),
{
}

proof fn lemma_scheduled_ignores_dead_zone(m: EngineModel, percent: u8, d: int)
    ensures
        with_dead_zone(m, percent).scheduled(d) == with_dead_zone(m.scheduled(d), percent),
{
}

proof fn lemma_started_ignores_dead_zone(m: EngineModel, percent: u8, is_dash: bool)
    ensures
        with_dead_zone(m, percent).started(is_dash) == with_dead_zone(m.started(is_dash), percent),
{
    lemma_timing_ignores_dead_zone(m, percent);
    lemma_scheduled_ignores_dead_zone(m, percent, m.config.element_us(is_dash));
}

proof fn lemma_recorded_ignores_dead_zone(m: EngineModel, percent: u8, key_down: bool)
    ensures
        with_dead_zone(m, percent).recorded(key_down) == with_dead_zone(
            m.recorded(key_down),
            percent,
        ),
{
}

proof fn lemma_down_ignores_dead_zone(m: EngineModel, percent: u8)
    ensures
        same_but_dead_zone(with_dead_zone(m, percent).key_down(), m.key_down(), percent),
{
    lemma_recorded_ignores_dead_zone(m, percent, true);
}

proof fn lemma_keyed_ignores_dead_zone(m: EngineModel, percent: u8)
    ensures
        same_but_dead_zone(with_dead_zone(m, percent).ptt_then_key(), m.ptt_then_key(), percent),
{
    lemma_down_ignores_dead_zone(m, percent);
}

proof fn lemma_begun_ignores_dead_zone(m: EngineModel, percent: u8, is_dash: bool)
    ensures
        same_but_dead_zone(
            with_dead_zone(m, percent).element_begun(is_dash),
            m.element_begun(is_dash),
            percent,
        ),
{
    lemma_started_ignores_dead_zone(m, percent, is_dash);
    lemma_keyed_ignores_dead_zone(m.started(is_dash), percent);
}

proof fn lemma_hang_ignores_dead_zone(m: EngineModel, percent: u8)
    ensures
        same_but_dead_zone(with_dead_zone(m, percent).hang_step(), m.hang_step(), percent),
{
    lemma_timing_ignores_dead_zone(m, percent);
}

proof fn lemma_text_gap_ignores_dead_zone(m: EngineModel, percent: u8, d: int)
    ensures
        same_but_dead_zone(with_dead_zone(m, percent).gap_begun(d), m.gap_begun(d), percent),
{
    lemma_scheduled_ignores_dead_zone(m, percent, d);
}

/// The engine once the first element of the text is taken off the queue.
spec fn text_taken(m: EngineModel) -> EngineModel {
    EngineModel {
        text_sending: true,
        single_paddle_decided: true,
        text_queue: m.text_queue.drop_first(),
        ..m
    }
}

proof fn lemma_taken_ignores_dead_zone(m: EngineModel, percent: u8)
    ensures
        text_taken(with_dead_zone(m, percent)) == with_dead_zone(text_taken(m), percent),
{
}

proof fn lemma_text_ignores_dead_zone(m: EngineModel, percent: u8)
    requires
        m.text_queue.len() > 0,
    ensures
        same_but_dead_zone(with_dead_zone(m, percent).text_step(), m.text_step(), percent),
{
    lemma_timing_ignores_dead_zone(m, percent);
    lemma_taken_ignores_dead_zone(m, percent);
    match m.text_queue[0] {
        MorseElement::Dit => lemma_begun_ignores_dead_zone(text_taken(m), percent, false),
        MorseElement::Dash => lemma_begun_ignores_dead_zone(text_taken(m), percent, true),
        MorseElement::ElementGap => lemma_text_gap_ignores_dead_zone(
            text_taken(m),
            percent,
            m.config.dot_us(),
        ),
        MorseElement::LetterGap => lemma_text_gap_ignores_dead_zone(
            text_taken(m),
            percent,
            3 * m.config.gap_unit_us(),
        ),
        MorseElement::WordGap => lemma_text_gap_ignores_dead_zone(
            text_taken(m),
            percent,
            7 * m.config.gap_unit_us(),
        ),
    }
}

proof fn lemma_iambic_idle_ignores_dead_zone(m: EngineModel, percent: u8, bug_mode: bool)
    ensures
        same_but_dead_zone(with_dead_zone(m, percent).iambic_idle_step(bug_mode), m.iambic_idle_step(bug_mode), percent),
{
    lemma_begun_ignores_dead_zone(m, percent, false);
    lemma_begun_ignores_dead_zone(m, percent, true);
    lemma_hang_ignores_dead_zone(m, percent);
    if m.text_queue.len() > 0 {
        lemma_text_ignores_dead_zone(m, percent);
    }
}

proof fn lemma_single_idle_ignores_dead_zone(m: EngineModel, percent: u8)
    ensures
        same_but_dead_zone(with_dead_zone(m, percent).single_idle_step(), m.single_idle_step(), percent),
{
    lemma_begun_ignores_dead_zone(
        EngineModel { single_paddle_decided: false, ..m },
        percent,
        false,
    );
    lemma_hang_ignores_dead_zone(m, percent);
    if m.text_queue.len() > 0 {
        lemma_text_ignores_dead_zone(m, percent);
    }
}

proof fn lemma_ended_ignores_dead_zone(m: EngineModel, percent: u8, delay: KeyerState)
    ensures
        same_but_dead_zone(with_dead_zone(m, percent).element_ended(delay), m.element_ended(delay), percent),
{
    lemma_timing_ignores_dead_zone(m, percent);
}

proof fn lemma_memory_ignores_dead_zone(m: EngineModel, percent: u8, is_dash: bool)
    requires
        !(m.config.mode is IambicB),
    ensures
        with_dead_zone(m, percent).opposite_remembered(is_dash) == with_dead_zone(
            m.opposite_remembered(is_dash),
            percent,
        ),
{
}

proof fn lemma_iambic_element_ignores_dead_zone(m: EngineModel, percent: u8, is_dash: bool)
    requires
        !(m.config.mode is IambicB),
    ensures
        same_but_dead_zone(
            with_dead_zone(m, percent).iambic_element_step(is_dash),
            m.iambic_element_step(is_dash),
            percent,
        ),
{
    if !m.key_active {
        lemma_down_ignores_dead_zone(m, percent);
    } else {
        lemma_memory_ignores_dead_zone(m, percent, is_dash);
        lemma_ended_ignores_dead_zone(
            m.opposite_remembered(is_dash),
            percent,
            EngineModel::delay_state(is_dash),
        );
    }
}

proof fn lemma_undecided_ignores_dead_zone(m: EngineModel, percent: u8)
    ensures
        same_but_dead_zone(with_dead_zone(m, percent).undecided_step(), m.undecided_step(), percent),
{
    lemma_timing_ignores_dead_zone(m, percent);
}

proof fn lemma_single_element_ignores_dead_zone(m: EngineModel, percent: u8, is_dash: bool)
    ensures
        same_but_dead_zone(with_dead_zone(m, percent).single_element_step(is_dash), m.single_element_step(is_dash), percent),
{
    lemma_undecided_ignores_dead_zone(m, percent);
    lemma_ended_ignores_dead_zone(m, percent, EngineModel::delay_state(is_dash));
}

proof fn lemma_rest_ignores_dead_zone(m: EngineModel, percent: u8)
    ensures
        with_dead_zone(m, percent).rested() == with_dead_zone(m.rested(), percent),
{
}

/// The engine in the letter space that starts now and lasts for `d`.
spec fn spaced(m: EngineModel, d: int) -> EngineModel {
    EngineModel { state: KeyerState::LetterSpace, ..m.scheduled(d) }
}

proof fn lemma_space_ignores_dead_zone(m: EngineModel, percent: u8, d: int)
    ensures
        spaced(with_dead_zone(m, percent), d) == with_dead_zone(spaced(m, d), percent),
{
    lemma_scheduled_ignores_dead_zone(m, percent, d);
}

proof fn lemma_tail_ignores_dead_zone(m: EngineModel, percent: u8)
    ensures
        with_dead_zone(m, percent).delay_tail() == with_dead_zone(m.delay_tail(), percent),
{
    lemma_timing_ignores_dead_zone(m, percent);
    let spacing = max_int(3 * m.config.gap_unit_us() - m.config.dot_us(), 0);
    if m.text_sending && m.text_queue.len() > 0 {
    } else if m.config.auto_spacing && spacing > 0 {
        lemma_space_ignores_dead_zone(m, percent, spacing);
    } else {
        lemma_rest_ignores_dead_zone(m, percent);
    }
}

proof fn lemma_choice_ignores_dead_zone(
    m: EngineModel,
    percent: u8,
    after_dash: bool,
    bug_mode: bool,
)
    ensures
        with_dead_zone(m, percent).next_element(after_dash, bug_mode) == m.next_element(
            after_dash,
            bug_mode,
        ),
{
}

proof fn lemma_gap_end_ignores_dead_zone(
    m: EngineModel,
    percent: u8,
    after_dash: bool,
    bug_mode: bool,
)
    ensures
        same_but_dead_zone(
            with_dead_zone(m, percent).gap_ended(after_dash, bug_mode),
            m.gap_ended(after_dash, bug_mode),
            percent,
        ),
{
    lemma_choice_ignores_dead_zone(m, percent, after_dash, bug_mode);
    match m.next_element(after_dash, bug_mode) {
        Some(is_dash) => lemma_begun_ignores_dead_zone(m, percent, is_dash),
        None => lemma_tail_ignores_dead_zone(m, percent),
    }
}

proof fn lemma_yield_ignores_dead_zone(m: EngineModel, percent: u8)
    ensures
        with_dead_zone(m, percent).text_yields() == with_dead_zone(m.text_yields(), percent),
{
}

proof fn lemma_iambic_gap_ignores_dead_zone(
    m: EngineModel,
    percent: u8,
    after_dash: bool,
    bug_mode: bool,
)
    ensures
        same_but_dead_zone(
            with_dead_zone(m, percent).iambic_delay_step(after_dash, bug_mode),
            m.iambic_delay_step(after_dash, bug_mode),
            percent,
        ),
{
    lemma_yield_ignores_dead_zone(m, percent);
    if m.text_yields().expired() {
        lemma_gap_end_ignores_dead_zone(m.text_yields(), percent, after_dash, bug_mode);
    }
}

proof fn lemma_single_gap_ignores_dead_zone(m: EngineModel, percent: u8)
    ensures
        same_but_dead_zone(
            with_dead_zone(m, percent).single_delay_step(),
            m.single_delay_step(),
            percent,
        ),
{
    lemma_yield_ignores_dead_zone(m, percent);
    let y = m.text_yields();
    if y.expired() && (y.dit_held || y.dash_held) {
        lemma_begun_ignores_dead_zone(
            EngineModel { single_paddle_decided: false, ..y },
            percent,
            false,
        );
    }
}

proof fn lemma_straight_ignores_dead_zone(m: EngineModel, percent: u8)
    ensures
        same_but_dead_zone(with_dead_zone(m, percent).straight_step(), m.straight_step(), percent),
{
    lemma_hang_ignores_dead_zone(m, percent);
}

proof fn lemma_iambic_ignores_dead_zone(m: EngineModel, percent: u8, bug_mode: bool)
    requires
        !(m.config.mode is IambicB),
    ensures
        same_but_dead_zone(with_dead_zone(m, percent).iambic_step(bug_mode), m.iambic_step(bug_mode), percent),
{
    match m.state {
        KeyerState::Idle => lemma_iambic_idle_ignores_dead_zone(m, percent, bug_mode),
        KeyerState::SendDit => lemma_iambic_element_ignores_dead_zone(m, percent, false),
        KeyerState::SendDash => lemma_iambic_element_ignores_dead_zone(m, percent, true),
        KeyerState::DitDelay => lemma_iambic_gap_ignores_dead_zone(m, percent, false, bug_mode),
        KeyerState::DashDelay => lemma_iambic_gap_ignores_dead_zone(m, percent, true, bug_mode),
        KeyerState::LetterSpace => {},
        KeyerState::StraightKey => {},
    }
}

proof fn lemma_bug_ignores_dead_zone(m: EngineModel, percent: u8)
    requires
        !(m.config.mode is IambicB),
    ensures
        same_but_dead_zone(with_dead_zone(m, percent).bug_step(), m.bug_step(), percent),
{
    lemma_iambic_ignores_dead_zone(m, percent, true);
}

proof fn lemma_single_ignores_dead_zone(m: EngineModel, percent: u8)
    ensures
        same_but_dead_zone(with_dead_zone(m, percent).single_paddle_step(), m.single_paddle_step(), percent),
{
    match m.state {
        KeyerState::Idle => lemma_single_idle_ignores_dead_zone(m, percent),
        KeyerState::SendDit => lemma_single_element_ignores_dead_zone(m, percent, false),
        KeyerState::SendDash => lemma_single_element_ignores_dead_zone(m, percent, true),
        KeyerState::DitDelay => lemma_single_gap_ignores_dead_zone(m, percent),
        KeyerState::DashDelay => lemma_single_gap_ignores_dead_zone(m, percent),
        KeyerState::LetterSpace => {},
        KeyerState::StraightKey => {},
    }
}

proof fn lemma_tick_ignores_dead_zone(m: EngineModel, percent: u8)
    requires
        !(m.config.mode is IambicB),
    ensures
        same_but_dead_zone(with_dead_zone(m, percent).ticked(), m.ticked(), percent),
{
    let a = advanced(m);
    assert(advanced(with_dead_zone(m, percent)) == with_dead_zone(a, percent));
    match m.config.mode {
        KeyerMode::Straight => lemma_straight_ignores_dead_zone(a, percent),
        KeyerMode::Bug => lemma_bug_ignores_dead_zone(a, percent),
        KeyerMode::IambicA | KeyerMode::IambicB | KeyerMode::Ultimatic =>
            lemma_iambic_ignores_dead_zone(a, percent, false),
        KeyerMode::SinglePaddle => lemma_single_ignores_dead_zone(a, percent),
    }
}

/// The dead zone counts in iambic B alone: in every other mode neither a tick
/// nor a change of the paddles depends on it.
pub proof fn lemma_dead_zone_is_for_iambic_b(m: EngineModel, percent: u8, dit: bool, dash: bool)
    requires
        !(m.config.mode is IambicB),
    ensures
        with_dead_zone(m, percent).ticked().0 == with_dead_zone(m.ticked().0, percent),
        with_dead_zone(m, percent).ticked().1 == m.ticked().1,
        with_dead_zone(m, percent).with_paddles(dit, dash) == with_dead_zone(
            m.with_paddles(dit, dash),
            percent,
        ),
{
    lemma_tick_ignores_dead_zone(m, percent);
}

/// A text goes out in order: a tick takes at most the first element off the
/// queue, or drops the whole text.
pub proof fn lemma_text_goes_out_in_order(m: EngineModel)
    ensures
        queue_after(m, m.ticked().0.text_queue),
{
    lemma_tick_fits(m);
}

/// In iambic mode with both paddles held elements alternate: what follows the
/// gap behind a dit is a dash, and what follows the gap behind a dash is a dit.
pub proof fn lemma_squeeze_alternates(m: EngineModel)
    requires
        m.dit_held && m.dash_held,
        m.config.mode is IambicA || m.config.mode is IambicB,
    ensures
        m.next_element(false, false) == Some(true),
        m.next_element(true, false) == Some(false),
{
}

/// In ultimatic mode with both paddles held the one pressed last wins.
pub proof fn lemma_ultimatic_last_press_wins(m: EngineModel, after_dash: bool)
    requires
        m.dit_held && m.dash_held,
        m.config.mode is Ultimatic,
        m.last_paddle is Some,
    ensures
        m.next_element(after_dash, false) == m.last_paddle,
{
}

} // verus!
