//! What each keyer mode promises over any number of ticks.

use crate::keyer::config::lemma_dash_is_no_shorter;
use crate::keyer::control::outputs;
use crate::keyer::engine::{
    EngineModel, KeyerOutput, KeyerState, STRAIGHT_KEY_RELEASE_DEBOUNCE_MS,
};
use crate::keyer::laws::{fine_tick, lemma_run_adds, run};
use vstd::prelude::*;

verus! {

proof fn lemma_run_one(m: EngineModel)
    ensures
        run(m, 1) == m.ticked().0,
{
    assert(run(m, 0) == m);
}

/// Both paddles are held in an iambic mode, and no text goes out.
pub open spec fn squeezes(m: EngineModel) -> bool {
    &&& m.config.mode is IambicA || m.config.mode is IambicB
    &&& m.dit_held && m.dash_held && !m.text_sending
    &&& m.ptt_active
}

/// An element of a squeeze goes out and ends at `deadline`.
pub open spec fn element_until(m: EngineModel, is_dash: bool, deadline: int) -> bool {
    &&& squeezes(m)
    &&& m.state == (if is_dash {
        KeyerState::SendDash
    } else {
        KeyerState::SendDit
    })
    &&& m.key_active
    &&& m.phase_end == deadline
    &&& m.elapsed < deadline
}

/// The gap behind an element of a squeeze goes on and ends at `deadline`.
pub open spec fn pause_until(m: EngineModel, after_dash: bool, deadline: int) -> bool {
    &&& squeezes(m)
    &&& m.state == EngineModel::delay_state(after_dash)
    &&& !m.key_active
    &&& m.phase_end == deadline
    &&& m.elapsed < deadline
}

proof fn lemma_element_runs_out(m: EngineModel, is_dash: bool, deadline: int) -> (n: nat)
    requires
        element_until(m, is_dash, deadline),
        fine_tick(m),
    ensures
        pause_until(run(m, n), is_dash, deadline + m.config.dot_us()),
        run(m, n).config == m.config,
        run(m, n).tick == m.tick,
        n > 0,
    decreases deadline - m.elapsed,
{
    let next = m.ticked().0;
    lemma_run_one(m);
    if next.elapsed < deadline {
        let rest = lemma_element_runs_out(next, is_dash, deadline);
        lemma_run_adds(m, 1, rest);
        1 + rest
    } else {
        1
    }
}

proof fn lemma_pause_runs_out(m: EngineModel, after_dash: bool, deadline: int) -> (n: nat)
    requires
        pause_until(m, after_dash, deadline),
        fine_tick(m),
    ensures
        element_until(run(m, n), !after_dash, deadline + m.config.element_us(!after_dash)),
        run(m, n).config == m.config,
        run(m, n).tick == m.tick,
        n > 0,
    decreases deadline - m.elapsed,
{
    lemma_dash_is_no_shorter(m.config);
    let next = m.ticked().0;
    lemma_run_one(m);
    if next.elapsed < deadline {
        let rest = lemma_pause_runs_out(next, after_dash, deadline);
        lemma_run_adds(m, 1, rest);
        1 + rest
    } else {
        1
    }
}

/// The element that follows in a squeeze is the opposite one, and it ends exactly
/// a gap and its own length later.
pub proof fn lemma_squeeze_turns(m: EngineModel, is_dash: bool, deadline: int) -> (n: nat)
    requires
        element_until(m, is_dash, deadline),
        fine_tick(m),
    ensures
        element_until(
            run(m, n),
            !is_dash,
            deadline + m.config.dot_us() + m.config.element_us(!is_dash),
        ),
        run(m, n).config == m.config,
        run(m, n).tick == m.tick,
        n > 0,
{
    let to_gap = lemma_element_runs_out(m, is_dash, deadline);
    let gap = run(m, to_gap);
    let to_next = lemma_pause_runs_out(gap, is_dash, deadline + m.config.dot_us());
    lemma_run_adds(m, to_gap, to_next);
    to_gap + to_next
}

/// Squeezing keeps exact time: after any number of pairs of a dit and a dash the
/// same element goes out again, and its deadline is later by exactly as many
/// pairs with their gaps.
pub proof fn lemma_squeeze_keeps_time(
    m: EngineModel,
    is_dash: bool,
    deadline: int,
    pairs: nat,
) -> (n: nat)
    requires
        element_until(m, is_dash, deadline),
        fine_tick(m),
    ensures
        element_until(
            run(m, n),
            is_dash,
            deadline + pairs * (2 * m.config.dot_us() + m.config.element_us(false)
                + m.config.element_us(true)),
        ),
        run(m, n).config == m.config,
        run(m, n).tick == m.tick,
        n >= pairs,
    decreases pairs,
{
    let pair = 2 * m.config.dot_us() + m.config.element_us(false) + m.config.element_us(true);
    if pairs == 0 {
        assert(0 * pair == 0);
        0
    } else {
        let before = lemma_squeeze_keeps_time(m, is_dash, deadline, (pairs - 1) as nat);
        let due = deadline + (pairs - 1) * pair;
        let a = run(m, before);
        let first = lemma_squeeze_turns(a, is_dash, due);
        lemma_run_adds(m, before, first);
        let b = run(m, before + first);
        let second = lemma_squeeze_turns(
            b,
            !is_dash,
            due + m.config.dot_us() + m.config.element_us(!is_dash),
        );
        lemma_run_adds(m, before + first, second);
        assert((pairs - 1) * pair + pair == pairs * pair) by (nonlinear_arith);
        before + first + second
    }
}

/// The dash paddle alone is held and nothing else is to be sent, in a mode that
/// repeats dashes by itself.
pub open spec fn holds_dash(m: EngineModel) -> bool {
    &&& m.config.mode is IambicA || m.config.mode is IambicB || m.config.mode is Ultimatic
    &&& m.dash_held && !m.dit_held && !m.dit_memory && !m.text_sending
    &&& m.ptt_active
}

/// A dash goes out and ends at `deadline`.
pub open spec fn dash_until(m: EngineModel, deadline: int) -> bool {
    &&& holds_dash(m)
    &&& m.state is SendDash && m.key_active
    &&& m.phase_end == deadline
    &&& m.elapsed < deadline
}

/// The gap behind a dash goes on and ends at `deadline`.
pub open spec fn dash_gap_until(m: EngineModel, deadline: int) -> bool {
    &&& holds_dash(m)
    &&& m.state is DashDelay && !m.key_active
    &&& m.phase_end == deadline
    &&& m.elapsed < deadline
}

proof fn lemma_dash_runs_out(m: EngineModel, deadline: int) -> (n: nat)
    requires
        dash_until(m, deadline),
        fine_tick(m),
    ensures
        dash_gap_until(run(m, n), deadline + m.config.dot_us()),
        run(m, n).config == m.config,
        run(m, n).tick == m.tick,
        n > 0,
    decreases deadline - m.elapsed,
{
    let next = m.ticked().0;
    lemma_run_one(m);
    if next.elapsed < deadline {
        let rest = lemma_dash_runs_out(next, deadline);
        lemma_run_adds(m, 1, rest);
        1 + rest
    } else {
        1
    }
}

proof fn lemma_dash_gap_runs_out(m: EngineModel, deadline: int) -> (n: nat)
    requires
        dash_gap_until(m, deadline),
        fine_tick(m),
    ensures
        dash_until(run(m, n), deadline + m.config.element_us(true)),
        run(m, n).config == m.config,
        run(m, n).tick == m.tick,
        n > 0,
    decreases deadline - m.elapsed,
{
    lemma_dash_is_no_shorter(m.config);
    let next = m.ticked().0;
    lemma_run_one(m);
    if next.elapsed < deadline {
        let rest = lemma_dash_gap_runs_out(next, deadline);
        lemma_run_adds(m, 1, rest);
        1 + rest
    } else {
        1
    }
}

/// Holding the dash paddle keeps exact time: the deadline of the dash that goes
/// out `cycles` dashes later is later by exactly `cycles` times a dash and its
/// gap.
pub proof fn lemma_held_dashes_do_not_drift(m: EngineModel, deadline: int, cycles: nat) -> (n: nat)
    requires
        dash_until(m, deadline),
        fine_tick(m),
    ensures
        dash_until(run(m, n), deadline + cycles * (m.config.dot_us() + m.config.element_us(true))),
        run(m, n).config == m.config,
        run(m, n).tick == m.tick,
        n >= cycles,
    decreases cycles,
{
    let cycle = m.config.dot_us() + m.config.element_us(true);
    if cycles == 0 {
        assert(0 * cycle == 0);
        0
    } else {
        let before = lemma_held_dashes_do_not_drift(m, deadline, (cycles - 1) as nat);
        let due = deadline + (cycles - 1) * cycle;
        let to_gap = lemma_dash_runs_out(run(m, before), due);
        lemma_run_adds(m, before, to_gap);
        let to_dash = lemma_dash_gap_runs_out(run(m, before + to_gap), due + m.config.dot_us());
        lemma_run_adds(m, before + to_gap, to_dash);
        assert((cycles - 1) * cycle + cycle == cycles * cycle) by (nonlinear_arith);
        before + to_gap + to_dash
    }
}

/// Iambic A forgets: with both paddles released nothing follows the element that
/// went out, whatever was pressed during it.
pub proof fn lemma_iambic_a_stops_on_release(m: EngineModel, after_dash: bool)
    requires
        m.config.mode is IambicA,
        !m.dit_held && !m.dash_held,
    ensures
        m.next_element(after_dash, false) is None,
{
}

/// Iambic B remembers: with both paddles released, a press of the opposite paddle
/// that was latched during an element is still served, and only once.
pub proof fn lemma_iambic_b_serves_one_more(m: EngineModel, after_dash: bool)
    requires
        m.config.mode is IambicB,
        !m.dit_held && !m.dash_held,
        m.dit_memory == after_dash && m.dash_memory == !after_dash,
    ensures
        m.next_element(after_dash, false) == Some(!after_dash),
        m.started(!after_dash).next_element(!after_dash, false) is None,
{
}

/// A straight key that is down and has just been opened.
pub open spec fn key_opened(m: EngineModel) -> bool {
    &&& m.config.mode is Straight
    &&& m.state is StraightKey && m.key_active
    &&& !m.dit_held && !m.dash_held
    &&& m.release_grace == 0
    &&& m.tick > 0
}

/// A straight key follows the paddle: closing it puts the key down at the next
/// tick, once the transmitter is on, and nothing happens while it stays closed.
pub proof fn lemma_straight_key_goes_down(m: EngineModel)
    requires
        m.config.mode is Straight,
        m.dit_held || m.dash_held,
    ensures
        m.state is Idle && m.ptt_active ==> m.ticked().1 == Some(KeyerOutput::KeyDown),
        m.state is Idle && !m.ptt_active && !m.key_active ==> {
            &&& m.ticked().1 == Some(KeyerOutput::PttRequest(true))
            &&& m.ticked().0.ticked().1 == Some(KeyerOutput::KeyDown)
        },
        m.state is StraightKey && m.key_active ==> {
            &&& m.ticked().1 is None
            &&& m.ticked().0.key_active && m.ticked().0.state is StraightKey
        },
{
}

/// The same engine with the key closed.
pub open spec fn closed_again(m: EngineModel) -> EngineModel {
    EngineModel { dit_held: true, ..m }
}

/// Opening a straight key puts the key up only when it has stayed open for the
/// debounce time: until then there is no output, and closing it again within that
/// time starts the wait anew.
pub proof fn lemma_straight_key_release_is_debounced(m: EngineModel, n: nat)
    requires
        key_opened(m),
        n * m.tick < STRAIGHT_KEY_RELEASE_DEBOUNCE_MS * 1000,
    ensures
        outputs(m, n).len() == 0,
        run(m, n) == (EngineModel {
            elapsed: m.elapsed + n * m.tick,
            release_grace: n * m.tick,
            ..m
        }),
        (n + 1) * m.tick >= STRAIGHT_KEY_RELEASE_DEBOUNCE_MS * 1000 ==> run(m, n).ticked().1
            == Some(KeyerOutput::KeyUp),
        closed_again(run(m, n)).ticked().1 is None,
        closed_again(run(m, n)).ticked().0.release_grace == 0,
    decreases n,
{
    assert((n + 1) * m.tick == n * m.tick + m.tick) by (nonlinear_arith);
    if n == 0 {
        assert(0 * m.tick == 0);
    } else {
        assert((n - 1) * m.tick + m.tick == n * m.tick) by (nonlinear_arith);
        lemma_straight_key_release_is_debounced(m, (n - 1) as nat);
        assert(run(m, n) =~= (EngineModel {
            elapsed: m.elapsed + n * m.tick,
            release_grace: n * m.tick,
            ..m
        }));
    }
}

/// In bug mode the dash paddle is a straight key without debouncing: the key goes
/// down with it and up with it.
pub proof fn lemma_bug_dash_follows_paddle(m: EngineModel)
    requires
        m.config.mode is Bug,
        !m.dit_held,
    ensures
        m.state is Idle && m.dash_held && m.ptt_active ==> m.ticked().1 == Some(
            KeyerOutput::KeyDown,
        ),
        m.state is StraightKey && m.key_active && m.dash_held ==> m.ticked().1 is None,
        m.state is StraightKey && m.key_active && !m.dash_held ==> m.ticked().1 == Some(
            KeyerOutput::KeyUp,
        ),
{
}

/// An element of single-paddle mode of which it is not settled what it becomes.
pub open spec fn is_undecided(m: EngineModel) -> bool {
    &&& m.config.mode is SinglePaddle
    &&& m.state is SendDit && m.key_active && !m.single_paddle_decided
    &&& m.elapsed < m.phase_end
}

/// In single-paddle mode a tap is a dit: opening the paddle before a dit is over
/// puts the key up at once, and the gap ends when it would behind a whole dit.
pub proof fn lemma_tap_is_a_dit(m: EngineModel)
    requires
        is_undecided(m),
        !m.dit_held && !m.dash_held,
    ensures
        m.ticked().1 == Some(KeyerOutput::KeyUp),
        m.ticked().0.state is DitDelay,
        m.ticked().0.phase_end == m.phase_end + m.config.dot_us(),
{
}

/// In single-paddle mode holding makes a dash: at the deadline of the dit the key
/// stays down, and the deadline moves to where a dash ends that began with it.
pub proof fn lemma_hold_is_a_dash(m: EngineModel)
    requires
        is_undecided(m),
        m.dit_held || m.dash_held,
        m.elapsed + m.tick >= m.phase_end,
    ensures
        m.ticked().1 is None,
        m.ticked().0.state is SendDash && m.ticked().0.key_active,
        m.ticked().0.phase_end == m.phase_end - m.config.element_us(false)
            + m.config.element_us(true),
{
    lemma_dash_is_no_shorter(m.config);
}

/// A paddle is held in single-paddle mode, and no text goes out.
pub open spec fn holds_single(m: EngineModel) -> bool {
    &&& m.config.mode is SinglePaddle
    &&& (m.dit_held || m.dash_held) && !m.text_sending
    &&& m.ptt_active
}

/// The first part of an element, up to the length of a dit, goes on until
/// `deadline`.
pub open spec fn single_start_until(m: EngineModel, deadline: int) -> bool {
    &&& holds_single(m)
    &&& is_undecided(m)
    &&& m.phase_end == deadline
}

spec fn single_dash_until(m: EngineModel, deadline: int) -> bool {
    &&& holds_single(m)
    &&& m.state is SendDash && m.key_active
    &&& m.phase_end == deadline
    &&& m.elapsed < deadline
}

spec fn single_gap_until(m: EngineModel, deadline: int) -> bool {
    &&& holds_single(m)
    &&& m.state is DashDelay && !m.key_active
    &&& m.phase_end == deadline
    &&& m.elapsed < deadline
}

/// The tick is no longer than a dit, nor than what a dash has beyond it.
pub open spec fn fine_single_tick(m: EngineModel) -> bool {
    fine_tick(m) && m.tick <= m.config.element_us(true) - m.config.element_us(false)
}

proof fn lemma_single_start_runs_out(m: EngineModel, deadline: int) -> (n: nat)
    requires
        single_start_until(m, deadline),
        fine_single_tick(m),
    ensures
        single_dash_until(
            run(m, n),
            deadline - m.config.element_us(false) + m.config.element_us(true),
        ),
        run(m, n).config == m.config,
        run(m, n).tick == m.tick,
        n > 0,
    decreases deadline - m.elapsed,
{
    let next = m.ticked().0;
    lemma_run_one(m);
    if next.elapsed < deadline {
        let rest = lemma_single_start_runs_out(next, deadline);
        lemma_run_adds(m, 1, rest);
        1 + rest
    } else {
        lemma_hold_is_a_dash(m);
        1
    }
}

proof fn lemma_single_dash_runs_out(m: EngineModel, deadline: int) -> (n: nat)
    requires
        single_dash_until(m, deadline),
        fine_single_tick(m),
    ensures
        single_gap_until(run(m, n), deadline + m.config.dot_us()),
        run(m, n).config == m.config,
        run(m, n).tick == m.tick,
        n > 0,
    decreases deadline - m.elapsed,
{
    let next = m.ticked().0;
    lemma_run_one(m);
    if next.elapsed < deadline {
        let rest = lemma_single_dash_runs_out(next, deadline);
        lemma_run_adds(m, 1, rest);
        1 + rest
    } else {
        1
    }
}

proof fn lemma_single_gap_runs_out(m: EngineModel, deadline: int) -> (n: nat)
    requires
        single_gap_until(m, deadline),
        fine_single_tick(m),
    ensures
        single_start_until(run(m, n), deadline + m.config.element_us(false)),
        run(m, n).config == m.config,
        run(m, n).tick == m.tick,
        n > 0,
    decreases deadline - m.elapsed,
{
    let next = m.ticked().0;
    lemma_run_one(m);
    if next.elapsed < deadline {
        let rest = lemma_single_gap_runs_out(next, deadline);
        lemma_run_adds(m, 1, rest);
        1 + rest
    } else {
        1
    }
}

/// Holding in single-paddle mode repeats dashes and keeps exact time: `cycles`
/// elements later the deadline of the first part of an element is later by
/// exactly `cycles` times a dash and its gap.
pub proof fn lemma_held_single_paddle_does_not_drift(
    m: EngineModel,
    deadline: int,
    cycles: nat,
) -> (n: nat)
    requires
        single_start_until(m, deadline),
        fine_single_tick(m),
    ensures
        single_start_until(
            run(m, n),
            deadline + cycles * (m.config.dot_us() + m.config.element_us(true)),
        ),
        run(m, n).config == m.config,
        run(m, n).tick == m.tick,
        n >= cycles,
    decreases cycles,
{
    let cycle = m.config.dot_us() + m.config.element_us(true);
    if cycles == 0 {
        assert(0 * cycle == 0);
        0
    } else {
        let before = lemma_held_single_paddle_does_not_drift(m, deadline, (cycles - 1) as nat);
        let due = deadline + (cycles - 1) * cycle;
        let a = lemma_single_start_runs_out(run(m, before), due);
        lemma_run_adds(m, before, a);
        let end = due - m.config.element_us(false) + m.config.element_us(true);
        let b = lemma_single_dash_runs_out(run(m, before + a), end);
        lemma_run_adds(m, before + a, b);
        let c = lemma_single_gap_runs_out(run(m, before + a + b), end + m.config.dot_us());
        lemma_run_adds(m, before + a + b, c);
        assert((cycles - 1) * cycle + cycle == cycles * cycle) by (nonlinear_arith);
        before + a + b + c
    }
}

/// Nothing is being sent and nothing is to be sent, but the transmitter is on.
pub open spec fn hangs(m: EngineModel) -> bool {
    &&& m.state is Idle && m.ptt_active && !m.key_active
    &&& !m.dit_held && !m.dash_held && !m.dit_memory && !m.dash_memory
    &&& m.text_queue.len() == 0
    &&& m.hang_counter >= 0
    &&& m.tick > 0
}

/// The transmitter is released exactly when the hang time has passed since the
/// last key-up: until then there is no output, and at the first tick at which it
/// has passed the request comes.
pub proof fn lemma_transmission_hangs_on(m: EngineModel, n: nat)
    requires
        hangs(m),
        m.hang_counter + n * m.tick < m.config.hang_us(),
    ensures
        outputs(m, n).len() == 0,
        run(m, n) == (EngineModel {
            elapsed: m.elapsed + n * m.tick,
            hang_counter: m.hang_counter + n * m.tick,
            ..m
        }),
        m.hang_counter + (n + 1) * m.tick >= m.config.hang_us() ==> run(m, n).ticked().1 == Some(
            KeyerOutput::PttRequest(false),
        ),
    decreases n,
{
    assert((n + 1) * m.tick == n * m.tick + m.tick) by (nonlinear_arith);
    if n == 0 {
        assert(0 * m.tick == 0);
    } else {
        assert((n - 1) * m.tick + m.tick == n * m.tick) by (nonlinear_arith);
        lemma_transmission_hangs_on(m, (n - 1) as nat);
        assert(run(m, n) =~= (EngineModel {
            elapsed: m.elapsed + n * m.tick,
            hang_counter: m.hang_counter + n * m.tick,
            ..m
        }));
    }
}

} // verus!
