//! What holds of the keyer engine over any sequence of calls.

use crate::keyer::config::KeyerConfig;
use crate::keyer::engine::{EngineModel, KeyTransition, KeyerOutput, MAX_RECORDED_TRANSITIONS};
use crate::keyer::laws::{
    covered, lemma_dead_zone_is_for_iambic_b, lemma_moves_are_recorded,
    lemma_outputs_alternate, lemma_tick_keeps_clock, output_fits, settled, with_dead_zone,
};
use crate::keyer::morse::text_elements;
use crate::protocol::iq_accumulator::last_of;
use crate::ring::remembered;
use vstd::prelude::*;

verus! {

/// A call of the engine that leaves its configuration alone.
pub enum EngineCall {
    SetPaddle { dit: bool, dash: bool },
    SendText { text: Seq<char> },
    AbortText,
    DrainTransitions,
    Tick,
}

/// The engine after a call that lets no time pass.
#[verifier::opaque]
pub open spec fn commanded(m: EngineModel, call: EngineCall) -> EngineModel {
    match call {
        EngineCall::SetPaddle { dit, dash } => m.with_paddles(dit, dash),
        EngineCall::SendText { text } => EngineModel {
            text_queue: m.text_queue + text_elements(text),
            text_sending: true,
            ..m
        },
        EngineCall::AbortText => m.text_aborted(),
        EngineCall::DrainTransitions => EngineModel { transitions: Seq::empty(), ..m },
        EngineCall::Tick => m,
    }
}

/// The engine after a call, and what a tick asks of the transmitter.
#[verifier::opaque]
pub open spec fn called(m: EngineModel, call: EngineCall) -> (EngineModel, Option<KeyerOutput>) {
    if call is Tick {
        m.ticked()
    } else {
        (commanded(m, call), None)
    }
}

/// The engine after several calls.
pub open spec fn after_calls(m: EngineModel, calls: Seq<EngineCall>) -> EngineModel
    decreases calls.len(),
{
    if calls.len() == 0 {
        m
    } else {
        called(after_calls(m, calls.drop_last()), calls.last()).0
    }
}

/// What the ticks among several calls ask of the transmitter, in order.
pub open spec fn outputs_of(m: EngineModel, calls: Seq<EngineCall>) -> Seq<KeyerOutput>
    decreases calls.len(),
{
    if calls.len() == 0 {
        Seq::empty()
    } else {
        let before = outputs_of(m, calls.drop_last());
        match called(after_calls(m, calls.drop_last()), calls.last()).1 {
            Some(out) => before.push(out),
            None => before,
        }
    }
}

/// Whether the last output about the key line was that it goes down.
pub open spec fn key_is_down(outputs: Seq<KeyerOutput>) -> bool
    decreases outputs.len(),
{
    if outputs.len() == 0 {
        false
    } else {
        match outputs.last() {
            KeyerOutput::KeyDown => true,
            KeyerOutput::KeyUp => false,
            KeyerOutput::PttRequest(_) => key_is_down(outputs.drop_last()),
        }
    }
}

/// Whether the last request about the transmitter was to turn it on.
pub open spec fn ptt_is_on(outputs: Seq<KeyerOutput>) -> bool
    decreases outputs.len(),
{
    if outputs.len() == 0 {
        false
    } else {
        match outputs.last() {
            KeyerOutput::PttRequest(on) => on,
            _ => ptt_is_on(outputs.drop_last()),
        }
    }
}

/// `out` may follow `before`: the key goes down only when it is up and up only when
/// it is down, both with the transmitter on, and the transmitter is turned on only
/// when it is off and off only when it is on, both with the key up.
pub open spec fn may_follow(before: Seq<KeyerOutput>, out: KeyerOutput) -> bool {
    match out {
        KeyerOutput::KeyDown => !key_is_down(before) && ptt_is_on(before),
        KeyerOutput::KeyUp => key_is_down(before) && ptt_is_on(before),
        KeyerOutput::PttRequest(on) => ptt_is_on(before) == !on && !key_is_down(before),
    }
}

proof fn lemma_call_fits(m: EngineModel, call: EngineCall)
    requires
        covered(m),
        settled(m),
    ensures
        covered(called(m, call).0),
        settled(called(m, call).0),
        output_fits(m, called(m, call).0, called(m, call).1),
{
    reveal(called);
    reveal(commanded);
    if call is Tick {
        lemma_outputs_alternate(m);
    }
}

proof fn lemma_lines_follow_outputs(config: KeyerConfig, tick: int, calls: Seq<EngineCall>)
    ensures
        ({
            let m = after_calls(EngineModel::fresh(config, tick), calls);
            let outputs = outputs_of(EngineModel::fresh(config, tick), calls);
            &&& covered(m)
            &&& settled(m)
            &&& m.key_active == key_is_down(outputs)
            &&& m.ptt_active == ptt_is_on(outputs)
            &&& forall|k: int|
                0 <= k < outputs.len() ==> may_follow(outputs.take(k), #[trigger] outputs[k])
        }),
    decreases calls.len(),
{
    let fresh = EngineModel::fresh(config, tick);
    if calls.len() > 0 {
        let init = calls.drop_last();
        lemma_lines_follow_outputs(config, tick, init);
        let m = after_calls(fresh, init);
        let before = outputs_of(fresh, init);
        let step = called(m, calls.last());
        let outputs = outputs_of(fresh, calls);
        lemma_call_fits(m, calls.last());
        if let Some(out) = step.1 {
            assert(outputs == before.push(out));
            assert(outputs.drop_last() =~= before);
        }
        assert forall|k: int| 0 <= k < outputs.len() implies may_follow(
            outputs.take(k),
            #[trigger] outputs[k],
        ) by {
            if k < before.len() {
                assert(outputs[k] == before[k]);
                assert(outputs.take(k) =~= before.take(k));
            } else {
                assert(outputs.take(k) =~= before);
            }
        }
    }
}

/// Whatever is done with an engine as long as its configuration stays: among all
/// outputs key-down and key-up alternate, key-down first; requests to turn the
/// transmitter on and off alternate, on first; and the key moves only while the
/// transmitter is on, so that it is never turned off with the key down.
pub proof fn lemma_outputs_alternate_over_calls(
    config: KeyerConfig,
    tick: int,
    calls: Seq<EngineCall>,
    k: int,
)
    requires
        0 <= k < outputs_of(EngineModel::fresh(config, tick), calls).len(),
    ensures
        ({
            let outputs = outputs_of(EngineModel::fresh(config, tick), calls);
            may_follow(outputs.take(k), outputs[k])
        }),
{
    lemma_lines_follow_outputs(config, tick, calls);
}

proof fn lemma_tick_call_ignores_dead_zone(m: EngineModel, percent: u8)
    requires
        !(m.config.mode is IambicB),
    ensures
        called(with_dead_zone(m, percent), EngineCall::Tick).0 == with_dead_zone(
            called(m, EngineCall::Tick).0,
            percent,
        ),
        called(with_dead_zone(m, percent), EngineCall::Tick).1 == called(m, EngineCall::Tick).1,
        called(m, EngineCall::Tick).0.config == m.config,
{
    let other = with_dead_zone(m, percent);
    lemma_dead_zone_is_for_iambic_b(m, percent, false, false);
    lemma_tick_keeps_clock(m);
    assert(called(m, EngineCall::Tick) == m.ticked()) by {
        reveal(called);
    }
    assert(called(other, EngineCall::Tick) == other.ticked()) by {
        reveal(called);
    }
}

/// Number of ticks among several calls.
pub open spec fn ticks_of(calls: Seq<EngineCall>) -> nat
    decreases calls.len(),
{
    if calls.len() == 0 {
        0
    } else if calls.last() is Tick {
        ticks_of(calls.drop_last()) + 1
    } else {
        ticks_of(calls.drop_last())
    }
}

/// The moves of the key that ticks asked for since the last time that transitions were
/// handed out, each with the time of its tick.
pub open spec fn moves_of(m: EngineModel, calls: Seq<EngineCall>) -> Seq<KeyTransition>
    decreases calls.len(),
{
    if calls.len() == 0 {
        Seq::empty()
    } else {
        let before = moves_of(m, calls.drop_last());
        let timestamp_us = (m.tick * ticks_of(calls)) as u64;
        if calls.last() is DrainTransitions {
            Seq::empty()
        } else {
            match called(after_calls(m, calls.drop_last()), calls.last()).1 {
                Some(KeyerOutput::KeyDown) => before.push(
                    KeyTransition { key_down: true, timestamp_us },
                ),
                Some(KeyerOutput::KeyUp) => before.push(
                    KeyTransition { key_down: false, timestamp_us },
                ),
                _ => before,
            }
        }
    }
}

/// The moves have ascending times, none of them beyond `end_us`.
pub open spec fn ascending(moves: Seq<KeyTransition>, end_us: int) -> bool {
    &&& forall|i: int, j: int|
        0 <= i < j < moves.len() ==> (#[trigger] moves[i]).timestamp_us < (
        #[trigger] moves[j]).timestamp_us
    &&& forall|i: int| 0 <= i < moves.len() ==> (#[trigger] moves[i]).timestamp_us <= end_us
}

proof fn lemma_tick_is_called(m: EngineModel)
    ensures
        called(m, EngineCall::Tick) == m.ticked(),
{
    reveal(called);
}

proof fn lemma_tick_records(m: EngineModel)
    ensures
        ({
            let step = called(m, EngineCall::Tick);
            let at = (m.elapsed + m.tick) as u64;
            let max = MAX_RECORDED_TRANSITIONS as nat;
            &&& step.0.elapsed == m.elapsed + m.tick
            &&& step.0.tick == m.tick
            &&& step.0.transitions == match step.1 {
                Some(KeyerOutput::KeyDown) => remembered(
                    m.transitions,
                    max,
                    KeyTransition { key_down: true, timestamp_us: at },
                ),
                Some(KeyerOutput::KeyUp) => remembered(
                    m.transitions,
                    max,
                    KeyTransition { key_down: false, timestamp_us: at },
                ),
                _ => m.transitions,
            }
        }),
{
    lemma_tick_is_called(m);
    lemma_moves_are_recorded(m);
    lemma_tick_keeps_clock(m);
}

proof fn lemma_command_records_nothing(m: EngineModel, call: EngineCall)
    requires
        !(call is Tick),
    ensures
        commanded(m, call).elapsed == m.elapsed,
        commanded(m, call).tick == m.tick,
        commanded(m, call).transitions == if call is DrainTransitions {
            Seq::empty()
        } else {
            m.transitions
        },
{
    reveal(commanded);
}

proof fn lemma_last_of_push(moves: Seq<KeyTransition>, n: nat, t: KeyTransition)
    requires
        n > 0,
    ensures
        last_of(moves.push(t), n as int) == remembered(last_of(moves, n as int), n, t),
{
    assert(last_of(moves.push(t), n as int) =~= remembered(last_of(moves, n as int), n, t));
}

proof fn lemma_moves_ascend(moves: Seq<KeyTransition>, t: KeyTransition, end_us: int)
    requires
        ascending(moves, end_us),
        end_us < t.timestamp_us,
    ensures
        ascending(moves.push(t), t.timestamp_us as int),
{
}

proof fn lemma_record_follows_moves(config: KeyerConfig, tick: int, calls: Seq<EngineCall>)
    requires
        tick > 0,
        tick * ticks_of(calls) <= u64::MAX,
    ensures
        ({
            let fresh = EngineModel::fresh(config, tick);
            let m = after_calls(fresh, calls);
            let moves = moves_of(fresh, calls);
            &&& m.elapsed == tick * ticks_of(calls)
            &&& m.tick == tick
            &&& m.transitions == last_of(moves, MAX_RECORDED_TRANSITIONS as int)
            &&& ascending(moves, tick * ticks_of(calls))
        }),
    decreases calls.len(),
{
    let fresh = EngineModel::fresh(config, tick);
    if calls.len() > 0 {
        let init = calls.drop_last();
        let call = calls.last();
        let n = ticks_of(init) as int;
        assert(tick * (n + 1) == tick * n + tick) by (nonlinear_arith);
        lemma_record_follows_moves(config, tick, init);
        let m = after_calls(fresh, init);
        let moves = moves_of(fresh, init);
        if call is Tick {
            lemma_tick_records(m);
            let step = called(m, call);
            let max = MAX_RECORDED_TRANSITIONS as nat;
            let at = (tick * (n + 1)) as u64;
            let down = KeyTransition { key_down: true, timestamp_us: at };
            let up = KeyTransition { key_down: false, timestamp_us: at };
            lemma_last_of_push(moves, max, down);
            lemma_last_of_push(moves, max, up);
            lemma_moves_ascend(moves, down, tick * n);
            lemma_moves_ascend(moves, up, tick * n);
        } else {
            lemma_command_is_called(m, call);
            lemma_command_records_nothing(m, call);
        }
    } else {
        assert(tick * 0 == 0) by (nonlinear_arith);
    }
}

/// Whatever is done with an engine as long as its configuration stays: what is handed
/// out of its transitions are the last of the key's moves since transitions were last
/// handed out, as many as are kept, oldest first. Each has the time of its tick, so
/// that times ascend, and handing out again at once gives nothing.
pub proof fn lemma_transitions_are_the_last_moves(
    config: KeyerConfig,
    tick: int,
    calls: Seq<EngineCall>,
)
    requires
        tick > 0,
        tick * ticks_of(calls) <= u64::MAX,
    ensures
        ({
            let fresh = EngineModel::fresh(config, tick);
            let moves = moves_of(fresh, calls);
            let drained = calls.push(EngineCall::DrainTransitions);
            &&& after_calls(fresh, calls).transitions == last_of(
                moves,
                MAX_RECORDED_TRANSITIONS as int,
            )
            &&& ascending(moves, tick * ticks_of(calls))
            &&& after_calls(fresh, drained).transitions == Seq::<KeyTransition>::empty()
        }),
{
    lemma_record_follows_moves(config, tick, calls);
    let drained = calls.push(EngineCall::DrainTransitions);
    assert(drained.drop_last() =~= calls);
    let m = after_calls(EngineModel::fresh(config, tick), calls);
    lemma_command_is_called(m, EngineCall::DrainTransitions);
    lemma_command_records_nothing(m, EngineCall::DrainTransitions);
}

/// A command does the same with another dead zone and leaves the configuration alone.
spec fn commands_alike(m: EngineModel, percent: u8, call: EngineCall) -> bool {
    &&& commanded(with_dead_zone(m, percent), call) == with_dead_zone(commanded(m, call), percent)
    &&& commanded(m, call).config == m.config
}

proof fn lemma_paddles_ignore_dead_zone(m: EngineModel, percent: u8, dit: bool, dash: bool)
    requires
        !(m.config.mode is IambicB),
    ensures
        commands_alike(m, percent, (EngineCall::SetPaddle { dit, dash })),
{
    reveal(commanded);
    lemma_dead_zone_is_for_iambic_b(m, percent, dit, dash);
}

proof fn lemma_text_ignores_dead_zone(m: EngineModel, percent: u8, text: Seq<char>)
    requires
        !(m.config.mode is IambicB),
    ensures
        commands_alike(m, percent, (EngineCall::SendText { text })),
{
    reveal(commanded);
}

proof fn lemma_abort_ignores_dead_zone(m: EngineModel, percent: u8)
    requires
        !(m.config.mode is IambicB),
    ensures
        commands_alike(m, percent, EngineCall::AbortText),
{
    reveal(commanded);
}

proof fn lemma_drain_ignores_dead_zone(m: EngineModel, percent: u8)
    requires
        !(m.config.mode is IambicB),
    ensures
        commands_alike(m, percent, EngineCall::DrainTransitions),
{
    reveal(commanded);
}

proof fn lemma_command_ignores_dead_zone(m: EngineModel, percent: u8, call: EngineCall)
    requires
        !(m.config.mode is IambicB),
        !(call is Tick),
    ensures
        commands_alike(m, percent, call),
{
    match call {
        EngineCall::SetPaddle { dit, dash } => {
            lemma_paddles_ignore_dead_zone(m, percent, dit, dash);
        },
        EngineCall::SendText { text } => lemma_text_ignores_dead_zone(m, percent, text),
        EngineCall::AbortText => lemma_abort_ignores_dead_zone(m, percent),
        EngineCall::DrainTransitions => lemma_drain_ignores_dead_zone(m, percent),
        EngineCall::Tick => {},
    }
}

proof fn lemma_command_is_called(m: EngineModel, call: EngineCall)
    requires
        !(call is Tick),
    ensures
        called(m, call) == (commanded(m, call), None::<KeyerOutput>),
{
    reveal(called);
}

proof fn lemma_calls_ignore_dead_zone(m: EngineModel, percent: u8, calls: Seq<EngineCall>)
    requires
        !(m.config.mode is IambicB),
    ensures
        after_calls(with_dead_zone(m, percent), calls) == with_dead_zone(
            after_calls(m, calls),
            percent,
        ),
        outputs_of(with_dead_zone(m, percent), calls) == outputs_of(m, calls),
        after_calls(m, calls).config == m.config,
    decreases calls.len(),
{
    if calls.len() > 0 {
        lemma_calls_ignore_dead_zone(m, percent, calls.drop_last());
        let before = after_calls(m, calls.drop_last());
        if calls.last() is Tick {
            lemma_tick_call_ignores_dead_zone(before, percent);
        } else {
            lemma_command_ignores_dead_zone(before, percent, calls.last());
            lemma_command_is_called(before, calls.last());
            lemma_command_is_called(with_dead_zone(before, percent), calls.last());
        }
    }
}

/// Outside iambic B the dead zone has no effect: two engines that differ in nothing
/// else ask the same of the transmitter, tick by tick, and end up the same but for it,
/// whatever sequence of calls is made on both.
pub proof fn lemma_dead_zone_is_ignored_over_calls(
    config: KeyerConfig,
    percent: u8,
    tick: int,
    calls: Seq<EngineCall>,
)
    requires
        !(config.mode is IambicB),
    ensures
        ({
            let other = KeyerConfig { iambic_b_timing_percent: percent, ..config };
            let a = EngineModel::fresh(config, tick);
            let b = EngineModel::fresh(other, tick);
            &&& outputs_of(b, calls) == outputs_of(a, calls)
            &&& after_calls(b, calls) == with_dead_zone(after_calls(a, calls), percent)
            &&& after_calls(b, calls).ticked().1 == after_calls(a, calls).ticked().1
        }),
{
    let a = EngineModel::fresh(config, tick);
    let other = KeyerConfig { iambic_b_timing_percent: percent, ..config };
    assert(EngineModel::fresh(other, tick) == with_dead_zone(a, percent));
    lemma_calls_ignore_dead_zone(a, percent, calls);
    lemma_dead_zone_is_for_iambic_b(after_calls(a, calls), percent, false, false);
}

} // verus!
