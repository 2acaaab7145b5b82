//! What paddle devices and the keyer's clock make of what they are given.

use crate::keyer::config::{MidiBindKind, MidiBinding, SerialPin};
use crate::keyer::control::{apply_command, plan_ticks, wait_timeout_ms, KeyerCommand, TickPlan};
use crate::keyer::engine::{EngineModel, KeyerEngine, KeyerState};
use crate::keyer::midi::{
    midi_poll_action, MidiLearnState, MidiLearnTarget, MidiPaddles, MidiPollAction, RawMidiEvent,
};
use crate::keyer::morse::{text_to_elements, MorseElement};
use crate::keyer::paddle::{
    pin_level, poll_pause_ms, MergedState, PaddleEvent, PaddleState, PollErrors, PollVerdict,
};
use std::collections::VecDeque;
use vstd::prelude::*;
use web_time::Instant;

verus! {

/// A modem status word holds the lines as binary digits: CTS is the lowest, then DSR,
/// DCD and RI. What a poller reads of a line is its level among the four.
pub proof fn lemma_status_word_holds_the_lines(
    e: &mut PollErrors,
    word: i32,
    dit_pin: SerialPin,
    dash_pin: SerialPin,
    v: PollVerdict,
    dit: bool,
    dash: bool,
)
    requires
        word >= 0,
        call_ensures(PollErrors::on_reading, (e, Some(word), dit_pin, dash_pin), v),
        call_ensures(
            pin_level,
            (dit_pin, word % 2 == 1, word / 2 % 2 == 1, word / 4 % 2 == 1, word / 8 % 2 == 1),
            dit,
        ),
        call_ensures(
            pin_level,
            (dash_pin, word % 2 == 1, word / 2 % 2 == 1, word / 4 % 2 == 1, word / 8 % 2 == 1),
            dash,
        ),
    ensures
        v == (PollVerdict::Contacts { dit, dash }),
        final(e).consecutive == 0,
        dit_pin is CTS ==> dit == (word % 2 == 1),
        dit_pin is DSR ==> dit == (word / 2 % 2 == 1),
        dit_pin is DCD ==> dit == (word / 4 % 2 == 1),
        dit_pin is RI ==> dit == (word / 8 % 2 == 1),
{
    assert((word & 1 != 0) <==> word % 2 == 1) by (bit_vector)
        requires
            word >= 0,
    ;
    assert((word & 2 != 0) <==> word / 2 % 2 == 1) by (bit_vector)
        requires
            word >= 0,
    ;
    assert((word & 4 != 0) <==> word / 4 % 2 == 1) by (bit_vector)
        requires
            word >= 0,
    ;
    assert((word & 8 != 0) <==> word / 8 % 2 == 1) by (bit_vector)
        requires
            word >= 0,
    ;
}

/// A poller gives up at the fiftieth failed reading in a row, and tries again after
/// each one before.
pub proof fn lemma_fiftieth_failure_ends_polling(
    e: &mut PollErrors,
    status: Option<i32>,
    dit_pin: SerialPin,
    dash_pin: SerialPin,
    v: PollVerdict,
)
    requires
        old(e).consecutive < 50,
        status is None || status->0 < 0,
        call_ensures(PollErrors::on_reading, (e, status, dit_pin, dash_pin), v),
    ensures
        final(e).consecutive == old(e).consecutive + 1,
        old(e).consecutive < 49 ==> v is Retry,
        old(e).consecutive == 49 ==> v is GiveUp,
{
}

/// Without a change for a quarter of a second a poller pauses for 5 ms between
/// readings, else not at all.
pub proof fn lemma_poller_slows_down(changed: bool, unchanged_ms: u64, pause: Option<u64>)
    requires
        call_ensures(poll_pause_ms, (changed, unchanged_ms), pause),
    ensures
        !changed && 4 * unchanged_ms >= 1000 ==> pause == Some(5u64),
        changed || 4 * unchanged_ms < 1000 ==> pause is None,
{
}

/// Each millisecond that has passed is one tick, up to four; what is beyond is given up.
pub proof fn lemma_up_to_four_ticks_catch_up(passed_ms: u32, plan: TickPlan)
    requires
        call_ensures(plan_ticks, (passed_ms,), plan),
    ensures
        plan.ticks <= 4 && plan.ticks <= passed_ms,
        passed_ms <= 4 ==> plan.ticks == passed_ms && !plan.resync,
        passed_ms > 4 ==> plan.ticks == 4 && plan.resync,
{
}

/// The keyer waits a millisecond for paddles while it is doing something, and a tenth
/// of a second when it is at rest with the transmitter off and no text.
pub proof fn lemma_waits_are_short_while_active(engine: KeyerEngine, ms: u64)
    requires
        call_ensures(wait_timeout_ms, (&engine,), ms),
    ensures
        engine@.state != KeyerState::Idle || engine@.ptt_active || engine@.text_queue.len() > 0
            ==> ms == 1,
        engine@.state is Idle && !engine@.ptt_active && engine@.text_queue.len() == 0 ==> 10 * ms
            == 1000,
{
}

/// A button on a channel, as a device sends it: the status byte holds the message in
/// its upper half and the channel, counted from 0, in its lower half.
pub proof fn lemma_button_messages_are_understood(
    bytes: &[u8],
    channel: u8,
    ev: Option<RawMidiEvent>,
)
    requires
        call_ensures(RawMidiEvent::from_bytes, (bytes,), ev),
        bytes@.len() >= 3,
        1 <= channel <= 16,
    ensures
        bytes@[0] == 0x80 + channel - 1 ==> ev == Some(
            RawMidiEvent {
                kind: MidiBindKind::NoteOn,
                channel,
                number: bytes@[1],
                is_down: false,
            },
        ),
        bytes@[0] == 0x90 + channel - 1 ==> ev == Some(
            RawMidiEvent {
                kind: MidiBindKind::NoteOn,
                channel,
                number: bytes@[1],
                is_down: bytes@[2] != 0,
            },
        ),
        bytes@[0] == 0xb0 + channel - 1 ==> ev == Some(
            RawMidiEvent {
                kind: MidiBindKind::ControlChange,
                channel,
                number: bytes@[1],
                is_down: bytes@[2] != 0,
            },
        ),
        ev is Some <==> 0x80 <= bytes@[0] <= 0x9f || 0xb0 <= bytes@[0] <= 0xbf,
{
}

/// A status byte alone stands for note 0, pressed or released; nothing else that is
/// shorter than three bytes says anything.
pub proof fn lemma_short_messages(bytes: &[u8], ev: Option<RawMidiEvent>)
    requires
        call_ensures(RawMidiEvent::from_bytes, (bytes,), ev),
        bytes@.len() < 3,
    ensures
        ev is Some <==> bytes@.len() == 1 && 0x80 <= bytes@[0] <= 0x9f,
        ev matches Some(e) ==> e.kind is NoteOn && e.number == 0 && e.is_down == (bytes@[0]
            >= 0x90) && (e.channel - 1) == bytes@[0] - (if e.is_down {
            0x90int
        } else {
            0x80int
        }),
{
}

/// A paddle follows its own button and no other: it is closed from a press of the
/// button to its release.
pub proof fn lemma_paddle_follows_its_button(
    p: &mut MidiPaddles,
    ev: RawMidiEvent,
    dit: Option<MidiBinding>,
    dah: Option<MidiBinding>,
    changed: bool,
)
    requires
        call_ensures(MidiPaddles::apply, (p, &ev, &dit, &dah), changed),
    ensures
        ({
            let hits = |b: Option<MidiBinding>|
                b is Some && b->0.kind == ev.kind && b->0.channel == ev.channel && b->0.number
                    == ev.number;
            &&& final(p).dit == if hits(dit) {
                ev.is_down
            } else {
                old(p).dit
            }
            &&& final(p).dash == if hits(dah) {
                ev.is_down
            } else {
                old(p).dash
            }
        }),
        changed <==> final(p).dit != old(p).dit || final(p).dash != old(p).dash,
        !changed ==> final(p).generation == old(p).generation,
        changed && old(p).generation < 0xffff_ffff_ffff_ffff ==> final(p).generation == old(
            p,
        ).generation + 1,
{
}

/// Messages are read as long as the port gives any with data; a failure, or anything
/// else than data, stops the reader.
pub proof fn lemma_port_is_read_while_it_gives_data(
    messages: isize,
    opcode: i32,
    a: MidiPollAction,
)
    requires
        call_ensures(midi_poll_action, (messages, opcode), a),
    ensures
        messages == 0 ==> a is Wait,
        messages < 0 ==> a is Stop,
        messages > 0 && opcode == 1 ==> a is Read,
        messages > 0 && opcode != 1 ==> a is Stop,
{
}

/// A binding is learned when half a second has passed since the first candidate: the
/// first note that was heard, or the first candidate where there was no note. Before,
/// nothing changes.
pub proof fn lemma_binding_is_learned_after_half_a_second(
    s: &mut MidiLearnState,
    waited_ms: u128,
    r: Option<(MidiLearnTarget, MidiBinding)>,
    k: int,
)
    requires
        call_ensures(MidiLearnState::resolve_after, (s, waited_ms), r),
        old(s)@.target is Some,
        old(s)@.start is Some,
        0 <= k < old(s)@.candidates.len(),
        old(s)@.candidates[k].kind is NoteOn || k == 0,
        forall|i: int| 0 <= i < k ==> !((#[trigger] old(s)@.candidates[i]).kind is NoteOn),
        old(s)@.candidates[k].kind is NoteOn || forall|i: int|
            0 <= i < old(s)@.candidates.len() ==> !((#[trigger] old(
                s,
            )@.candidates[i]).kind is NoteOn),
    ensures
        2 * waited_ms < 1000 ==> r is None && final(s)@ == old(s)@,
        2 * waited_ms >= 1000 ==> r == Some(
            (
                old(s)@.target->0,
                MidiBinding {
                    channel: old(s)@.candidates[k].channel,
                    kind: old(s)@.candidates[k].kind,
                    number: old(s)@.candidates[k].number,
                },
            ),
        ) && final(s)@.target is None && final(s)@.candidates.len() == 0,
{
    if 2 * waited_ms >= 1000 {
        let m = old(s)@;
        let (_, binding) = r->0;
        let j = choose|j: int| #[trigger] m.is_choice(j) && binding == m.candidates[j].button();
        assert(j == k) by {
            if j < k {
                assert(!(m.candidates[j].kind is NoteOn));
            } else if k < j {
                assert(m.candidates[j].kind is NoteOn);
                assert(!(m.candidates[k].kind is NoteOn));
            }
        }
    }
}

/// Whether an event comes from a bound button.
pub open spec fn hits(b: Option<MidiBinding>, ev: RawMidiEvent) -> bool {
    b is Some && b->0.kind == ev.kind && b->0.channel == ev.channel && b->0.number == ev.number
}

proof fn lemma_last_event_counts(
    p: MidiPaddles,
    events: Seq<RawMidiEvent>,
    dit: Option<MidiBinding>,
    dah: Option<MidiBinding>,
    k: int,
)
    requires
        -1 <= k < events.len(),
    ensures
        ({
            let after = p.after_all(events, dit, dah);
            &&& (k >= 0 && hits(dit, events[k]) && forall|j: int|
                k < j < events.len() ==> !hits(dit, #[trigger] events[j])) ==> after.dit
                == events[k].is_down
            &&& (k >= 0 && hits(dah, events[k]) && forall|j: int|
                k < j < events.len() ==> !hits(dah, #[trigger] events[j])) ==> after.dash
                == events[k].is_down
            &&& (k == -1 && forall|j: int| 0 <= j < events.len() ==> !hits(dit, #[trigger] events[j]))
                ==> after.dit == p.dit
            &&& (k == -1 && forall|j: int| 0 <= j < events.len() ==> !hits(dah, #[trigger] events[j]))
                ==> after.dash == p.dash
        }),
    decreases events.len(),
{
    if events.len() > 0 {
        let init = events.drop_last();
        let n = events.len() - 1;
        assert forall|j: int| 0 <= j < init.len() implies init[j] == events[j] by {}
        if k < n {
            lemma_last_event_counts(p, init, dit, dah, k);
            if forall|j: int| k < j < events.len() ==> !hits(dit, #[trigger] events[j]) {
                assert(!hits(dit, events[n]));
                assert forall|j: int| k < j < init.len() implies !hits(dit, #[trigger] init[j]) by {
                    assert(!hits(dit, events[j]));
                }
            }
            if forall|j: int| k < j < events.len() ==> !hits(dah, #[trigger] events[j]) {
                assert(!hits(dah, events[n]));
                assert forall|j: int| k < j < init.len() implies !hits(dah, #[trigger] init[j]) by {
                    assert(!hits(dah, events[j]));
                }
            }
        }
    }
}

/// Events that wait are taken in oldest first: afterwards a paddle is as the last event of
/// its button left it, or as it was where there was none. The queue is empty.
pub proof fn lemma_last_event_decides(
    p: &mut MidiPaddles,
    queue: &mut VecDeque<RawMidiEvent>,
    dit: Option<MidiBinding>,
    dah: Option<MidiBinding>,
    events: Vec<RawMidiEvent>,
    k: int,
)
    requires
        call_ensures(MidiPaddles::drain, (p, queue, &dit, &dah), events),
        -1 <= k < old(queue)@.len(),
    ensures
        events@ == old(queue)@,
        final(queue)@.len() == 0,
        k >= 0 && hits(dit, events@[k]) && (forall|j: int|
            k < j < events@.len() ==> !hits(dit, #[trigger] events@[j])) ==> final(p).dit
            == events@[k].is_down,
        k >= 0 && hits(dah, events@[k]) && (forall|j: int|
            k < j < events@.len() ==> !hits(dah, #[trigger] events@[j])) ==> final(p).dash
            == events@[k].is_down,
        k == -1 && (forall|j: int| 0 <= j < events@.len() ==> !hits(dit, #[trigger] events@[j]))
            ==> final(p).dit == old(p).dit,
        k == -1 && (forall|j: int| 0 <= j < events@.len() ==> !hits(dah, #[trigger] events@[j]))
            ==> final(p).dash == old(p).dash,
{
    lemma_last_event_counts(*old(p), old(queue)@, dit, dah, k);
}

/// While a binding is learned, the first event of each button becomes a candidate, in
/// the order of arrival, and the time of the first candidate is kept. Otherwise events
/// do nothing.
pub proof fn lemma_candidates_are_collected(s: &mut MidiLearnState, ev: RawMidiEvent, now: Instant)
    requires
        call_ensures(MidiLearnState::feed_at, (s, ev, now), ()),
    ensures
        ({
            let was = old(s)@;
            let next = final(s)@;
            let known = exists|i: int|
                0 <= i < was.candidates.len() && (#[trigger] was.candidates[i]).kind == ev.kind
                    && was.candidates[i].channel == ev.channel && was.candidates[i].number
                    == ev.number;
            &&& was.target is None ==> next == was
            &&& next.target == was.target
            &&& was.target is Some ==> next.start == if was.start is Some {
                was.start
            } else {
                Some(now)
            }
            &&& was.target is Some && known ==> next.candidates == was.candidates
            &&& was.target is Some && !known ==> next.candidates == was.candidates.push(ev)
        }),
{
    let was = old(s)@;
    if was.knows(ev) {
        let i = choose|i: int|
            0 <= i < was.candidates.len() && (#[trigger] was.candidates[i]).button()
                == ev.button();
        assert(was.candidates[i].kind == ev.kind);
    } else {
        assert forall|i: int| 0 <= i < was.candidates.len() implies !((
        #[trigger] was.candidates[i]).kind == ev.kind && was.candidates[i].channel == ev.channel
            && was.candidates[i].number == ev.number) by {
            assert(was.candidates[i].button() != ev.button());
        }
    }
}

/// A contact follows its own events: it is closed from its down event to its up event,
/// and the other one stays.
pub proof fn lemma_contacts_follow_their_events(
    s: &mut PaddleState,
    event: PaddleEvent,
    now: Instant,
)
    requires
        call_ensures(PaddleState::apply_at, (s, event, now), ()),
    ensures
        event is DitDown ==> final(s).dit && final(s).dash == old(s).dash,
        event is DitUp ==> !final(s).dit && final(s).dash == old(s).dash,
        event is DashDown ==> final(s).dash && final(s).dit == old(s).dit,
        event is DashUp ==> !final(s).dash && final(s).dit == old(s).dit,
        final(s).timestamp == now,
{
}

/// Several sources share one state: it takes the contacts of a source that changed, and
/// a reader learns of it exactly if its own count is another.
pub proof fn lemma_changes_are_shared(
    m: &mut MergedState,
    prev: PaddleState,
    state: PaddleState,
    changed: bool,
    seen: u64,
    news: Option<PaddleState>,
)
    requires
        old(m).generation < u64::MAX,
        call_ensures(MergedState::publish, (m, &prev, state), changed),
        call_ensures(MergedState::news_since, (final(m), seen), news),
    ensures
        changed <==> state.dit != prev.dit || state.dash != prev.dash,
        changed ==> final(m).paddle == state,
        !changed ==> *final(m) == *old(m),
        changed && seen == old(m).generation ==> news == Some(state),
        seen == final(m).generation ==> news is None,
{
}

/// Commands reach the engine as the calls of the same names do, and only the command to
/// stop ends the thread.
pub proof fn lemma_commands_reach_the_engine(
    e: &mut KeyerEngine,
    command: KeyerCommand,
    go_on: bool,
    elements: Vec<MorseElement>,
    text: &str,
)
    requires
        call_ensures(apply_command, (e, command), go_on),
        command matches KeyerCommand::SendMacro(t) ==> text@ == t@,
        call_ensures(text_to_elements, (text,), elements),
    ensures
        go_on <==> !(command is Stop),
        command is Stop ==> final(e)@ == old(e)@,
        command matches KeyerCommand::UpdateConfig(c) ==> final(e)@ == (EngineModel {
            config: *c,
            ..old(e)@
        }),
        command is SendMacro ==> final(e)@ == (EngineModel {
            text_queue: old(e)@.text_queue + elements@,
            text_sending: true,
            ..old(e)@
        }),
        command is AbortMacro ==> final(e)@.text_queue.len() == 0 && !final(e)@.text_sending
            && final(e)@ == (EngineModel {
            text_queue: final(e)@.text_queue,
            text_sending: false,
            ..old(e)@
        }),
{
}

} // verus!
