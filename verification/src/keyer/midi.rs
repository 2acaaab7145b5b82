//! MIDI paddles: messages, bindings and learning a binding from a press.

use crate::clock;
use crate::keyer::config::{MidiBindKind, MidiBinding};
use std::collections::VecDeque;
use vstd::prelude::*;
use web_time::Instant;

verus! {

/// A button press or release on a MIDI device.
#[derive(Debug, Clone, Copy)]
pub struct RawMidiEvent {
    pub kind: MidiBindKind,
    /// Channel, 1 to 16.
    pub channel: u8,
    pub number: u8,
    pub is_down: bool,
}

/// What a MIDI message says. Note-off, note-on and control-change messages of
/// three bytes are understood, and a note status byte that comes alone, which
/// stands for note 0. A note-on with velocity 0 is a release.
pub open spec fn midi_event(bytes: Seq<u8>) -> Option<RawMidiEvent> {
    if bytes.len() == 0 || bytes.len() == 2 {
        None
    } else {
        let alone = bytes.len() == 1;
        let nibble = bytes[0] / 16;
        let number = if alone {
            0
        } else {
            bytes[1]
        };
        let channel = (bytes[0] % 16 + 1) as u8;
        if nibble == 0x8 {
            Some(RawMidiEvent { kind: MidiBindKind::NoteOn, channel, number, is_down: false })
        } else if nibble == 0x9 {
            Some(
                RawMidiEvent {
                    kind: MidiBindKind::NoteOn,
                    channel,
                    number,
                    is_down: alone || bytes[2] > 0,
                },
            )
        } else if nibble == 0xb && !alone {
            Some(
                RawMidiEvent {
                    kind: MidiBindKind::ControlChange,
                    channel,
                    number,
                    is_down: bytes[2] > 0,
                },
            )
        } else {
            None
        }
    }
}

impl RawMidiEvent {
    /// The button that the event belongs to.
    pub open spec fn button(self) -> MidiBinding {
        MidiBinding { channel: self.channel, kind: self.kind, number: self.number }
    }

    /// Reads a MIDI message.
    pub fn from_bytes(bytes: &[u8]) -> (ev: Option<Self>)
        ensures
            ev == midi_event(bytes@),
    {
        if bytes.len() == 0 {
            return None;
        }
        let status: u8 = bytes[0];
        let nibble: u8 = status / 16;
        let channel: u8 = status % 16 + 1;
        if bytes.len() == 1 {
            if nibble == 0x8 || nibble == 0x9 {
                return Some(
                    RawMidiEvent {
                        kind: MidiBindKind::NoteOn,
                        channel,
                        number: 0,
                        is_down: nibble == 0x9,
                    },
                );
            }
            return None;
        }
        if bytes.len() < 3 {
            return None;
        }
        let number: u8 = bytes[1];
        let value: u8 = bytes[2];
        if nibble == 0x8 {
            Some(RawMidiEvent { kind: MidiBindKind::NoteOn, channel, number, is_down: false })
        } else if nibble == 0x9 {
            Some(RawMidiEvent { kind: MidiBindKind::NoteOn, channel, number, is_down: value > 0 })
        } else if nibble == 0xb {
            Some(
                RawMidiEvent {
                    kind: MidiBindKind::ControlChange,
                    channel,
                    number,
                    is_down: value > 0,
                },
            )
        } else {
            None
        }
    }

    /// Whether the event comes from the bound button.
    pub fn matches(&self, binding: &MidiBinding) -> (r: bool)
        ensures
            r == (self.button() == *binding),
    {
        self.kind == binding.kind && self.channel == binding.channel && self.number
            == binding.number
    }
}

/// Level of a paddle after an event: the bound button sets it, any other event
/// leaves it.
pub open spec fn level_after(
    level: bool,
    ev: RawMidiEvent,
    binding: Option<MidiBinding>,
) -> bool {
    if binding == Some(ev.button()) {
        ev.is_down
    } else {
        level
    }
}

fn level_with(level: bool, ev: &RawMidiEvent, binding: &Option<MidiBinding>) -> (r: bool)
    ensures
        r == level_after(level, *ev, *binding),
{
    match binding {
        Some(b) => if ev.matches(b) {
            ev.is_down
        } else {
            level
        },
        None => level,
    }
}

/// The paddles as a MIDI device shows them.
#[derive(Debug, Clone, Copy, PartialEq, Eq, Structural)]
pub struct MidiPaddles {
    pub dit: bool,
    pub dash: bool,
    /// Number of changes, modulo 2^64.
    pub generation: u64,
}

impl MidiPaddles {
    /// Both paddles open.
    pub fn new() -> (p: Self)
        ensures
            p == (MidiPaddles { dit: false, dash: false, generation: 0 }),
    {
        MidiPaddles { dit: false, dash: false, generation: 0 }
    }

    /// The paddles with new levels; a change counts.
    pub open spec fn with_levels(self, dit: bool, dash: bool) -> MidiPaddles {
        if self.dit == dit && self.dash == dash {
            self
        } else {
            MidiPaddles { dit, dash, generation: ((self.generation + 1) % 0x1_0000_0000_0000_0000)
                as u64 }
        }
    }

    /// Takes in new levels and tells whether anything changed.
    pub fn set_levels(&mut self, dit: bool, dash: bool) -> (changed: bool)
        ensures
            *final(self) == old(self).with_levels(dit, dash),
            changed == (old(self).dit != dit || old(self).dash != dash),
    {
        if self.dit != dit || self.dash != dash {
            self.dit = dit;
            self.dash = dash;
            self.generation = self.generation.wrapping_add(1);
            true
        } else {
            false
        }
    }

    /// Takes in an event and tells whether anything changed.
    pub fn apply(
        &mut self,
        ev: &RawMidiEvent,
        dit_binding: &Option<MidiBinding>,
        dah_binding: &Option<MidiBinding>,
    ) -> (changed: bool)
        ensures
            *final(self) == old(self).with_levels(
                level_after(old(self).dit, *ev, *dit_binding),
                level_after(old(self).dash, *ev, *dah_binding),
            ),
            changed == (final(self).dit != old(self).dit || final(self).dash != old(self).dash),
    {
        let dit: bool = level_with(self.dit, ev, dit_binding);
        let dash: bool = level_with(self.dash, ev, dah_binding);
        self.set_levels(dit, dash)
    }

    /// The paddles after events, oldest first.
    pub open spec fn after_all(
        self,
        events: Seq<RawMidiEvent>,
        dit_binding: Option<MidiBinding>,
        dah_binding: Option<MidiBinding>,
    ) -> MidiPaddles
        decreases events.len(),
    {
        if events.len() == 0 {
            self
        } else {
            let before = self.after_all(events.drop_last(), dit_binding, dah_binding);
            before.with_levels(
                level_after(before.dit, events.last(), dit_binding),
                level_after(before.dash, events.last(), dah_binding),
            )
        }
    }

    /// Takes in all events that wait, oldest first, and hands them on.
    pub fn drain(
        &mut self,
        queue: &mut VecDeque<RawMidiEvent>,
        dit_binding: &Option<MidiBinding>,
        dah_binding: &Option<MidiBinding>,
    ) -> (events: Vec<RawMidiEvent>)
        ensures
            events@ == old(queue)@,
            final(queue)@.len() == 0,
            *final(self) == old(self).after_all(old(queue)@, *dit_binding, *dah_binding),
    {
        let ghost all = queue@;
        let ghost before = *self;
        let mut events: Vec<RawMidiEvent> = Vec::new();
        while queue.len() > 0
            invariant
                events@ + queue@ == all,
                *self == before.after_all(events@, *dit_binding, *dah_binding),
            decreases queue@.len(),
        {
            let next: Option<RawMidiEvent> = queue.pop_front();
            if let Some(ev) = next {
                let ghost seen = events@;
                self.apply(&ev, dit_binding, dah_binding);
                events.push(ev);
                assert(events@.drop_last() =~= seen);
                assert(events@ + queue@ =~= all);
            }
        }
        assert(events@ =~= all);
        events
    }
}

/// What a reader of a MIDI port does after it has asked for a message.
#[derive(Debug, Clone, Copy, PartialEq, Eq, Structural)]
pub enum MidiPollAction {
    /// The message is to be read.
    Read,
    /// There was none: ask again in a moment.
    Wait,
    /// The port is of no use any more.
    Stop,
}

/// Operation code of a message that carries data.
pub const MIDI_OPCODE_DATA: i32 = 1;

/// Decides by the number of messages that the port gave and by the operation
/// code of the message.
pub fn midi_poll_action(messages: isize, opcode: i32) -> (a: MidiPollAction)
    ensures
        a is Read <==> messages > 0 && opcode == MIDI_OPCODE_DATA,
        a is Wait <==> messages == 0,
        a is Stop <==> messages < 0 || (messages > 0 && opcode != MIDI_OPCODE_DATA),
{
    if messages > 0 && opcode == MIDI_OPCODE_DATA {
        MidiPollAction::Read
    } else if messages == 0 {
        MidiPollAction::Wait
    } else {
        MidiPollAction::Stop
    }
}

/// Paddle for which a binding is being learned.
#[derive(Debug, Clone, Copy, PartialEq, Eq, Structural)]
pub enum MidiLearnTarget {
    Dit,
    Dah,
}

/// Time for which candidates are collected.
pub const LEARN_WINDOW_MS: u64 = 500;

/// State of learning a binding as mathematical values.
#[verifier::ext_equal]
pub struct LearnModel {
    pub target: Option<MidiLearnTarget>,
    /// First events of the buttons heard so far, in the order of arrival.
    pub candidates: Seq<RawMidiEvent>,
    /// Time of the first candidate.
    pub start: Option<Instant>,
}

impl LearnModel {
    /// Nothing is being learned.
    pub open spec fn off() -> LearnModel {
        LearnModel { target: None, candidates: Seq::empty(), start: None }
    }

    /// The button of `ev` is a candidate already.
    pub open spec fn knows(self, ev: RawMidiEvent) -> bool {
        exists|i: int|
            0 <= i < self.candidates.len() && (#[trigger] self.candidates[i]).button()
                == ev.button()
    }

    /// An event arrives at `now`.
    pub open spec fn fed(self, ev: RawMidiEvent, now: Instant) -> LearnModel {
        if self.target is None {
            self
        } else {
            LearnModel {
                start: if self.start is None {
                    Some(now)
                } else {
                    self.start
                },
                candidates: if self.knows(ev) {
                    self.candidates
                } else {
                    self.candidates.push(ev)
                },
                ..self
            }
        }
    }

    /// Index of the candidate that is chosen: the first note, or else the first
    /// candidate.
    pub open spec fn is_choice(self, k: int) -> bool {
        &&& 0 <= k < self.candidates.len()
        &&& if self.candidates[k].kind is NoteOn {
            forall|i: int| 0 <= i < k ==> !((#[trigger] self.candidates[i]).kind is NoteOn)
        } else {
            k == 0 && forall|i: int|
                0 <= i < self.candidates.len() ==> !((#[trigger] self.candidates[i]).kind is NoteOn)
        }
    }

    /// Candidates have been collected for long enough.
    pub open spec fn is_due(self, waited_ms: int) -> bool {
        &&& self.target is Some
        &&& self.start is Some
        &&& self.candidates.len() > 0
        &&& waited_ms >= LEARN_WINDOW_MS
    }
}

/// Learns which button a paddle is to be bound to.
pub struct MidiLearnState {
    target: Option<MidiLearnTarget>,
    candidates: VecDeque<RawMidiEvent>,
    start: Option<Instant>,
}

impl View for MidiLearnState {
    type V = LearnModel;

    closed spec fn view(&self) -> LearnModel {
        LearnModel { target: self.target, candidates: self.candidates@, start: self.start }
    }
}

impl Default for MidiLearnState {
    fn default() -> (s: Self)
        ensures
            s@ == LearnModel::off(),
    {
        MidiLearnState { target: None, candidates: VecDeque::new(), start: None }
    }
}

impl MidiLearnState {
    /// Nothing is being learned.
    pub fn new() -> (s: Self)
        ensures
            s@ == LearnModel::off(),
    {
        MidiLearnState { target: None, candidates: VecDeque::new(), start: None }
    }

    /// Starts to learn a binding for `target`.
    pub fn begin(&mut self, target: MidiLearnTarget)
        ensures
            final(self)@ == (LearnModel { target: Some(target), ..LearnModel::off() }),
    {
        self.target = Some(target);
        self.candidates.clear();
        self.start = None;
    }

    /// Stops learning.
    pub fn cancel(&mut self)
        ensures
            final(self)@ == LearnModel::off(),
    {
        self.target = None;
        self.candidates.clear();
        self.start = None;
    }

    /// Takes in an event that arrives now.
    pub fn feed(&mut self, ev: RawMidiEvent)
        ensures
            exists|now: Instant| final(self)@ == #[trigger] old(self)@.fed(ev, now),
    {
        let now: Instant = clock::now();
        self.feed_at(ev, now);
        assert(self@ == old(self)@.fed(ev, now));
    }

    /// Takes in an event that arrives at `now`.
    pub fn feed_at(&mut self, ev: RawMidiEvent, now: Instant)
        ensures
            final(self)@ == old(self)@.fed(ev, now),
    {
        if self.target.is_none() {
            return;
        }
        if self.start.is_none() {
            self.start = Some(now);
        }
        let mut known: bool = false;
        let mut i: usize = 0;
        while i < self.candidates.len()
            invariant
                i <= self.candidates@.len(),
                known <==> exists|j: int|
                    0 <= j < i && (#[trigger] self.candidates@[j]).button() == ev.button(),
            decreases self.candidates@.len() - i,
        {
            let c: RawMidiEvent = self.candidates[i];
            if c.kind == ev.kind && c.channel == ev.channel && c.number == ev.number {
                known = true;
                assert(self.candidates@[i as int].button() == ev.button());
            }
            i = i + 1;
        }
        if !known {
            self.candidates.push_back(ev);
        }
    }

    /// The learned binding, once candidates have been collected for long enough.
    /// How long that has been is a reading of the clock.
    pub fn try_resolve(&mut self) -> (r: Option<(MidiLearnTarget, MidiBinding)>)
        ensures
            exists|waited_ms: int|
                waited_ms >= 0 && (r is Some <==> #[trigger] old(self)@.is_due(waited_ms)),
            r is None ==> final(self)@ == old(self)@,
            r matches Some((target, binding)) ==> old(self)@.target == Some(target)
                && final(self)@ == LearnModel::off() && exists|k: int|
                #[trigger] old(self)@.is_choice(k) && binding
                    == old(self)@.candidates[k].button(),
            old(self)@.target is None || old(self)@.candidates.len() == 0 ==> r is None,
    {
        let waited: u128 = match self.start {
            Some(start) => clock::elapsed_nanos(&start) / 1_000_000,
            None => 0,
        };
        self.resolve_after(waited)
    }

    /// The learned binding, when candidates have been collected for `waited_ms`.
    pub fn resolve_after(&mut self, waited_ms: u128) -> (r: Option<(MidiLearnTarget, MidiBinding)>)
        ensures
            r is Some <==> old(self)@.is_due(waited_ms as int),
            r is None ==> final(self)@ == old(self)@,
            r matches Some((target, binding)) ==> old(self)@.target == Some(target)
                && final(self)@ == LearnModel::off() && exists|k: int|
                #[trigger] old(self)@.is_choice(k) && binding
                    == old(self)@.candidates[k].button(),
    {
        let target: MidiLearnTarget = match self.target {
            Some(t) => t,
            None => {
                return None;
            },
        };
        if self.start.is_none() || self.candidates.len() == 0 || waited_ms
            < LEARN_WINDOW_MS as u128 {
            return None;
        }
        let ghost before = self@;
        let mut k: usize = 0;
        let mut i: usize = 0;
        let mut found: bool = false;
        while i < self.candidates.len() && !found
            invariant
                i <= self.candidates@.len(),
                self@ == before,
                0 < self.candidates@.len(),
                found ==> k < self.candidates@.len() && self.candidates@[k as int].kind is NoteOn
                    && forall|j: int|
                    0 <= j < k ==> !((#[trigger] self.candidates@[j]).kind is NoteOn),
                !found ==> k == 0 && forall|j: int|
                    0 <= j < i ==> !((#[trigger] self.candidates@[j]).kind is NoteOn),
            decreases self.candidates@.len() - i,
        {
            let c: RawMidiEvent = self.candidates[i];
            if c.kind == MidiBindKind::NoteOn {
                found = true;
                k = i;
            }
            i = i + 1;
        }
        let ev: RawMidiEvent = self.candidates[k];
        assert(before.is_choice(k as int));
        let binding: MidiBinding = MidiBinding {
            channel: ev.channel,
            kind: ev.kind,
            number: ev.number,
        };
        self.cancel();
        Some((target, binding))
    }

    /// Whether a binding is being learned.
    pub fn is_learning(&self) -> (r: bool)
        ensures
            r == (self@.target is Some),
    {
        self.target.is_some()
    }

    /// Paddle for which a binding is being learned.
    pub fn target(&self) -> (t: Option<MidiLearnTarget>)
        ensures
            t == self@.target,
    {
        self.target
    }

    /// Number of candidates collected so far.
    pub fn candidate_count(&self) -> (n: usize)
        ensures
            n == self@.candidates.len(),
    {
        self.candidates.len()
    }
}

/// No two candidates come from the same button.
pub open spec fn distinct_buttons(m: LearnModel) -> bool {
    forall|i: int, j: int|
        0 <= i < j < m.candidates.len() ==> (#[trigger] m.candidates[i]).button() != (
        #[trigger] m.candidates[j]).button()
}

/// A button becomes a candidate once, however often it is pressed.
pub proof fn lemma_buttons_stay_distinct(m: LearnModel, ev: RawMidiEvent, now: Instant)
    requires
        distinct_buttons(m),
    ensures
        distinct_buttons(m.fed(ev, now)),
        m.fed(ev, now).fed(ev, now) == m.fed(ev, now),
{
    let n = m.fed(ev, now);
    if m.target is Some && !m.knows(ev) {
        assert(n.candidates[m.candidates.len() as int].button() == ev.button());
    }
}

/// A reply to a learned button: the binding that was learned from an event is
/// met by every event of the same button.
pub proof fn lemma_learned_binding_matches(ev: RawMidiEvent, other: RawMidiEvent)
    requires
        ev.button() == other.button(),
    ensures
        level_after(false, other, Some(ev.button())) == other.is_down,
        level_after(true, other, Some(ev.button())) == other.is_down,
{
}

} // verus!
