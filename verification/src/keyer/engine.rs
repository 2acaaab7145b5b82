//! The keyer state machine.
//!
//! The engine turns paddle contacts and queued texts into key and PTT requests.
//! It is driven by calls of [`KeyerEngine::tick`], each of which stands for the
//! same span of time and yields at most one output. Each phase ends at a
//! deadline; a phase that starts within one tick of the last deadline counts
//! from that deadline, so that the time lost to the tick grid does not add up.

use crate::keyer::config::{max_int, min_int, KeyerConfig, KeyerMode};
use crate::keyer::morse::{text_elements, text_to_elements, MorseElement};
use crate::ring::{
    remembered, transition_contents, transitions_is_full, transitions_len, transitions_new,
    transitions_pop_front, transitions_push_back,
};
use std::collections::VecDeque;
use vstd::prelude::*;

verus! {

/// What the engine asks of the transmitter.
#[derive(Debug, Clone, Copy, PartialEq, Eq, Structural)]
pub enum KeyerOutput {
    KeyDown,
    KeyUp,
    PttRequest(bool),
}

/// Phase that the engine is in.
#[derive(Debug, Clone, Copy, PartialEq, Eq, Structural)]
pub enum KeyerState {
    Idle,
    StraightKey,
    SendDit,
    SendDash,
    DitDelay,
    DashDelay,
    LetterSpace,
}

/// One change of the key line and the engine time at which it happened.
#[derive(Debug, Clone, Copy)]
pub struct KeyTransition {
    pub key_down: bool,
    pub timestamp_us: u64,
}

/// Time for which a straight key must stay open before the key goes up.
pub const STRAIGHT_KEY_RELEASE_DEBOUNCE_MS: u32 = 20;

/// Number of key transitions that the engine keeps.
pub const MAX_RECORDED_TRANSITIONS: usize = 64;

/// The engine's state as mathematical values.
#[verifier::ext_equal]
pub struct EngineModel {
    pub config: KeyerConfig,
    pub state: KeyerState,
    pub dit_held: bool,
    pub dash_held: bool,
    /// A press of the paddle is still to be served.
    pub dit_memory: bool,
    pub dash_memory: bool,
    /// Paddle that was pressed last: `true` for the dash paddle.
    pub last_paddle: Option<bool>,
    /// Single-paddle mode has settled what the current element is.
    pub single_paddle_decided: bool,
    /// Deadline of the current phase.
    pub phase_end: int,
    /// Length of the element that was started last.
    pub element_duration: int,
    /// Time since the last key-up that counts towards the hang time.
    pub hang_counter: int,
    pub ptt_active: bool,
    pub key_active: bool,
    pub text_queue: Seq<MorseElement>,
    pub text_sending: bool,
    pub elapsed: int,
    pub transitions: Seq<KeyTransition>,
    /// Time for which a straight key has been open.
    pub release_grace: int,
    pub tick: int,
}

/// Iambic B and ultimatic remember the opposite paddle during an element.
pub open spec fn is_mode_b(mode: KeyerMode) -> bool {
    mode is IambicB || mode is Ultimatic
}

/// Longest time that a 32-bit duration can stand for.
pub open spec fn longest() -> int {
    u32::MAX as int
}

impl EngineModel {
    /// Invariant of the engine: the record of transitions is bounded, the key
    /// is only ever down while the transmitter is requested, and the deadline
    /// lies within reach of the engine time.
    pub open spec fn wf(self) -> bool {
        &&& 0 < self.tick <= longest()
        &&& 0 <= self.elapsed
        &&& 0 <= self.phase_end
        &&& 0 <= self.element_duration <= longest()
        &&& 0 <= self.hang_counter <= longest()
        &&& 0 <= self.release_grace <= longest()
        &&& self.transitions.len() <= MAX_RECORDED_TRANSITIONS
        &&& self.key_active ==> self.ptt_active
        &&& (self.state is SendDit || self.state is SendDash || self.state is StraightKey)
            ==> self.ptt_active
        &&& self.phase_end <= self.elapsed + match self.state {
            KeyerState::Idle | KeyerState::StraightKey => 0int,
            KeyerState::SendDit | KeyerState::SendDash | KeyerState::LetterSpace => longest(),
            KeyerState::DitDelay | KeyerState::DashDelay => 2 * longest(),
        }
    }

    /// The engine clock has room for one more tick and the deadlines it can set.
    pub open spec fn has_time(self) -> bool {
        self.elapsed + self.tick + 2 * longest() <= u64::MAX
    }

    /// A phase of length `duration` starts: from the last deadline if that is
    /// less than a tick ago or still to come, else from now.
    pub open spec fn scheduled(self, duration: int) -> EngineModel {
        let base = if self.phase_end + self.tick > self.elapsed {
            self.phase_end
        } else {
            self.elapsed
        };
        EngineModel { phase_end: base + duration, ..self }
    }

    /// The deadline has come.
    pub open spec fn expired(self) -> bool {
        self.elapsed >= self.phase_end
    }

    /// A press of the opposite paddle is still remembered: more of the element
    /// is left than its dead zone.
    pub open spec fn memory_window_open(self) -> bool {
        max_int(self.phase_end - self.elapsed, 0) > self.element_duration * min_int(
            self.config.iambic_b_timing_percent as int,
            100,
        ) / 100
    }

    /// The key line changes now.
    pub open spec fn recorded(self, key_down: bool) -> EngineModel {
        EngineModel {
            transitions: remembered(
                self.transitions,
                MAX_RECORDED_TRANSITIONS as nat,
                KeyTransition { key_down, timestamp_us: self.elapsed as u64 },
            ),
            ..self
        }
    }

    /// The key goes down.
    pub open spec fn key_down(self) -> (EngineModel, Option<KeyerOutput>) {
        (
            EngineModel { key_active: true, hang_counter: 0, ..self.recorded(true) },
            Some(KeyerOutput::KeyDown),
        )
    }

    /// The key goes up.
    pub open spec fn key_up(self) -> (EngineModel, Option<KeyerOutput>) {
        (
            EngineModel { key_active: false, ..self.recorded(false) },
            Some(KeyerOutput::KeyUp),
        )
    }

    /// The transmitter is requested first, and the key goes down once it is.
    pub open spec fn ptt_then_key(self) -> (EngineModel, Option<KeyerOutput>) {
        if self.ptt_active {
            self.key_down()
        } else {
            (EngineModel { ptt_active: true, ..self }, Some(KeyerOutput::PttRequest(true)))
        }
    }

    /// The phase of a new element.
    pub open spec fn started(self, is_dash: bool) -> EngineModel {
        let duration = self.config.element_us(is_dash);
        EngineModel {
            state: if is_dash {
                KeyerState::SendDash
            } else {
                KeyerState::SendDit
            },
            element_duration: duration,
            dit_memory: self.dit_memory && is_dash,
            dash_memory: self.dash_memory && !is_dash,
            ..self.scheduled(duration)
        }
    }

    /// A new element begins.
    pub open spec fn element_begun(self, is_dash: bool) -> (EngineModel, Option<KeyerOutput>) {
        self.started(is_dash).ptt_then_key()
    }

    /// A gap of the text.
    pub open spec fn gap_begun(self, duration: int) -> (EngineModel, Option<KeyerOutput>) {
        (EngineModel { state: KeyerState::DitDelay, ..self.scheduled(duration) }, None)
    }

    /// The next element of the text is taken up.
    pub open spec fn text_step(self) -> (EngineModel, Option<KeyerOutput>) {
        let rest = EngineModel {
            text_sending: true,
            single_paddle_decided: true,
            text_queue: self.text_queue.drop_first(),
            ..self
        };
        match self.text_queue[0] {
            MorseElement::Dit => rest.element_begun(false),
            MorseElement::Dash => rest.element_begun(true),
            MorseElement::ElementGap => rest.gap_begun(self.config.dot_us()),
            MorseElement::LetterGap => rest.gap_begun(3 * self.config.gap_unit_us()),
            MorseElement::WordGap => rest.gap_begun(7 * self.config.gap_unit_us()),
        }
    }

    /// An idle tick counts towards the hang time and ends the transmission once
    /// that has passed.
    pub open spec fn hang_step(self) -> (EngineModel, Option<KeyerOutput>) {
        if self.ptt_active && !self.key_active {
            let waited = EngineModel {
                hang_counter: min_int(self.hang_counter + self.tick, longest()),
                ..self
            };
            if waited.hang_counter >= self.config.hang_us() {
                (EngineModel { ptt_active: false, ..waited }, Some(KeyerOutput::PttRequest(false)))
            } else {
                (waited, None)
            }
        } else {
            (self, None)
        }
    }

    /// The text is dropped.
    pub open spec fn text_aborted(self) -> EngineModel {
        EngineModel { text_queue: Seq::empty(), text_sending: false, ..self }
    }

    /// A paddle that is touched during a text drops the text.
    pub open spec fn text_yields(self) -> EngineModel {
        if (self.dit_held || self.dash_held) && self.text_sending {
            self.text_aborted()
        } else {
            self
        }
    }

    /// Everything has been sent.
    pub open spec fn rested(self) -> EngineModel {
        EngineModel {
            state: KeyerState::Idle,
            hang_counter: 0,
            text_sending: false,
            last_paddle: None,
            single_paddle_decided: false,
            dit_memory: false,
            dash_memory: false,
            ..self
        }
    }

    /// An element has been sent out: the key goes up, and the gap behind it
    /// starts unless the text says what follows.
    pub open spec fn element_ended(self, delay: KeyerState) -> (EngineModel, Option<KeyerOutput>) {
        let next = if self.text_sending {
            EngineModel { state: KeyerState::Idle, ..self }
        } else {
            EngineModel { state: delay, ..self.scheduled(self.config.dot_us()) }
        };
        next.key_up()
    }

    /// A tick in straight-key mode.
    pub open spec fn straight_step(self) -> (EngineModel, Option<KeyerOutput>) {
        let any_held = self.dit_held || self.dash_held;
        match self.state {
            KeyerState::Idle => if any_held {
                EngineModel { state: KeyerState::StraightKey, release_grace: 0, ..self }.ptt_then_key()
            } else {
                self.hang_step()
            },
            KeyerState::StraightKey => if !self.key_active {
                self.key_down()
            } else if any_held {
                (EngineModel { release_grace: 0, ..self }, None)
            } else {
                let open = min_int(self.release_grace + self.tick, longest());
                if open >= STRAIGHT_KEY_RELEASE_DEBOUNCE_MS * 1000 {
                    EngineModel {
                        release_grace: 0,
                        state: KeyerState::Idle,
                        hang_counter: 0,
                        ..self
                    }.key_up()
                } else {
                    (EngineModel { release_grace: open, ..self }, None)
                }
            },
            _ => (self, None),
        }
    }

    /// A tick in bug mode: the dash paddle is a straight key, dits are automatic.
    pub open spec fn bug_step(self) -> (EngineModel, Option<KeyerOutput>) {
        if self.state is Idle && self.dash_held && !self.dit_held {
            EngineModel { state: KeyerState::StraightKey, ..self }.ptt_then_key()
        } else if self.state is StraightKey {
            if !self.key_active {
                self.key_down()
            } else if !self.dash_held {
                EngineModel { state: KeyerState::Idle, hang_counter: 0, ..self }.key_up()
            } else {
                (self, None)
            }
        } else {
            self.iambic_step(true)
        }
    }

    /// Element that ultimatic mode sends next: that of the paddle pressed last,
    /// as long as it is held or remembered.
    pub open spec fn ultimatic_choice(self) -> Option<bool> {
        let dit = self.dit_held || self.dit_memory;
        let dash = self.dash_held || self.dash_memory;
        if self.last_paddle == Some(true) && dash {
            Some(true)
        } else if self.last_paddle == Some(false) && dit {
            Some(false)
        } else if self.dit_held {
            Some(false)
        } else if self.dash_held {
            Some(true)
        } else {
            None
        }
    }

    /// Element that follows a gap: the opposite one of the last where it is
    /// wanted, else the same one where that is wanted.
    pub open spec fn next_element(self, after_dash: bool, bug_mode: bool) -> Option<bool> {
        let b = is_mode_b(self.config.mode);
        let dit = (b && self.dit_memory) || self.dit_held;
        let dash = ((b && self.dash_memory) || self.dash_held) && !bug_mode;
        if self.config.mode is Ultimatic {
            self.ultimatic_choice()
        } else if after_dash {
            if dit {
                Some(false)
            } else if dash {
                Some(true)
            } else {
                None
            }
        } else {
            if dash {
                Some(true)
            } else if dit {
                Some(false)
            } else {
                None
            }
        }
    }

    /// Nothing follows a gap.
    pub open spec fn delay_tail(self) -> EngineModel {
        let spacing = max_int(3 * self.config.gap_unit_us() - self.config.dot_us(), 0);
        if self.text_sending && self.text_queue.len() > 0 {
            EngineModel { state: KeyerState::Idle, ..self }
        } else if self.config.auto_spacing && spacing > 0 {
            EngineModel { state: KeyerState::LetterSpace, ..self.scheduled(spacing) }
        } else {
            self.rested()
        }
    }

    /// A gap is over.
    pub open spec fn gap_ended(self, after_dash: bool, bug_mode: bool) -> (
        EngineModel,
        Option<KeyerOutput>,
    ) {
        match self.next_element(after_dash, bug_mode) {
            Some(is_dash) => self.element_begun(is_dash),
            None => (self.delay_tail(), None),
        }
    }

    /// The letter space ends at its deadline or with the next press.
    pub open spec fn letter_space_step(self) -> EngineModel {
        if self.dit_held || self.dash_held {
            EngineModel { state: KeyerState::Idle, phase_end: self.elapsed, ..self }
        } else if self.expired() {
            EngineModel { state: KeyerState::Idle, ..self }
        } else {
            self
        }
    }

    /// The paddle opposite to the element that is going out is remembered.
    pub open spec fn opposite_remembered(self, is_dash: bool) -> EngineModel {
        let latch = !(self.config.mode is IambicB) || self.memory_window_open();
        if is_dash {
            EngineModel { dit_memory: self.dit_memory || (self.dit_held && latch), ..self }
        } else {
            EngineModel { dash_memory: self.dash_memory || (self.dash_held && latch), ..self }
        }
    }

    /// An idle tick of the iambic modes: paddles come first, then queued text.
    pub open spec fn iambic_idle_step(self, bug_mode: bool) -> (EngineModel, Option<KeyerOutput>) {
        if self.dit_held || self.dit_memory {
            self.element_begun(false)
        } else if (self.dash_held || self.dash_memory) && !bug_mode {
            self.element_begun(true)
        } else if !self.dit_held && !self.dash_held && self.text_queue.len() > 0 {
            self.text_step()
        } else {
            self.hang_step()
        }
    }

    /// State of the gap behind an element.
    pub open spec fn delay_state(is_dash: bool) -> KeyerState {
        if is_dash {
            KeyerState::DashDelay
        } else {
            KeyerState::DitDelay
        }
    }

    /// A tick during an element of the iambic modes.
    pub open spec fn iambic_element_step(self, is_dash: bool) -> (
        EngineModel,
        Option<KeyerOutput>,
    ) {
        if !self.key_active {
            self.key_down()
        } else {
            let m = self.opposite_remembered(is_dash);
            if m.expired() {
                m.element_ended(Self::delay_state(is_dash))
            } else {
                (m, None)
            }
        }
    }

    /// A tick during the gap behind an element of the iambic modes.
    pub open spec fn iambic_delay_step(self, after_dash: bool, bug_mode: bool) -> (
        EngineModel,
        Option<KeyerOutput>,
    ) {
        let m = self.text_yields();
        if m.expired() {
            m.gap_ended(after_dash, bug_mode)
        } else if after_dash {
            (EngineModel { dit_memory: m.dit_memory || m.dit_held, ..m }, None)
        } else {
            (EngineModel { dash_memory: m.dash_memory || m.dash_held, ..m }, None)
        }
    }

    /// A tick in the iambic and ultimatic modes, and of the automatic dits of
    /// bug mode.
    pub open spec fn iambic_step(self, bug_mode: bool) -> (EngineModel, Option<KeyerOutput>) {
        match self.state {
            KeyerState::Idle => self.iambic_idle_step(bug_mode),
            KeyerState::SendDit => self.iambic_element_step(false),
            KeyerState::SendDash => self.iambic_element_step(true),
            KeyerState::DitDelay => self.iambic_delay_step(false, bug_mode),
            KeyerState::DashDelay => self.iambic_delay_step(true, bug_mode),
            KeyerState::LetterSpace => (self.letter_space_step(), None),
            KeyerState::StraightKey => (EngineModel { state: KeyerState::Idle, ..self }, None),
        }
    }

    /// An undecided element of single-paddle mode: released early it is a dit,
    /// held to its deadline it goes on as a dash.
    pub open spec fn undecided_step(self) -> (EngineModel, Option<KeyerOutput>) {
        if !(self.dit_held || self.dash_held) {
            EngineModel {
                single_paddle_decided: true,
                state: KeyerState::DitDelay,
                ..self.scheduled(self.config.dot_us())
            }.key_up()
        } else if self.expired() {
            let rest = max_int(self.config.element_us(true) - self.config.element_us(false), 0);
            (
                EngineModel {
                    single_paddle_decided: true,
                    state: KeyerState::SendDash,
                    element_duration: self.config.element_us(true),
                    ..self.scheduled(rest)
                },
                None,
            )
        } else {
            (self, None)
        }
    }

    /// An idle tick of single-paddle mode.
    pub open spec fn single_idle_step(self) -> (EngineModel, Option<KeyerOutput>) {
        if self.dit_held || self.dash_held {
            EngineModel { single_paddle_decided: false, ..self }.element_begun(false)
        } else if self.text_queue.len() > 0 {
            self.text_step()
        } else {
            self.hang_step()
        }
    }

    /// A tick during an element of single-paddle mode.
    pub open spec fn single_element_step(self, is_dash: bool) -> (
        EngineModel,
        Option<KeyerOutput>,
    ) {
        if !self.key_active {
            self.key_down()
        } else if !is_dash && !self.single_paddle_decided {
            self.undecided_step()
        } else if self.expired() {
            self.element_ended(Self::delay_state(is_dash))
        } else {
            (self, None)
        }
    }

    /// A tick during a gap of single-paddle mode.
    pub open spec fn single_delay_step(self) -> (EngineModel, Option<KeyerOutput>) {
        let m = self.text_yields();
        if !m.expired() {
            (m, None)
        } else if m.dit_held || m.dash_held {
            EngineModel { single_paddle_decided: false, ..m }.element_begun(false)
        } else if m.text_sending && m.text_queue.len() > 0 {
            (EngineModel { state: KeyerState::Idle, ..m }, None)
        } else {
            (m.rested(), None)
        }
    }

    /// A tick in single-paddle mode.
    pub open spec fn single_paddle_step(self) -> (EngineModel, Option<KeyerOutput>) {
        match self.state {
            KeyerState::Idle => self.single_idle_step(),
            KeyerState::SendDit => self.single_element_step(false),
            KeyerState::SendDash => self.single_element_step(true),
            KeyerState::DitDelay | KeyerState::DashDelay => self.single_delay_step(),
            KeyerState::LetterSpace => (self.letter_space_step(), None),
            KeyerState::StraightKey => (EngineModel { state: KeyerState::Idle, ..self }, None),
        }
    }

    /// One tick.
    pub open spec fn ticked(self) -> (EngineModel, Option<KeyerOutput>) {
        let m = EngineModel { elapsed: self.elapsed + self.tick, ..self };
        match self.config.mode {
            KeyerMode::Straight => m.straight_step(),
            KeyerMode::Bug => m.bug_step(),
            KeyerMode::IambicA | KeyerMode::IambicB | KeyerMode::Ultimatic => m.iambic_step(false),
            KeyerMode::SinglePaddle => m.single_paddle_step(),
        }
    }

    /// The paddle contacts are read.
    pub open spec fn with_paddles(self, dit: bool, dash: bool) -> EngineModel {
        let d = if self.config.keys_reversed {
            dash
        } else {
            dit
        };
        let h = if self.config.keys_reversed {
            dit
        } else {
            dash
        };
        let new_dit = d && !self.dit_held;
        let new_dash = h && !self.dash_held;
        let in_element = self.state is SendDit || self.state is SendDash;
        let latch = !self.text_sending && (!in_element || !(self.config.mode is IambicB)
            || self.memory_window_open());
        EngineModel {
            dit_memory: self.dit_memory || (new_dit && latch),
            dash_memory: self.dash_memory || (new_dash && latch),
            last_paddle: if new_dash {
                Some(true)
            } else if new_dit {
                Some(false)
            } else {
                self.last_paddle
            },
            dit_held: d,
            dash_held: h,
            ..self
        }.text_yields()
    }

    /// An engine that has just been made.
    pub open spec fn fresh(config: KeyerConfig, tick: int) -> EngineModel {
        EngineModel {
            config,
            state: KeyerState::Idle,
            dit_held: false,
            dash_held: false,
            dit_memory: false,
            dash_memory: false,
            last_paddle: None,
            single_paddle_decided: false,
            phase_end: 0,
            element_duration: 0,
            hang_counter: 0,
            ptt_active: false,
            key_active: false,
            text_queue: Seq::empty(),
            text_sending: false,
            elapsed: 0,
            transitions: Seq::empty(),
            release_grace: 0,
            tick,
        }
    }
}

/// The keyer engine.
pub struct KeyerEngine {
    pub config: KeyerConfig,
    state: KeyerState,
    dit_held: bool,
    dash_held: bool,
    dit_memory: bool,
    dash_memory: bool,
    last_paddle: Option<bool>,
    single_paddle_decided: bool,
    phase_end_us: u64,
    element_duration_us: u32,
    hang_counter_us: u32,
    ptt_active: bool,
    key_active: bool,
    pub text_queue: VecDeque<MorseElement>,
    text_sending: bool,
    elapsed_us: u64,
    transitions: heapless::Deque<KeyTransition, 64>,
    straight_release_grace_us: u32,
    tick_us: u32,
}

impl View for KeyerEngine {
    type V = EngineModel;

    closed spec fn view(&self) -> EngineModel {
        EngineModel {
            config: self.config,
            state: self.state,
            dit_held: self.dit_held,
            dash_held: self.dash_held,
            dit_memory: self.dit_memory,
            dash_memory: self.dash_memory,
            last_paddle: self.last_paddle,
            single_paddle_decided: self.single_paddle_decided,
            phase_end: self.phase_end_us as int,
            element_duration: self.element_duration_us as int,
            hang_counter: self.hang_counter_us as int,
            ptt_active: self.ptt_active,
            key_active: self.key_active,
            text_queue: self.text_queue@,
            text_sending: self.text_sending,
            elapsed: self.elapsed_us as int,
            transitions: transition_contents(self.transitions),
            release_grace: self.straight_release_grace_us as int,
            tick: self.tick_us as int,
        }
    }
}

impl KeyerEngine {
    /// An engine with the default tick of one millisecond.
    pub fn new(config: KeyerConfig) -> (e: Self)
        ensures
            e@ == EngineModel::fresh(config, 1000),
            e@.wf(),
    {
        Self::new_with_tick(config, 1000)
    }

    /// An engine whose ticks stand for `tick_us` each.
    pub fn new_with_tick(config: KeyerConfig, tick_us: u32) -> (e: Self)
        requires
            tick_us > 0,
        ensures
            e@ == EngineModel::fresh(config, tick_us as int),
            e@.wf(),
    {
        KeyerEngine {
            config,
            state: KeyerState::Idle,
            dit_held: false,
            dash_held: false,
            dit_memory: false,
            dash_memory: false,
            last_paddle: None,
            single_paddle_decided: false,
            phase_end_us: 0,
            element_duration_us: 0,
            hang_counter_us: 0,
            ptt_active: false,
            key_active: false,
            text_queue: VecDeque::new(),
            text_sending: false,
            elapsed_us: 0,
            transitions: transitions_new(),
            straight_release_grace_us: 0,
            tick_us,
        }
    }

    /// Replaces the configuration; what is going on goes on with it.
    pub fn update_config(&mut self, config: KeyerConfig)
        ensures
            final(self)@ == (EngineModel { config, ..old(self)@ }),
    {
        self.config = config;
    }

    /// Takes in the state of the paddle contacts.
    pub fn set_paddle(&mut self, dit: bool, dash: bool)
        requires
            old(self)@.wf(),
        ensures
            final(self)@ == old(self)@.with_paddles(dit, dash),
            final(self)@.wf(),
    {
        let d: bool = if self.config.keys_reversed {
            dash
        } else {
            dit
        };
        let h: bool = if self.config.keys_reversed {
            dit
        } else {
            dash
        };
        let in_element: bool = self.state == KeyerState::SendDit || self.state
            == KeyerState::SendDash;
        let gated: bool = self.config.mode == KeyerMode::IambicB;
        let gate_open: bool = !in_element || !gated || self.in_memory_window();
        if !self.text_sending && gate_open {
            if d && !self.dit_held {
                self.dit_memory = true;
            }
            if h && !self.dash_held {
                self.dash_memory = true;
            }
        }
        if d && !self.dit_held {
            self.last_paddle = Some(false);
        }
        if h && !self.dash_held {
            self.last_paddle = Some(true);
        }
        self.dit_held = d;
        self.dash_held = h;
        if (d || h) && self.text_sending {
            self.abort_text();
        }
    }

    /// Queues a text behind what is queued already.
    pub fn send_text(&mut self, text: &str)
        ensures
            final(self)@ == (EngineModel {
                text_queue: old(self)@.text_queue + text_elements(text@),
                text_sending: true,
                ..old(self)@
            }),
    {
        let elements: Vec<MorseElement> = text_to_elements(text);
        let ghost before = *self;
        let mut i: usize = 0;
        while i < elements.len()
            invariant
                i <= elements.len(),
                self@ == (EngineModel {
                    text_queue: before@.text_queue + elements@.take(i as int),
                    ..before@
                }),
            decreases elements.len() - i,
        {
            self.text_queue.push_back(elements[i]);
            i = i + 1;
            assert(self@.text_queue =~= before@.text_queue + elements@.take(i as int));
        }
        assert(elements@.take(elements@.len() as int) == elements@);
        self.text_sending = true;
    }

    /// Drops the queued text.
    pub fn abort_text(&mut self)
        ensures
            final(self)@ == old(self)@.text_aborted(),
    {
        self.text_queue.clear();
        self.text_sending = false;
    }

    /// Hands out the recorded key transitions, oldest first, and forgets them.
    pub fn drain_transitions(&mut self) -> (out: Vec<KeyTransition>)
        ensures
            out@ == old(self)@.transitions,
            final(self)@ == (EngineModel { transitions: Seq::empty(), ..old(self)@ }),
    {
        let ghost before = *self;
        let n: usize = transitions_len(&self.transitions);
        let mut out: Vec<KeyTransition> = Vec::with_capacity(n);
        loop
            invariant
                self@ == (EngineModel { transitions: self@.transitions, ..before@ }),
                out@ + self@.transitions == before@.transitions,
            ensures
                self@.transitions.len() == 0,
                self@ == (EngineModel { transitions: self@.transitions, ..before@ }),
                out@ + self@.transitions == before@.transitions,
            decreases self@.transitions.len(),
        {
            match transitions_pop_front(&mut self.transitions) {
                Some(t) => {
                    out.push(t);
                    assert(out@ + self@.transitions =~= before@.transitions);
                },
                None => {
                    break;
                },
            }
        }
        out
    }

    /// Whether the engine is doing anything.
    pub fn is_active(&self) -> (r: bool)
        ensures
            r == (!(self@.state is Idle) || self@.ptt_active || self@.text_queue.len() > 0),
    {
        self.state != KeyerState::Idle || self.ptt_active || self.text_queue.len() != 0
    }

    /// Phase that the engine is in.
    pub fn state(&self) -> (s: KeyerState)
        ensures
            s == self@.state,
    {
        self.state
    }

    /// Paddle that was pressed last: `true` for the dash paddle.
    pub fn last_paddle(&self) -> (p: Option<bool>)
        ensures
            p == self@.last_paddle,
    {
        self.last_paddle
    }

    /// Engine time.
    pub fn elapsed_us(&self) -> (t: u64)
        ensures
            t == self@.elapsed,
    {
        self.elapsed_us
    }

    /// Span of one tick.
    pub fn tick_us(&self) -> (t: u32)
        ensures
            t == self@.tick,
    {
        self.tick_us
    }

    fn record_transition(&mut self, key_down: bool)
        requires
            old(self)@.transitions.len() <= MAX_RECORDED_TRANSITIONS,
        ensures
            final(self)@ == old(self)@.recorded(key_down),
    {
        if transitions_is_full(&self.transitions) {
            let _ = transitions_pop_front(&mut self.transitions);
        }
        let t: KeyTransition = KeyTransition { key_down, timestamp_us: self.elapsed_us };
        let _ = transitions_push_back(&mut self.transitions, t);
    }

    fn emit_key_down(&mut self) -> (out: Option<KeyerOutput>)
        requires
            old(self)@.transitions.len() <= MAX_RECORDED_TRANSITIONS,
        ensures
            (final(self)@, out) == old(self)@.key_down(),
    {
        self.key_active = true;
        self.hang_counter_us = 0;
        self.record_transition(true);
        Some(KeyerOutput::KeyDown)
    }

    fn emit_key_up(&mut self) -> (out: Option<KeyerOutput>)
        requires
            old(self)@.transitions.len() <= MAX_RECORDED_TRANSITIONS,
        ensures
            (final(self)@, out) == old(self)@.key_up(),
    {
        self.key_active = false;
        self.record_transition(false);
        Some(KeyerOutput::KeyUp)
    }

    fn emit_ptt_then_key(&mut self) -> (out: Option<KeyerOutput>)
        requires
            old(self)@.transitions.len() <= MAX_RECORDED_TRANSITIONS,
        ensures
            (final(self)@, out) == old(self)@.ptt_then_key(),
    {
        if self.ptt_active {
            self.emit_key_down()
        } else {
            self.ptt_active = true;
            Some(KeyerOutput::PttRequest(true))
        }
    }

    fn schedule_phase(&mut self, duration_us: u32)
        requires
            old(self)@.phase_end <= old(self)@.elapsed + longest(),
            old(self)@.elapsed + 2 * longest() <= u64::MAX,
        ensures
            final(self)@ == old(self)@.scheduled(duration_us as int),
    {
        let base: u64 = if self.phase_end_us + self.tick_us as u64 > self.elapsed_us {
            self.phase_end_us
        } else {
            self.elapsed_us
        };
        self.phase_end_us = base + duration_us as u64;
    }

    fn phase_expired(&self) -> (r: bool)
        ensures
            r == self@.expired(),
    {
        self.elapsed_us >= self.phase_end_us
    }

    fn in_memory_window(&self) -> (r: bool)
        ensures
            r == self@.memory_window_open(),
    {
        let pct: u64 = if self.config.iambic_b_timing_percent > 100 {
            100
        } else {
            self.config.iambic_b_timing_percent as u64
        };
        assert(self.element_duration_us * pct <= u32::MAX * 100) by (nonlinear_arith)
            requires
                self.element_duration_us <= u32::MAX,
                pct <= 100,
        ;
        let threshold: u64 = self.element_duration_us as u64 * pct / 100;
        let remaining: u64 = self.phase_end_us.saturating_sub(self.elapsed_us);
        remaining > threshold
    }

    fn start_element_keyed(&mut self, is_dash: bool) -> (out: Option<KeyerOutput>)
        requires
            old(self)@.wf(),
            old(self)@.phase_end <= old(self)@.elapsed,
            old(self)@.elapsed + 2 * longest() <= u64::MAX,
        ensures
            (final(self)@, out) == old(self)@.element_begun(is_dash),
            final(self)@.wf(),
    {
        let duration: u32 = if is_dash {
            self.config.effective_dash_duration_us()
        } else {
            self.config.effective_dot_duration_us()
        };
        self.state = if is_dash {
            KeyerState::SendDash
        } else {
            KeyerState::SendDit
        };
        self.schedule_phase(duration);
        self.element_duration_us = duration;
        if is_dash {
            self.dash_memory = false;
        } else {
            self.dit_memory = false;
        }
        self.emit_ptt_then_key()
    }

    fn dispatch_text_element(&mut self) -> (out: Option<KeyerOutput>)
        requires
            old(self)@.wf(),
            old(self)@.text_queue.len() > 0,
            old(self)@.phase_end <= old(self)@.elapsed,
            old(self)@.elapsed + 2 * longest() <= u64::MAX,
        ensures
            (final(self)@, out) == old(self)@.text_step(),
            final(self)@.wf(),
    {
        self.text_sending = true;
        self.single_paddle_decided = true;
        let element: Option<MorseElement> = self.text_queue.pop_front();
        match element {
            Some(MorseElement::Dit) => self.start_element_keyed(false),
            Some(MorseElement::Dash) => self.start_element_keyed(true),
            Some(MorseElement::ElementGap) => {
                let gap: u32 = self.config.element_gap_us();
                self.schedule_phase(gap);
                self.state = KeyerState::DitDelay;
                None
            },
            Some(MorseElement::LetterGap) => {
                let gap: u32 = self.config.letter_gap_us();
                self.schedule_phase(gap);
                self.state = KeyerState::DitDelay;
                None
            },
            Some(MorseElement::WordGap) => {
                let gap: u32 = self.config.word_gap_us();
                self.schedule_phase(gap);
                self.state = KeyerState::DitDelay;
                None
            },
            None => None,
        }
    }

    fn handle_hang_time(&mut self) -> (out: Option<KeyerOutput>)
        requires
            old(self)@.wf(),
            old(self)@.state is Idle,
        ensures
            (final(self)@, out) == old(self)@.hang_step(),
            final(self)@.wf(),
    {
        if self.ptt_active && !self.key_active {
            self.hang_counter_us = self.hang_counter_us.saturating_add(self.tick_us);
            let hang: u64 = self.config.hang_time_ms as u64 * 1000;
            let limit: u64 = if hang > u32::MAX as u64 {
                u32::MAX as u64
            } else {
                hang
            };
            if self.hang_counter_us as u64 >= limit {
                self.ptt_active = false;
                return Some(KeyerOutput::PttRequest(false));
            }
        }
        None
    }

    fn enter_idle_from_delay(&mut self)
        ensures
            final(self)@ == old(self)@.rested(),
    {
        self.state = KeyerState::Idle;
        self.hang_counter_us = 0;
        self.text_sending = false;
        self.last_paddle = None;
        self.single_paddle_decided = false;
        self.dit_memory = false;
        self.dash_memory = false;
    }

    fn end_element(&mut self, is_dash: bool) -> (out: Option<KeyerOutput>)
        requires
            old(self)@.wf(),
            old(self)@.expired(),
            old(self)@.elapsed + 2 * longest() <= u64::MAX,
        ensures
            (final(self)@, out) == old(self)@.element_ended(EngineModel::delay_state(is_dash)),
            final(self)@.wf(),
    {
        if self.text_sending {
            self.state = KeyerState::Idle;
        } else {
            self.state = if is_dash {
                KeyerState::DashDelay
            } else {
                KeyerState::DitDelay
            };
            let gap: u32 = self.config.element_gap_us();
            self.schedule_phase(gap);
        }
        self.emit_key_up()
    }

    /// Lets one tick of time pass and returns what it asks of the transmitter.
    pub fn tick(&mut self) -> (out: Option<KeyerOutput>)
        requires
            old(self)@.wf(),
            old(self)@.has_time(),
        ensures
            (final(self)@, out) == old(self)@.ticked(),
            final(self)@.wf(),
    {
        self.elapsed_us = self.elapsed_us + self.tick_us as u64;
        match self.config.mode {
            KeyerMode::Straight => self.tick_straight(),
            KeyerMode::Bug => self.tick_bug(),
            KeyerMode::IambicA | KeyerMode::IambicB | KeyerMode::Ultimatic => self.tick_iambic_inner(
                false,
            ),
            KeyerMode::SinglePaddle => self.tick_single_paddle(),
        }
    }

    fn tick_straight(&mut self) -> (out: Option<KeyerOutput>)
        requires
            old(self)@.wf(),
            old(self)@.elapsed + 2 * longest() <= u64::MAX,
        ensures
            (final(self)@, out) == old(self)@.straight_step(),
            final(self)@.wf(),
    {
        let any_held: bool = self.dit_held || self.dash_held;
        match self.state {
            KeyerState::Idle => {
                if any_held {
                    self.state = KeyerState::StraightKey;
                    self.straight_release_grace_us = 0;
                    self.emit_ptt_then_key()
                } else {
                    self.handle_hang_time()
                }
            },
            KeyerState::StraightKey => {
                if !self.key_active {
                    return self.emit_key_down();
                }
                if any_held {
                    self.straight_release_grace_us = 0;
                    return None;
                }
                self.straight_release_grace_us = self.straight_release_grace_us.saturating_add(
                    self.tick_us,
                );
                if self.straight_release_grace_us >= STRAIGHT_KEY_RELEASE_DEBOUNCE_MS * 1000 {
                    self.straight_release_grace_us = 0;
                    self.state = KeyerState::Idle;
                    self.hang_counter_us = 0;
                    return self.emit_key_up();
                }
                None
            },
            _ => None,
        }
    }

    fn tick_bug(&mut self) -> (out: Option<KeyerOutput>)
        requires
            old(self)@.wf(),
            old(self)@.elapsed + 2 * longest() <= u64::MAX,
        ensures
            (final(self)@, out) == old(self)@.bug_step(),
            final(self)@.wf(),
    {
        if self.dash_held && !self.dit_held && self.state == KeyerState::Idle {
            self.state = KeyerState::StraightKey;
            return self.emit_ptt_then_key();
        }
        if self.state == KeyerState::StraightKey {
            if !self.key_active {
                return self.emit_key_down();
            }
            if !self.dash_held {
                self.state = KeyerState::Idle;
                self.hang_counter_us = 0;
                return self.emit_key_up();
            }
            return None;
        }
        self.tick_iambic_inner(true)
    }

    fn step_letter_space(&mut self)
        requires
            old(self)@.wf(),
            old(self)@.state is LetterSpace,
        ensures
            final(self)@ == old(self)@.letter_space_step(),
            final(self)@.wf(),
    {
        if self.dit_held || self.dash_held {
            self.state = KeyerState::Idle;
            self.phase_end_us = self.elapsed_us;
        } else if self.phase_expired() {
            self.state = KeyerState::Idle;
        }
    }

    fn tick_single_idle(&mut self) -> (out: Option<KeyerOutput>)
        requires
            old(self)@.wf(),
            old(self)@.elapsed + 2 * longest() <= u64::MAX,
            old(self)@.state is Idle,
        ensures
            (final(self)@, out) == old(self)@.single_idle_step(),
            final(self)@.wf(),
    {
        if self.dit_held || self.dash_held {
            self.single_paddle_decided = false;
            return self.start_element_keyed(false);
        }
        if self.text_queue.len() != 0 {
            return self.dispatch_text_element();
        }
        self.handle_hang_time()
    }

    fn tick_undecided(&mut self) -> (out: Option<KeyerOutput>)
        requires
            old(self)@.wf(),
            old(self)@.elapsed + 2 * longest() <= u64::MAX,
            old(self)@.state is SendDit,
        ensures
            (final(self)@, out) == old(self)@.undecided_step(),
            final(self)@.wf(),
    {
        if !(self.dit_held || self.dash_held) {
            self.single_paddle_decided = true;
            let gap: u32 = self.config.element_gap_us();
            self.schedule_phase(gap);
            self.state = KeyerState::DitDelay;
            return self.emit_key_up();
        }
        if self.phase_expired() {
            self.single_paddle_decided = true;
            let dash: u32 = self.config.effective_dash_duration_us();
            let dot: u32 = self.config.effective_dot_duration_us();
            self.state = KeyerState::SendDash;
            self.schedule_phase(dash.saturating_sub(dot));
            self.element_duration_us = dash;
        }
        None
    }

    fn tick_single_element(&mut self, is_dash: bool) -> (out: Option<KeyerOutput>)
        requires
            old(self)@.wf(),
            old(self)@.elapsed + 2 * longest() <= u64::MAX,
            is_dash ==> old(self)@.state is SendDash,
            !is_dash ==> old(self)@.state is SendDit,
        ensures
            (final(self)@, out) == old(self)@.single_element_step(is_dash),
            final(self)@.wf(),
    {
        if !self.key_active {
            return self.emit_key_down();
        }
        if !is_dash && !self.single_paddle_decided {
            return self.tick_undecided();
        }
        if self.phase_expired() {
            return self.end_element(is_dash);
        }
        None
    }

    fn tick_single_delay(&mut self) -> (out: Option<KeyerOutput>)
        requires
            old(self)@.wf(),
            old(self)@.elapsed + 2 * longest() <= u64::MAX,
            old(self)@.state is DitDelay || old(self)@.state is DashDelay,
        ensures
            (final(self)@, out) == old(self)@.single_delay_step(),
            final(self)@.wf(),
    {
        let any_held: bool = self.dit_held || self.dash_held;
        if any_held && self.text_sending {
            self.abort_text();
        }
        if self.phase_expired() {
            if any_held {
                self.single_paddle_decided = false;
                return self.start_element_keyed(false);
            }
            if self.text_sending && self.text_queue.len() != 0 {
                self.state = KeyerState::Idle;
                return None;
            }
            self.enter_idle_from_delay();
        }
        None
    }

    fn tick_single_paddle(&mut self) -> (out: Option<KeyerOutput>)
        requires
            old(self)@.wf(),
            old(self)@.elapsed + 2 * longest() <= u64::MAX,
        ensures
            (final(self)@, out) == old(self)@.single_paddle_step(),
            final(self)@.wf(),
    {
        match self.state {
            KeyerState::Idle => self.tick_single_idle(),
            KeyerState::SendDit => self.tick_single_element(false),
            KeyerState::SendDash => self.tick_single_element(true),
            KeyerState::DitDelay | KeyerState::DashDelay => self.tick_single_delay(),
            KeyerState::LetterSpace => {
                self.step_letter_space();
                None
            },
            KeyerState::StraightKey => {
                self.state = KeyerState::Idle;
                None
            },
        }
    }

    fn remember_opposite(&mut self, is_dash: bool)
        ensures
            final(self)@ == old(self)@.opposite_remembered(is_dash),
    {
        let gated: bool = self.config.mode == KeyerMode::IambicB;
        let held: bool = if is_dash {
            self.dit_held
        } else {
            self.dash_held
        };
        if held && (!gated || self.in_memory_window()) {
            if is_dash {
                self.dit_memory = true;
            } else {
                self.dash_memory = true;
            }
        }
    }

    fn tick_iambic_idle(&mut self, bug_mode: bool) -> (out: Option<KeyerOutput>)
        requires
            old(self)@.wf(),
            old(self)@.elapsed + 2 * longest() <= u64::MAX,
            old(self)@.state is Idle,
        ensures
            (final(self)@, out) == old(self)@.iambic_idle_step(bug_mode),
            final(self)@.wf(),
    {
        if self.dit_held || self.dit_memory {
            return self.start_element_keyed(false);
        }
        if (self.dash_held || self.dash_memory) && !bug_mode {
            return self.start_element_keyed(true);
        }
        if !self.dit_held && !self.dash_held && self.text_queue.len() != 0 {
            return self.dispatch_text_element();
        }
        self.handle_hang_time()
    }

    fn tick_iambic_element(&mut self, is_dash: bool) -> (out: Option<KeyerOutput>)
        requires
            old(self)@.wf(),
            old(self)@.elapsed + 2 * longest() <= u64::MAX,
            is_dash ==> old(self)@.state is SendDash,
            !is_dash ==> old(self)@.state is SendDit,
        ensures
            (final(self)@, out) == old(self)@.iambic_element_step(is_dash),
            final(self)@.wf(),
    {
        if !self.key_active {
            return self.emit_key_down();
        }
        self.remember_opposite(is_dash);
        if self.phase_expired() {
            return self.end_element(is_dash);
        }
        None
    }

    fn tick_iambic_delay(&mut self, after_dash: bool, bug_mode: bool) -> (out: Option<KeyerOutput>)
        requires
            old(self)@.wf(),
            old(self)@.elapsed + 2 * longest() <= u64::MAX,
            old(self)@.state is DitDelay || old(self)@.state is DashDelay,
        ensures
            (final(self)@, out) == old(self)@.iambic_delay_step(after_dash, bug_mode),
            final(self)@.wf(),
    {
        if (self.dit_held || self.dash_held) && self.text_sending {
            self.abort_text();
        }
        if self.phase_expired() {
            return self.resolve_after_delay(after_dash, bug_mode);
        }
        if after_dash {
            if self.dit_held {
                self.dit_memory = true;
            }
        } else {
            if self.dash_held {
                self.dash_memory = true;
            }
        }
        None
    }

    fn tick_iambic_inner(&mut self, bug_mode: bool) -> (out: Option<KeyerOutput>)
        requires
            old(self)@.wf(),
            old(self)@.elapsed + 2 * longest() <= u64::MAX,
        ensures
            (final(self)@, out) == old(self)@.iambic_step(bug_mode),
            final(self)@.wf(),
    {
        match self.state {
            KeyerState::Idle => self.tick_iambic_idle(bug_mode),
            KeyerState::SendDit => self.tick_iambic_element(false),
            KeyerState::SendDash => self.tick_iambic_element(true),
            KeyerState::DitDelay => self.tick_iambic_delay(false, bug_mode),
            KeyerState::DashDelay => self.tick_iambic_delay(true, bug_mode),
            KeyerState::LetterSpace => {
                self.step_letter_space();
                None
            },
            KeyerState::StraightKey => {
                self.state = KeyerState::Idle;
                None
            },
        }
    }

    fn resolve_ultimatic(&self) -> (choice: Option<bool>)
        ensures
            choice == self@.ultimatic_choice(),
    {
        let dit_active: bool = self.dit_held || self.dit_memory;
        let dash_active: bool = self.dash_held || self.dash_memory;
        match self.last_paddle {
            Some(true) if dash_active => Some(true),
            Some(false) if dit_active => Some(false),
            _ => if self.dit_held {
                Some(false)
            } else if self.dash_held {
                Some(true)
            } else {
                None
            },
        }
    }

    fn resolve_next(&self, after_dash: bool, bug_mode: bool) -> (choice: Option<bool>)
        ensures
            choice == self@.next_element(after_dash, bug_mode),
    {
        if self.config.mode == KeyerMode::Ultimatic {
            return self.resolve_ultimatic();
        }
        let mode_b: bool = self.config.mode == KeyerMode::IambicB;
        let dit: bool = (mode_b && self.dit_memory) || self.dit_held;
        let dash: bool = ((mode_b && self.dash_memory) || self.dash_held) && !bug_mode;
        if after_dash && dit {
            Some(false)
        } else if dash {
            Some(true)
        } else if dit {
            Some(false)
        } else {
            None
        }
    }

    fn resolve_delay_tail(&mut self)
        requires
            old(self)@.wf(),
            old(self)@.expired(),
            old(self)@.elapsed + 2 * longest() <= u64::MAX,
        ensures
            final(self)@ == old(self)@.delay_tail(),
            final(self)@.wf(),
    {
        if self.text_sending && self.text_queue.len() != 0 {
            self.state = KeyerState::Idle;
            return;
        }
        if self.config.auto_spacing {
            let letter_gap: u32 = self.config.letter_gap_us();
            let remaining: u32 = letter_gap.saturating_sub(self.config.element_gap_us());
            if remaining > 0 {
                self.state = KeyerState::LetterSpace;
                self.schedule_phase(remaining);
                return;
            }
        }
        self.enter_idle_from_delay();
    }

    fn resolve_after_delay(&mut self, after_dash: bool, bug_mode: bool) -> (out: Option<
        KeyerOutput,
    >)
        requires
            old(self)@.wf(),
            old(self)@.expired(),
            old(self)@.elapsed + 2 * longest() <= u64::MAX,
        ensures
            (final(self)@, out) == old(self)@.gap_ended(after_dash, bug_mode),
            final(self)@.wf(),
    {
        match self.resolve_next(after_dash, bug_mode) {
            Some(is_dash) => self.start_element_keyed(is_dash),
            None => {
                self.resolve_delay_tail();
                None
            },
        }
    }
}

} // verus!
