//! Paddle contacts and the devices that they are read from.

use crate::clock;
use crate::keyer::config::SerialPin;
use core::time::Duration;
use vstd::prelude::*;
use vstd::string::StringExecFns;
use web_time::Instant;

verus! {

/// A change of a paddle contact.
#[derive(Debug, Clone, Copy, PartialEq, Eq, Structural)]
pub enum PaddleEvent {
    DitDown,
    DitUp,
    DashDown,
    DashUp,
}

/// The paddle contacts and the time at which they were last read.
#[derive(Debug, Clone, Copy, PartialEq, Eq)]
pub struct PaddleState {
    pub dit: bool,
    pub dash: bool,
    pub timestamp: Instant,
}

/// A source of paddle contacts.
pub trait PaddleInput: Send + 'static {
    /// Waits for a change, at most for `timeout`, and returns the contacts.
    fn wait_for_change(&mut self, timeout: Option<Duration>) -> PaddleState;

    /// The contacts as they were read last.
    fn read(&self) -> PaddleState;

    /// A description of the source.
    fn describe(&self) -> String;
}

impl Default for PaddleState {
    fn default() -> (s: Self)
        ensures
            !s.dit,
            !s.dash,
    {
        PaddleState { dit: false, dash: false, timestamp: clock::now() }
    }
}

impl PaddleState {
    /// The contacts differ.
    pub open spec fn differs(self, other: PaddleState) -> bool {
        self.dit != other.dit || self.dash != other.dash
    }

    /// Takes in an event that happens now. The time stamp is a reading of the
    /// clock.
    pub fn apply(&mut self, event: PaddleEvent)
        ensures
            final(self).dit == (event is DitDown || (old(self).dit && !(event is DitUp))),
            final(self).dash == (event is DashDown || (old(self).dash && !(event is DashUp))),
    {
        let now: Instant = clock::now();
        self.apply_at(event, now);
    }

    /// Takes in an event that happens at `now`.
    pub fn apply_at(&mut self, event: PaddleEvent, now: Instant)
        ensures
            final(self).dit == (event is DitDown || (old(self).dit && !(event is DitUp))),
            final(self).dash == (event is DashDown || (old(self).dash && !(event is DashUp))),
            final(self).timestamp == now,
    {
        match event {
            PaddleEvent::DitDown => {
                self.dit = true;
            },
            PaddleEvent::DitUp => {
                self.dit = false;
            },
            PaddleEvent::DashDown => {
                self.dash = true;
            },
            PaddleEvent::DashUp => {
                self.dash = false;
            },
        }
        self.timestamp = now;
    }

    /// Whether the contacts differ from those of `other`.
    pub fn changed_from(&self, other: &PaddleState) -> (r: bool)
        ensures
            r == self.differs(*other),
    {
        self.dit != other.dit || self.dash != other.dash
    }
}

/// What several sources share: the contacts of the source that changed last and
/// the number of changes.
pub struct MergedState {
    pub paddle: PaddleState,
    pub generation: u64,
}

impl MergedState {
    /// Nothing has changed yet.
    pub fn new() -> (s: Self)
        ensures
            !s.paddle.dit,
            !s.paddle.dash,
            s.generation == 0,
    {
        let paddle: PaddleState = PaddleState::default();
        MergedState { paddle, generation: 0 }
    }

    /// A source whose contacts were `prev` reads `state`: a change replaces the
    /// shared contacts and counts. Returns whether there was one.
    pub fn publish(&mut self, prev: &PaddleState, state: PaddleState) -> (changed: bool)
        requires
            old(self).generation < u64::MAX,
        ensures
            changed == state.differs(*prev),
            changed ==> final(self).paddle == state && final(self).generation == old(
                self,
            ).generation + 1,
            !changed ==> *final(self) == *old(self),
    {
        if state.changed_from(prev) {
            self.paddle = state;
            self.generation = self.generation + 1;
            true
        } else {
            false
        }
    }

    /// The shared contacts, if they have changed since generation `seen`.
    pub fn news_since(&self, seen: u64) -> (r: Option<PaddleState>)
        ensures
            r == if self.generation != seen {
                Some(self.paddle)
            } else {
                None
            },
    {
        if self.generation != seen {
            Some(self.paddle)
        } else {
            None
        }
    }
}

/// A wait for serial contacts is over with a change or at its deadline.
pub fn serial_wait_is_over(old_state: &PaddleState, current: &PaddleState, timed_out: bool) -> (r:
    bool)
    ensures
        r == (timed_out || current.differs(*old_state)),
{
    timed_out || current.changed_from(old_state)
}

/// Name of a serial line.
pub open spec fn pin_name(pin: SerialPin) -> &'static str {
    match pin {
        SerialPin::CTS => "CTS",
        SerialPin::DSR => "DSR",
        SerialPin::DCD => "DCD",
        SerialPin::RI => "RI",
    }
}

fn name_of_pin(pin: SerialPin) -> (s: &'static str)
    ensures
        s == pin_name(pin),
{
    match pin {
        SerialPin::CTS => "CTS",
        SerialPin::DSR => "DSR",
        SerialPin::DCD => "DCD",
        SerialPin::RI => "RI",
    }
}

/// Description of a serial paddle.
pub fn format_serial_description(port: &str, dit: SerialPin, dash: SerialPin) -> (s: String)
    ensures
        s@ == "Serial paddle on "@ + port@ + " (dit="@ + pin_name(dit)@ + ", dash="@ + pin_name(
            dash,
        )@ + ")"@,
{
    let mut s: String = String::new();
    s.append("Serial paddle on ");
    s.append(port);
    s.append(" (dit=");
    s.append(name_of_pin(dit));
    s.append(", dash=");
    s.append(name_of_pin(dash));
    s.append(")");
    s
}

/// Description of a paddle on a USB serial adapter.
pub fn format_usb_serial_description(port: &str, dit: SerialPin, dash: SerialPin) -> (s: String)
    ensures
        s@ == "USB-serial paddle on "@ + port@ + " (dit="@ + pin_name(dit)@ + ", dash="@ + pin_name(
            dash,
        )@ + ")"@,
{
    let mut s: String = String::new();
    s.append("USB-serial paddle on ");
    s.append(port);
    s.append(" (dit=");
    s.append(name_of_pin(dit));
    s.append(", dash=");
    s.append(name_of_pin(dash));
    s.append(")");
    s
}

/// Bit of a serial line in a modem status word.
pub fn pin_mask(pin: SerialPin) -> (mask: i32)
    ensures
        mask == pin_bit(pin),
{
    match pin {
        SerialPin::CTS => 1,
        SerialPin::DSR => 2,
        SerialPin::DCD => 4,
        SerialPin::RI => 8,
    }
}

/// Bit of a serial line in a modem status word.
pub open spec fn pin_bit(pin: SerialPin) -> i32 {
    match pin {
        SerialPin::CTS => 1,
        SerialPin::DSR => 2,
        SerialPin::DCD => 4,
        SerialPin::RI => 8,
    }
}

/// Level of a serial line among the levels of all four.
pub fn pin_level(pin: SerialPin, cts: bool, dsr: bool, dcd: bool, ri: bool) -> (level: bool)
    ensures
        level == match pin {
            SerialPin::CTS => cts,
            SerialPin::DSR => dsr,
            SerialPin::DCD => dcd,
            SerialPin::RI => ri,
        },
{
    match pin {
        SerialPin::CTS => cts,
        SerialPin::DSR => dsr,
        SerialPin::DCD => dcd,
        SerialPin::RI => ri,
    }
}

/// Number of failed readings in a row after which a poller gives up.
pub const MAX_POLL_ERRORS: u32 = 50;

/// Pause after a failed reading.
pub const POLL_RETRY_MS: u64 = 10;

/// Time without a change after which a poller slows down.
pub const IDLE_BACKOFF_THRESHOLD_MS: u64 = 250;

/// Pause between readings of a poller that has slowed down.
pub const BACKOFF_SLEEP_MS: u64 = 5;

/// What a poller of a modem status does after a reading.
#[derive(Debug, Clone, Copy, PartialEq, Eq, Structural)]
pub enum PollVerdict {
    /// The device has failed too often.
    GiveUp,
    /// Read again after a pause.
    Retry,
    /// The contacts are known.
    Contacts { dit: bool, dash: bool },
}

/// Counts failed readings in a row.
#[derive(Debug, Clone, Copy, PartialEq, Eq, Structural)]
pub struct PollErrors {
    pub consecutive: u32,
}

impl PollErrors {
    /// Takes in a reading: `None` or a negative status is a failure.
    pub fn on_reading(&mut self, status: Option<i32>, dit_pin: SerialPin, dash_pin: SerialPin) -> (v:
        PollVerdict)
        requires
            old(self).consecutive < MAX_POLL_ERRORS,
        ensures
            ({
                let failed = status is None || status->0 < 0;
                &&& failed ==> final(self).consecutive == old(self).consecutive + 1
                &&& failed ==> v == (if final(self).consecutive >= MAX_POLL_ERRORS {
                    PollVerdict::GiveUp
                } else {
                    PollVerdict::Retry
                })
                &&& !failed ==> final(self).consecutive == 0
                &&& !failed ==> v == (PollVerdict::Contacts {
                    dit: status->0 & pin_bit(dit_pin) != 0,
                    dash: status->0 & pin_bit(dash_pin) != 0,
                })
            }),
    {
        match status {
            Some(word) if word >= 0 => {
                self.consecutive = 0;
                PollVerdict::Contacts {
                    dit: word & pin_mask(dit_pin) != 0,
                    dash: word & pin_mask(dash_pin) != 0,
                }
            },
            _ => {
                self.consecutive = self.consecutive + 1;
                if self.consecutive >= MAX_POLL_ERRORS {
                    PollVerdict::GiveUp
                } else {
                    PollVerdict::Retry
                }
            },
        }
    }
}

/// Pause before the next reading: none after a change or while the last one is
/// recent.
pub fn poll_pause_ms(changed: bool, unchanged_ms: u64) -> (pause: Option<u64>)
    ensures
        pause == if !changed && unchanged_ms >= IDLE_BACKOFF_THRESHOLD_MS {
            Some(BACKOFF_SLEEP_MS)
        } else {
            None
        },
{
    if !changed && unchanged_ms >= IDLE_BACKOFF_THRESHOLD_MS {
        Some(BACKOFF_SLEEP_MS)
    } else {
        None
    }
}

} // verus!
