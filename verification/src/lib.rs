//! Verified logic of a set of amateur-radio utilities.
//!
//! * [`keyer`]: Morse keyer engine, its timing rules and its paddle inputs.
//! * [`decoder`], [`decoder_laws`], [`pulse_laws`]: Morse decoder fed with key transitions.
//! * [`protocol`]: the host side of the HPSDR radio protocols: packets, discovery,
//!   control and pacing.
//! * [`emulator`]: an emulated radio: its server, its clients and the echoes of
//!   what they transmit.
//! * [`ring`] and [`clock`]: bounded queues and the clock, which come from other
//!   crates.
//! * [`double`]: integer arithmetic that rounds as double-precision numbers do.
//!
//! The contracts speak of mathematical models. Each type has a view, and the laws
//! that relate several operations are public proof functions.

use vstd::prelude::*;

pub mod clock;
pub mod decoder;
pub mod decoder_laws;
pub mod double;
pub mod emulator;
pub mod keyer;
pub mod protocol;
pub mod pulse_laws;
pub mod ring;

verus! {

} // verus!
