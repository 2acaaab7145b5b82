//! The Morse keyer.

pub mod code_laws;
pub mod config;
pub mod control;
pub mod device_laws;
pub mod engine;
pub mod laws;
pub mod midi;
pub mod mode_laws;
pub mod morse;
pub mod paddle;
pub mod press_laws;
pub mod session_laws;
pub mod text_laws;
pub mod timing_laws;
