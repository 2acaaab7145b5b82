//! A radio emulator that speaks Protocol 1.

pub mod band_laws;
pub mod cli;
pub mod cli_laws;
pub mod client_laws;
pub mod echo;
pub mod echo_laws;
pub mod echo_session_laws;
pub mod laws;
pub mod playback_laws;
pub mod protocol1;
pub mod radio;
pub mod recording_laws;
pub mod server;
