//! The HPSDR radio protocol.

pub mod discovery;
pub mod filter_laws;
pub mod format_laws;
pub mod host_laws;
pub mod iq_accumulator;
pub mod pacing_laws;
pub mod network_laws;
pub mod packets;
pub mod protocol1;
pub mod protocol2;
pub mod protocol2_laws;
pub mod tx_ring;
pub mod types;
pub mod wire;
