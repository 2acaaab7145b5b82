//! The radio that is emulated.

use crate::protocol::types::HpsdrHw;
use crate::protocol::wire::{mac_text, mac_to_string};
use rand::rngs::StdRng;
use rand::{Rng, SeedableRng};
use vstd::prelude::*;

verus! {

/// Identity of an emulated radio.
pub struct HwInfo {
    pub hw: HpsdrHw,
    pub mac: [u8; 6],
    pub firmware_version: u8,
    pub mercury_versions: [u8; 4],
    pub penny_version: u8,
    pub metis_version: u8,
}

/// `rand::rngs::StdRng::from_os_rng` and `rand::Rng::fill`: six random bytes from
/// a generator that the operating system has seeded. Nothing is claimed of them.
#[verifier::external_body]
fn random_bytes() -> (b: [u8; 6]) {
    let mut rng = StdRng::from_os_rng();
    let mut b = [0u8; 6];
    rng.fill(&mut b);
    b
}

/// The first byte of an address that is locally administered and of a single
/// station: bit 1 set, bit 0 clear.
pub open spec fn local_unicast(b: u8) -> u8 {
    (b / 4 * 4 + 2) as u8
}

impl HwInfo {
    /// A radio whose boards all report version 25.
    pub fn new(hw: HpsdrHw, mac: [u8; 6]) -> (info: Self)
        ensures
            info.hw == hw,
            info.mac == mac,
            info.firmware_version == 25,
            info.mercury_versions@ == seq![25u8, 25u8, 25u8, 25u8],
            info.penny_version == 25,
            info.metis_version == 25,
    {
        let info: HwInfo = HwInfo {
            hw,
            mac,
            firmware_version: 25,
            mercury_versions: [25, 25, 25, 25],
            penny_version: 25,
            metis_version: 25,
        };
        assert(info.mercury_versions@ =~= seq![25u8, 25u8, 25u8, 25u8]);
        info
    }

    /// The radio's address as text.
    pub fn mac_string(&self) -> (s: String)
        ensures
            s@ == mac_text(self.mac@),
    {
        mac_to_string(&self.mac)
    }

    /// A random address that no vendor has assigned.
    pub fn random_mac() -> (mac: [u8; 6])
        ensures
            mac[0] % 4 == 2,
    {
        let bytes: [u8; 6] = random_bytes();
        localized(bytes)
    }
}

/// The address made local and that of a single station; the rest stays.
pub fn localized(bytes: [u8; 6]) -> (mac: [u8; 6])
    ensures
        mac@ == bytes@.update(0, local_unicast(bytes[0])),
{
    let mut mac: [u8; 6] = bytes;
    mac[0] = bytes[0] / 4 * 4 + 2;
    mac
}

} // verus!
