//! Which filters a frequency is sent through.

use crate::protocol::protocol1::P1Model;
use crate::protocol::types::{
    alex_rx_hpf, alex_rx_hpf_for_freq, alex_tx_lpf, alex_tx_lpf_for_freq, n2adr_oc,
    n2adr_oc_for_freq,
};
use vstd::prelude::*;

verus! {

/// Low-pass filters of the Alex board, widest first: the bit that selects each and the
/// highest frequency that it passes. The first passes all.
pub open spec fn alex_low_passes() -> Seq<(u8, int)> {
    seq![
        (0x10u8, u32::MAX as int),
        (0x20u8, 35_600_000),
        (0x40u8, 24_000_000),
        (0x01u8, 16_500_000),
        (0x02u8, 8_000_000),
        (0x04u8, 5_000_000),
        (0x08u8, 2_500_000),
    ]
}

/// High-pass filters of the Alex board, lowest first: the bits that select each and
/// the lowest frequency that it passes. The first is no filter; the last adds the
/// preamplifier of the 6 m band.
pub open spec fn alex_high_passes() -> Seq<(u8, int)> {
    seq![
        (0x20u8, 0int),
        (0x10u8, 1_500_000),
        (0x08u8, 6_500_000),
        (0x04u8, 9_500_000),
        (0x01u8, 13_000_000),
        (0x02u8, 20_000_000),
        (0x42u8, 50_000_000),
    ]
}

/// Low-pass relays of the N2ADR board, widest first: the bit of each and the highest
/// frequency that it passes. Without a relay all passes.
pub open spec fn n2adr_low_passes() -> Seq<(u8, int)> {
    seq![
        (0u8, u32::MAX as int),
        (32u8, 30_000_000),
        (16u8, 22_000_000),
        (8u8, 15_000_000),
        (4u8, 8_000_000),
        (2u8, 4_000_000),
        (1u8, 2_000_000),
    ]
}

/// `bits` select the filter with the lowest cutoff of those that pass `hz`.
pub open spec fn is_narrowest(filters: Seq<(u8, int)>, bits: u8, hz: int) -> bool {
    exists|k: int|
        {
            &&& 0 <= k < filters.len()
            &&& (#[trigger] filters[k]).0 == bits
            &&& hz <= filters[k].1
            &&& forall|j: int|
                0 <= j < filters.len() && hz <= (#[trigger] filters[j]).1 ==> filters[k].1
                    <= filters[j].1
        }
}

/// `bits` select the filter with the highest lower edge of those that pass `hz`.
pub open spec fn is_highest(filters: Seq<(u8, int)>, bits: u8, hz: int) -> bool {
    exists|k: int|
        {
            &&& 0 <= k < filters.len()
            &&& (#[trigger] filters[k]).0 == bits
            &&& filters[k].1 <= hz
            &&& forall|j: int|
                0 <= j < filters.len() && (#[trigger] filters[j]).1 <= hz ==> filters[j].1
                    <= filters[k].1
        }
}

proof fn lemma_alex_low_pass(hz: int)
    requires
        0 <= hz <= u32::MAX,
    ensures
        is_narrowest(alex_low_passes(), alex_tx_lpf(hz), hz),
{
    let t = alex_low_passes();
    assert(t[0] == (0x10u8, u32::MAX as int) && t[1] == (0x20u8, 35_600_000int));
    assert(t[2] == (0x40u8, 24_000_000int) && t[3] == (0x01u8, 16_500_000int));
    assert(t[4] == (0x02u8, 8_000_000int) && t[5] == (0x04u8, 5_000_000int));
    assert(t[6] == (0x08u8, 2_500_000int));
    let k: int = if hz <= 2_500_000 {
        6
    } else if hz <= 5_000_000 {
        5
    } else if hz <= 8_000_000 {
        4
    } else if hz <= 16_500_000 {
        3
    } else if hz <= 24_000_000 {
        2
    } else if hz <= 35_600_000 {
        1
    } else {
        0
    };
    assert(t[k].0 == alex_tx_lpf(hz));
}

proof fn lemma_alex_high_pass(hz: int)
    requires
        0 <= hz,
    ensures
        is_highest(alex_high_passes(), alex_rx_hpf(hz), hz),
{
    let t = alex_high_passes();
    assert(t[0] == (0x20u8, 0int) && t[1] == (0x10u8, 1_500_000int));
    assert(t[2] == (0x08u8, 6_500_000int) && t[3] == (0x04u8, 9_500_000int));
    assert(t[4] == (0x01u8, 13_000_000int) && t[5] == (0x02u8, 20_000_000int));
    assert(t[6] == (0x42u8, 50_000_000int));
    let k: int = if hz < 1_500_000 {
        0
    } else if hz < 6_500_000 {
        1
    } else if hz < 9_500_000 {
        2
    } else if hz < 13_000_000 {
        3
    } else if hz < 20_000_000 {
        4
    } else if hz < 50_000_000 {
        5
    } else {
        6
    };
    assert(t[k].0 == alex_rx_hpf(hz));
}

proof fn lemma_n2adr_low_pass(hz: int)
    requires
        0 <= hz <= u32::MAX,
    ensures
        is_narrowest(n2adr_low_passes(), (n2adr_oc(hz) % 64) as u8, hz),
        n2adr_oc(hz) < 128,
        n2adr_oc(hz) >= 64 <==> hz > 2_000_000,
{
    let t = n2adr_low_passes();
    assert(t[0] == (0u8, u32::MAX as int) && t[1] == (32u8, 30_000_000int));
    assert(t[2] == (16u8, 22_000_000int) && t[3] == (8u8, 15_000_000int));
    assert(t[4] == (4u8, 8_000_000int) && t[5] == (2u8, 4_000_000int));
    assert(t[6] == (1u8, 2_000_000int));
    let k: int = if hz <= 2_000_000 {
        6
    } else if hz <= 4_000_000 {
        5
    } else if hz <= 8_000_000 {
        4
    } else if hz <= 15_000_000 {
        3
    } else if hz <= 22_000_000 {
        2
    } else if hz <= 30_000_000 {
        1
    } else {
        0
    };
    assert(t[k].0 == n2adr_oc(hz) % 64);
}

/// A transmitter's harmonics are cut as low as can be: of the low-pass filters that
/// pass the transmit frequency the one with the lowest cutoff is selected. So each
/// amateur band goes through the filter that is made for it.
pub proof fn lemma_alex_low_pass_is_the_narrowest(hz: u32, bits: u8)
    requires
        call_ensures(alex_tx_lpf_for_freq, (hz,), bits),
    ensures
        is_narrowest(alex_low_passes(), bits, hz as int),
        1_800_000 <= hz <= 2_000_000 ==> bits == 0x08,
        3_500_000 <= hz <= 4_000_000 ==> bits == 0x04,
        5_250_000 <= hz <= 5_450_000 || 7_000_000 <= hz <= 7_300_000 ==> bits == 0x02,
        10_100_000 <= hz <= 10_150_000 || 14_000_000 <= hz <= 14_350_000 ==> bits == 0x01,
        18_068_000 <= hz <= 18_168_000 || 21_000_000 <= hz <= 21_450_000 ==> bits == 0x40,
        24_890_000 <= hz <= 24_990_000 || 28_000_000 <= hz <= 29_700_000 ==> bits == 0x20,
        50_000_000 <= hz <= 54_000_000 ==> bits == 0x10,
{
    lemma_alex_low_pass(hz as int);
}

/// A receiver is kept from what lies below it: of the high-pass filters that pass the
/// receive frequency the one with the highest edge is selected.
pub proof fn lemma_alex_high_pass_is_the_highest(hz: u32, bits: u8)
    requires
        call_ensures(alex_rx_hpf_for_freq, (hz,), bits),
    ensures
        is_highest(alex_high_passes(), bits, hz as int),
{
    lemma_alex_high_pass(hz as int);
}

/// The N2ADR board has the low-pass relay with the lowest cutoff that passes the
/// frequency, and its high-pass filter everywhere but in the 160 m band.
pub proof fn lemma_n2adr_relays_fit(hz: u32, bits: u8)
    requires
        call_ensures(n2adr_oc_for_freq, (hz,), bits),
    ensures
        bits < 128,
        is_narrowest(n2adr_low_passes(), (bits % 64) as u8, hz as int),
        bits >= 64 <==> hz > 2_000_000,
{
    lemma_n2adr_low_pass(hz as int);
}

/// The rotation of commands carries the filters: for a Hermes the command at 0x12
/// names the high-pass filter of the first receiver and the low-pass filter of the
/// transmit frequency; for a Hermes Lite the command at 0x00 names the relays for the
/// transmit frequency while transmitting, else for that of the first receiver.
pub proof fn lemma_filters_go_out(m: P1Model)
    requires
        m.wf(),
    ensures
        m.control_command(9)[0] == 0x12,
        m.control_command(0)[0] == 0x00,
        m.hw_type is Hermes ==> {
            let c = m.control_command(9);
            &&& c[2] == 0
            &&& is_highest(alex_high_passes(), c[3], m.rx_frequencies[0] as int)
            &&& is_narrowest(alex_low_passes(), c[4], m.tx_frequency as int)
            &&& m.control_command(0)[2] == 0
        },
        m.hw_type is HermesLite ==> {
            let c = m.control_command(0);
            let hz = if m.ptt {
                m.tx_frequency as int
            } else {
                m.rx_frequencies[0] as int
            };
            &&& c[2] % 2 == 0
            &&& is_narrowest(n2adr_low_passes(), (c[2] / 2 % 64) as u8, hz)
            &&& c[2] >= 128 <==> hz > 2_000_000
            &&& m.control_command(9) == seq![0x12u8, m.tx_drive, 0x08u8, 0u8, 0u8]
        },
{
    lemma_alex_low_pass(m.tx_frequency as int);
    lemma_alex_high_pass(m.rx_frequencies[0] as int);
    lemma_n2adr_low_pass(m.tx_frequency as int);
    lemma_n2adr_low_pass(m.rx_frequencies[0] as int);
}

/// The attenuator: a Hermes has one of 20 dB, which is on from 20 dB up; a Hermes Lite
/// takes the value itself, up to 31 dB at 0x14 and, with the bits that enable it, up
/// to 63 dB at 0x1c.
pub proof fn lemma_attenuation_goes_out(m: P1Model)
    requires
        m.wf(),
    ensures
        ({
            let step = m.control_command(10);
            let gain = m.control_command(12);
            &&& step[0] == 0x14 && step[1] == 0 && step[2] == 0 && step[3] == 0
            &&& gain[0] == 0x1c && gain[1] == 0 && gain[2] == 0 && gain[4] == 0
            &&& m.hw_type is Hermes ==> gain[3] == 0 && step[4] == (if m.rx_attenuation >= 20 {
                32u8
            } else {
                0u8
            })
            &&& m.hw_type is HermesLite && m.rx_attenuation <= 31 ==> step[4] == m.rx_attenuation
            &&& m.hw_type is HermesLite ==> step[4] < 32 && (m.rx_attenuation - step[4]) % 32 == 0
            &&& m.hw_type is HermesLite && m.rx_attenuation <= 63 ==> gain[3] == 192
                + m.rx_attenuation
            &&& m.hw_type is HermesLite ==> gain[3] >= 192 && (m.rx_attenuation - gain[3]) % 64 == 0
        }),
{
}

} // verus!
