//! Radios, their tables and the sample formats on the wire.

use crate::protocol::wire::{
    append_decimal, be16_bytes, be16_value, bits16, decimal, mac_text, mac_to_string, overwritten,
    push_be16, read_signed_be16, signed16, to_bits16,
};
use vstd::prelude::*;
use vstd::string::StringExecFns;

verus! {

/// What can go wrong between host and radio.
#[derive(Debug)]
pub enum ProtocolError {
    /// The system reported an error.
    Io(String),
    NoDevicesFound,
    NotConnected,
    InvalidPacket(String),
    Timeout,
    ConnectionLost,
}

impl ProtocolError {
    /// The error as a sentence.
    pub fn message(&self) -> (s: String)
        ensures
            s@ == match *self {
                ProtocolError::Io(e) => "IO error: "@ + e@,
                ProtocolError::NoDevicesFound => "no devices found"@,
                ProtocolError::NotConnected => "not connected"@,
                ProtocolError::InvalidPacket(e) => "invalid packet: "@ + e@,
                ProtocolError::Timeout => "timeout"@,
                ProtocolError::ConnectionLost => "connection lost"@,
            },
    {
        match self {
            ProtocolError::Io(e) => {
                let mut s: String = String::from_str("IO error: ");
                s.append(e.as_str());
                s
            },
            ProtocolError::NoDevicesFound => String::from_str("no devices found"),
            ProtocolError::NotConnected => String::from_str("not connected"),
            ProtocolError::InvalidPacket(e) => {
                let mut s: String = String::from_str("invalid packet: ");
                s.append(e.as_str());
                s
            },
            ProtocolError::Timeout => String::from_str("timeout"),
            ProtocolError::ConnectionLost => String::from_str("connection lost"),
        }
    }
}

/// Kind of radio.
#[derive(Debug, Clone, Copy, PartialEq, Eq, Structural)]
pub enum HpsdrHw {
    Hermes,
    HermesLite,
}

/// Code of a radio in Protocol 1 discovery.
pub open spec fn p1_code_of(hw: HpsdrHw) -> u8 {
    match hw {
        HpsdrHw::Hermes => 1,
        HpsdrHw::HermesLite => 6,
    }
}

/// `c` with an ASCII upper-case letter lowered.
pub open spec fn ascii_lower(c: char) -> char {
    if 'A' <= c <= 'Z' {
        (c as u32 + 32) as char
    } else {
        c
    }
}

/// A text equals a lower-case one but for the case of its letters.
pub open spec fn same_but_case(text: Seq<char>, lower: Seq<char>) -> bool {
    text.map_values(|c: char| ascii_lower(c)) == lower
}

fn equals_but_case(text: &str, lower: &str) -> (r: bool)
    ensures
        r == same_but_case(text@, lower@),
{
    let ghost lowered = text@.map_values(|c: char| ascii_lower(c));
    let n: usize = text.unicode_len();
    if n != lower.unicode_len() {
        return false;
    }
    let mut i: usize = 0;
    while i < n
        invariant
            i <= n,
            n == text@.len(),
            n == lower@.len(),
            lowered == text@.map_values(|c: char| ascii_lower(c)),
            forall|j: int| 0 <= j < i ==> #[trigger] lowered[j] == lower@[j],
        decreases n - i,
    {
        let c: char = text.get_char(i);
        let l: char = if c >= 'A' && c <= 'Z' {
            (c as u8 + 32) as char
        } else {
            c
        };
        assert(lowered[i as int] == l);
        if l != lower.get_char(i) {
            return false;
        }
        i = i + 1;
    }
    assert(lowered =~= lower@);
    true
}

impl HpsdrHw {
    /// Code of the radio in Protocol 1 discovery.
    pub fn p1_code(self) -> (code: u8)
        ensures
            code == p1_code_of(self),
    {
        match self {
            HpsdrHw::Hermes => 1,
            HpsdrHw::HermesLite => 6,
        }
    }

    /// The radio with a Protocol 1 code.
    pub fn from_p1_code(code: u8) -> (hw: Option<Self>)
        ensures
            hw == if code == 1 {
                Some(HpsdrHw::Hermes)
            } else if code == 6 {
                Some(HpsdrHw::HermesLite)
            } else {
                None
            },
    {
        match code {
            1 => Some(HpsdrHw::Hermes),
            6 => Some(HpsdrHw::HermesLite),
            _ => None,
        }
    }

    /// The radio with a name, in any case.
    pub fn from_name(name: &str) -> (hw: Option<Self>)
        ensures
            hw == if same_but_case(name@, "hermes"@) {
                Some(HpsdrHw::Hermes)
            } else if same_but_case(name@, "hermeslite"@) || same_but_case(
                name@,
                "hermeslite2"@,
            ) {
                Some(HpsdrHw::HermesLite)
            } else {
                None
            },
    {
        if equals_but_case(name, "hermes") {
            Some(HpsdrHw::Hermes)
        } else if equals_but_case(name, "hermeslite") || equals_but_case(name, "hermeslite2") {
            Some(HpsdrHw::HermesLite)
        } else {
            None
        }
    }

    /// Names of the radios, in lower case.
    pub fn all_names() -> (names: [&'static str; 2])
        ensures
            names@ == seq!["hermes", "hermeslite"],
    {
        let names: [&'static str; 2] = ["hermes", "hermeslite"];
        assert(names@ =~= seq!["hermes", "hermeslite"]);
        names
    }

    /// Most receivers of the radio.
    pub fn max_ddcs(self) -> (n: u8)
        ensures
            n == if self is Hermes {
                4u8
            } else {
                2u8
            },
    {
        match self {
            HpsdrHw::Hermes => 4,
            HpsdrHw::HermesLite => 2,
        }
    }

    /// Name of the radio.
    pub fn name(self) -> (s: &'static str)
        ensures
            s == if self is Hermes {
                "Hermes"
            } else {
                "HermesLite"
            },
    {
        match self {
            HpsdrHw::Hermes => "Hermes",
            HpsdrHw::HermesLite => "HermesLite",
        }
    }
}

/// Sample rates with their Protocol 1 codes.
pub const SAMPLE_RATES_P1: [(u32, u8); 4] = [(48_000, 0), (96_000, 1), (192_000, 2), (384_000, 3)];

/// Sample rate with a Protocol 1 code.
pub open spec fn rate_of_code(code: int) -> Option<u32> {
    if code == 0 {
        Some(48_000)
    } else if code == 1 {
        Some(96_000)
    } else if code == 2 {
        Some(192_000)
    } else if code == 3 {
        Some(384_000)
    } else {
        None
    }
}

/// Protocol 1 code of a sample rate; 0 for a rate without one.
pub fn sample_rate_to_p1_code(rate: u32) -> (code: u8)
    ensures
        rate_of_code(code as int) == Some(rate) || (code == 0 && forall|c: u8|
            #[trigger] rate_of_code(c as int) != Some(rate)),
{
    let mut i: usize = 0;
    proof {
        lemma_rate_table();
    }
    while i < 4
        invariant
            i <= 4,
            forall|k: int| 0 <= k < 4 ==> #[trigger] rate_of_code(k) == Some(SAMPLE_RATES_P1[k].0),
            forall|k: int| 0 <= k < 4 ==> (#[trigger] SAMPLE_RATES_P1[k]).1 == k,
            forall|k: int| 0 <= k < i ==> (#[trigger] SAMPLE_RATES_P1[k]).0 != rate,
        decreases 4 - i,
    {
        if SAMPLE_RATES_P1[i].0 == rate {
            assert(rate_of_code(i as int) == Some(rate));
            return SAMPLE_RATES_P1[i].1;
        }
        i = i + 1;
    }
    assert forall|c: u8| #[trigger] rate_of_code(c as int) != Some(rate) by {
        if c < 4 {
            assert(SAMPLE_RATES_P1[c as int].0 != rate);
        }
    }
    0
}

/// Sample rate with a Protocol 1 code.
pub fn p1_code_to_sample_rate(code: u8) -> (rate: Option<u32>)
    ensures
        rate == rate_of_code(code as int),
{
    let mut i: usize = 0;
    proof {
        lemma_rate_table();
    }
    while i < 4
        invariant
            i <= 4,
            forall|k: int| 0 <= k < 4 ==> #[trigger] rate_of_code(k) == Some(SAMPLE_RATES_P1[k].0),
            forall|k: int| 0 <= k < 4 ==> (#[trigger] SAMPLE_RATES_P1[k]).1 == k,
            code >= i,
        decreases 4 - i,
    {
        if SAMPLE_RATES_P1[i].1 == code {
            assert(rate_of_code(i as int) == Some(SAMPLE_RATES_P1[i as int].0));
            return Some(SAMPLE_RATES_P1[i].0);
        }
        i = i + 1;
    }
    None
}

proof fn lemma_rate_table()
    ensures
        forall|k: int| 0 <= k < 4 ==> #[trigger] rate_of_code(k) == Some(SAMPLE_RATES_P1[k].0),
        forall|k: int| 0 <= k < 4 ==> (#[trigger] SAMPLE_RATES_P1[k]).1 == k,
{
    assert(SAMPLE_RATES_P1[0] == (48_000u32, 0u8));
    assert(SAMPLE_RATES_P1[1] == (96_000u32, 1u8));
    assert(SAMPLE_RATES_P1[2] == (192_000u32, 2u8));
    assert(SAMPLE_RATES_P1[3] == (384_000u32, 3u8));
    assert forall|k: int| 0 <= k < 4 implies (#[trigger] SAMPLE_RATES_P1[k]).1 == k by {
        assert(k == 0 || k == 1 || k == 2 || k == 3);
    }
    assert forall|k: int| 0 <= k < 4 implies #[trigger] rate_of_code(k) == Some(
        SAMPLE_RATES_P1[k].0,
    ) by {
        assert(k == 0 || k == 1 || k == 2 || k == 3);
    }
}

/// Every code of a sample rate leads back to itself.
pub proof fn lemma_rate_codes_are_distinct(a: int, b: int)
    requires
        rate_of_code(a) is Some,
        rate_of_code(a) == rate_of_code(b),
    ensures
        a == b,
{
}

/// Low-pass filter of the Alex board for a transmit frequency.
pub fn alex_tx_lpf_for_freq(freq_hz: u32) -> (bits: u8)
    ensures
        bits == alex_tx_lpf(freq_hz as int),
{
    if freq_hz <= 2_500_000 {
        0x08
    } else if freq_hz <= 5_000_000 {
        0x04
    } else if freq_hz <= 8_000_000 {
        0x02
    } else if freq_hz <= 16_500_000 {
        0x01
    } else if freq_hz <= 24_000_000 {
        0x40
    } else if freq_hz <= 35_600_000 {
        0x20
    } else {
        0x10
    }
}

/// Low-pass filter of the Alex board for a transmit frequency: the narrowest
/// one that passes it.
pub open spec fn alex_tx_lpf(hz: int) -> u8 {
    if hz <= 2_500_000 {
        0x08
    } else if hz <= 5_000_000 {
        0x04
    } else if hz <= 8_000_000 {
        0x02
    } else if hz <= 16_500_000 {
        0x01
    } else if hz <= 24_000_000 {
        0x40
    } else if hz <= 35_600_000 {
        0x20
    } else {
        0x10
    }
}

/// High-pass filter of the Alex board for a receive frequency.
pub fn alex_rx_hpf_for_freq(freq_hz: u32) -> (bits: u8)
    ensures
        bits == alex_rx_hpf(freq_hz as int),
{
    if freq_hz < 1_500_000 {
        0x20
    } else if freq_hz < 6_500_000 {
        0x10
    } else if freq_hz < 9_500_000 {
        0x08
    } else if freq_hz < 13_000_000 {
        0x04
    } else if freq_hz < 20_000_000 {
        0x01
    } else if freq_hz < 50_000_000 {
        0x02
    } else {
        0x42
    }
}

/// High-pass filter of the Alex board for a receive frequency: the highest one
/// that passes it.
pub open spec fn alex_rx_hpf(hz: int) -> u8 {
    if hz < 1_500_000 {
        0x20
    } else if hz < 6_500_000 {
        0x10
    } else if hz < 9_500_000 {
        0x08
    } else if hz < 13_000_000 {
        0x04
    } else if hz < 20_000_000 {
        0x01
    } else if hz < 50_000_000 {
        0x02
    } else {
        0x42
    }
}

/// Open-collector outputs of the N2ADR filter board for a frequency.
pub fn n2adr_oc_for_freq(freq_hz: u32) -> (bits: u8)
    ensures
        bits == n2adr_oc(freq_hz as int),
{
    if freq_hz <= 2_000_000 {
        1
    } else if freq_hz <= 4_000_000 {
        66
    } else if freq_hz <= 8_000_000 {
        68
    } else if freq_hz <= 15_000_000 {
        72
    } else if freq_hz <= 22_000_000 {
        80
    } else if freq_hz <= 30_000_000 {
        96
    } else {
        64
    }
}

/// Open-collector outputs of the N2ADR filter board for a frequency.
pub open spec fn n2adr_oc(hz: int) -> u8 {
    if hz <= 2_000_000 {
        1
    } else if hz <= 4_000_000 {
        66
    } else if hz <= 8_000_000 {
        68
    } else if hz <= 15_000_000 {
        72
    } else if hz <= 22_000_000 {
        80
    } else if hz <= 30_000_000 {
        96
    } else {
        64
    }
}

/// A network address and port.
#[derive(Debug, Clone, Copy, PartialEq, Eq, Structural)]
pub enum SocketAddress {
    V4 { ip: u32, port: u16 },
    V6 { ip6: u128, port: u16, flow_info: u32, scope_id: u32 },
}

/// A radio that has answered a discovery request.
#[derive(Debug, Clone)]
pub struct DiscoveredDevice {
    pub addr: SocketAddress,
    pub mac: [u8; 6],
    pub hw_type: HpsdrHw,
    pub firmware_version: u8,
    pub num_rxs: u8,
    pub status: u8,
}

impl DiscoveredDevice {
    /// The radio in words: its kind, its network address, which is handed in as
    /// text, its interface address, its version and its number of receivers.
    pub fn describe(&self, addr: &str) -> (s: String)
        ensures
            s@ == (if self.hw_type is Hermes {
                "Hermes"@
            } else {
                "HermesLite"@
            }) + " at "@ + addr@ + " (MAC="@ + mac_text(self.mac@) + ", FW="@ + decimal(
                self.firmware_version as int,
            ) + ", RXs="@ + decimal(self.num_rxs as int) + ")"@,
    {
        let mut s: String = String::from_str(self.hw_type.name());
        s.append(" at ");
        s.append(addr);
        s.append(" (MAC=");
        let mac: String = mac_to_string(&self.mac);
        s.append(mac.as_str());
        s.append(", FW=");
        append_decimal(&mut s, self.firmware_version);
        s.append(", RXs=");
        append_decimal(&mut s, self.num_rxs);
        s.append(")");
        s
    }
}

/// Telemetry of a radio.
#[derive(Debug, Clone, Copy, PartialEq, Eq, Structural)]
pub struct RadioStatus {
    pub ptt: bool,
    pub adc_overflow: u8,
    pub forward_power: u16,
    pub reverse_power: u16,
    pub exciter_power: u16,
    pub supply_voltage: u16,
    pub pa_current: u16,
}

impl Default for RadioStatus {
    fn default() -> (s: Self)
        ensures
            s == (RadioStatus {
                ptt: false,
                adc_overflow: 0,
                forward_power: 0,
                reverse_power: 0,
                exciter_power: 0,
                supply_voltage: 0,
                pa_current: 0,
            }),
    {
        RadioStatus {
            ptt: false,
            adc_overflow: 0,
            forward_power: 0,
            reverse_power: 0,
            exciter_power: 0,
            supply_voltage: 0,
            pa_current: 0,
        }
    }
}

/// A complex baseband sample as integers. Its scale depends on the format:
/// 24-bit receive samples are read in units of 2^-23 and written in units of
/// 1/8388607, 16-bit transmit samples are read in units of 2^-15 and written in
/// units of 1/32767.
#[derive(Debug, Clone, Copy, PartialEq, Eq, Structural)]
pub struct IqSample {
    pub i: i32,
    pub q: i32,
}

/// Full scale of a written 24-bit sample.
pub const FULL_SCALE_24: i32 = 8_388_607;

/// Full scale of a written 16-bit sample.
pub const FULL_SCALE_16: i32 = 32_767;

/// `v` cut to the range from `-limit` to `limit`.
pub open spec fn limited(v: int, limit: int) -> int {
    if v > limit {
        limit
    } else if v < -limit {
        -limit
    } else {
        v
    }
}

/// Cuts `v` to the range from `-limit` to `limit`.
pub fn limit_to(v: i32, limit: i32) -> (r: i32)
    requires
        0 <= limit,
    ensures
        r == limited(v as int, limit as int),
{
    if v > limit {
        limit
    } else if v < -limit {
        -limit
    } else {
        v
    }
}

/// The negative of a number cut to a range.
pub fn negate_limited(v: i32, limit: i32) -> (r: i32)
    requires
        0 <= limit,
    ensures
        r == limited(-v, limit as int),
{
    let cut: i32 = limit_to(v, limit);
    -cut
}

/// Signed number that three bytes in network byte order stand for.
pub open spec fn be24_value(b: Seq<u8>, at: int) -> int {
    let u = b[at] * 0x1_0000 + b[at + 1] * 0x100 + b[at + 2];
    if u >= 0x80_0000 {
        u - 0x100_0000
    } else {
        u
    }
}

/// A signed number as three bytes in network byte order.
pub open spec fn be24_bytes(v: int) -> Seq<u8> {
    let u = if v < 0 {
        v + 0x100_0000
    } else {
        v
    };
    seq![(u / 0x1_0000) as u8, (u / 0x100 % 256) as u8, (u % 256) as u8]
}

/// Reading three bytes gives back the number that was written.
pub proof fn lemma_be24_round_trip(v: int)
    requires
        -0x80_0000 <= v < 0x80_0000,
    ensures
        be24_value(be24_bytes(v), 0) == v,
        be24_bytes(v).len() == 3,
{
}

fn read_be24(b: &[u8], at: usize) -> (v: i32)
    requires
        at + 3 <= b@.len(),
    ensures
        v == be24_value(b@, at as int),
        -0x80_0000 <= v < 0x80_0000,
{
    let u: i32 = b[at] as i32 * 0x1_0000 + b[at + 1] as i32 * 0x100 + b[at + 2] as i32;
    if u >= 0x80_0000 {
        u - 0x100_0000
    } else {
        u
    }
}

/// The 24-bit sample at `at`: three bytes I, three bytes Q, with Q of opposite
/// sign on the wire.
pub open spec fn iq24_at(b: Seq<u8>, at: int) -> IqSample {
    IqSample { i: be24_value(b, at) as i32, q: (-be24_value(b, at + 3)) as i32 }
}

/// Reads a 24-bit sample, in units of 2^-23.
pub fn unpack_iq_24bit(buf: &[u8], offset: usize) -> (s: IqSample)
    requires
        offset + 6 <= buf.len(),
    ensures
        s == iq24_at(buf@, offset as int),
{
    IqSample { i: read_be24(buf, offset), q: -read_be24(buf, offset + 3) }
}

/// The six bytes of a 24-bit sample, in units of 1/8388607.
pub open spec fn iq24_bytes(s: IqSample, negate_q: bool) -> Seq<u8> {
    be24_bytes(limited(s.i as int, FULL_SCALE_24 as int)) + be24_bytes(
        limited(
            if negate_q {
                -s.q
            } else {
                s.q as int
            },
            FULL_SCALE_24 as int,
        ),
    )
}

/// Writes a 24-bit sample and returns the offset behind it.
pub fn pack_iq_24bit_into(buf: &mut [u8], offset: usize, sample: IqSample) -> (next: usize)
    requires
        offset + 6 <= old(buf).len(),
    ensures
        next == offset + 6,
        final(buf)@ == overwritten(old(buf)@, offset as int, iq24_bytes(sample, false)),
{
    pack_iq_24bit_into_ex(buf, offset, sample, false)
}

/// Writes a 24-bit sample with Q negated and returns the offset behind it.
pub fn pack_iq_24bit_into_negate_q(buf: &mut [u8], offset: usize, sample: IqSample) -> (next: usize)
    requires
        offset + 6 <= old(buf).len(),
    ensures
        next == offset + 6,
        final(buf)@ == overwritten(old(buf)@, offset as int, iq24_bytes(sample, true)),
{
    pack_iq_24bit_into_ex(buf, offset, sample, true)
}

fn put_be24(buf: &mut [u8], at: usize, v: i32)
    requires
        at + 3 <= old(buf)@.len(),
        -0x80_0000 <= v < 0x80_0000,
    ensures
        final(buf)@ == overwritten(old(buf)@, at as int, be24_bytes(v as int)),
{
    let u: i32 = if v < 0 {
        v + 0x100_0000
    } else {
        v
    };
    buf[at] = (u / 0x1_0000) as u8;
    buf[at + 1] = (u / 0x100 % 256) as u8;
    buf[at + 2] = (u % 256) as u8;
    assert(buf@ =~= overwritten(old(buf)@, at as int, be24_bytes(v as int)));
}

/// Writes a 24-bit sample, with Q negated where asked, and returns the offset
/// behind it. Values beyond full scale are cut.
pub fn pack_iq_24bit_into_ex(buf: &mut [u8], offset: usize, sample: IqSample, negate_q: bool) -> (
    next: usize)
    requires
        offset + 6 <= old(buf).len(),
    ensures
        next == offset + 6,
        final(buf)@ == overwritten(old(buf)@, offset as int, iq24_bytes(sample, negate_q)),
{
    let i: i32 = limit_to(sample.i, FULL_SCALE_24);
    let q: i32 = if negate_q {
        negate_limited(sample.q, FULL_SCALE_24)
    } else {
        limit_to(sample.q, FULL_SCALE_24)
    };
    put_be24(buf, offset, i);
    put_be24(buf, offset + 3, q);
    assert(buf@ =~= overwritten(old(buf)@, offset as int, iq24_bytes(sample, negate_q)));
    offset + 6
}

/// A 24-bit sample that is written with Q negated is read back as it was, cut
/// to full scale.
pub proof fn lemma_iq24_round_trip(s: IqSample)
    ensures
        iq24_at(iq24_bytes(s, true), 0) == (IqSample {
            i: limited(s.i as int, FULL_SCALE_24 as int) as i32,
            q: limited(s.q as int, FULL_SCALE_24 as int) as i32,
        }),
{
    let i = limited(s.i as int, FULL_SCALE_24 as int);
    let q = limited(-s.q, FULL_SCALE_24 as int);
    lemma_be24_round_trip(i);
    lemma_be24_round_trip(q);
    let b = iq24_bytes(s, true);
    assert(b[0] == be24_bytes(i)[0] && b[1] == be24_bytes(i)[1] && b[2] == be24_bytes(i)[2]);
    assert(b[3] == be24_bytes(q)[0] && b[4] == be24_bytes(q)[1] && b[5] == be24_bytes(q)[2]);
}

/// The transmit sample in the eight-byte block at `at`: four bytes of audio,
/// two bytes I, two bytes Q.
pub open spec fn tx_sample_at(b: Seq<u8>, at: int) -> IqSample {
    IqSample {
        i: signed16(be16_value(b, at + 4)) as i32,
        q: signed16(be16_value(b, at + 6)) as i32,
    }
}

/// Reads the transmit samples of a run of eight-byte blocks, in units of 2^-15.
pub fn unpack_tx_iq_16bit(data: &[u8]) -> (samples: Vec<IqSample>)
    ensures
        samples@ == Seq::new(data@.len() / 8, |k: int| tx_sample_at(data@, 8 * k)),
{
    let n: usize = data.len() / 8;
    let mut samples: Vec<IqSample> = Vec::with_capacity(n);
    let mut k: usize = 0;
    while k < n
        invariant
            k <= n,
            n == data@.len() / 8,
            data@.len() <= usize::MAX,
            samples@ == Seq::new(k as nat, |j: int| tx_sample_at(data@, 8 * j)),
        decreases n - k,
    {
        let off: usize = 8 * k;
        let i: i32 = read_signed_be16(data, off + 4) as i32;
        let q: i32 = read_signed_be16(data, off + 6) as i32;
        samples.push(IqSample { i, q });
        k = k + 1;
        assert(samples@ =~= Seq::new(k as nat, |j: int| tx_sample_at(data@, 8 * j)));
    }
    samples
}

/// The eight-byte block of a transmit sample, in units of 1/32767, without audio
/// and with Q negated where asked.
pub open spec fn tx_block(s: IqSample, negate_q: bool) -> Seq<u8> {
    let q = if negate_q {
        -s.q
    } else {
        s.q as int
    };
    seq![0u8, 0u8, 0u8, 0u8] + be16_bytes(
        bits16(limited(s.i as int, FULL_SCALE_16 as int)),
    ) + be16_bytes(bits16(limited(q, FULL_SCALE_16 as int)))
}

/// Appends the block of a transmit sample.
pub fn push_tx_block(out: &mut Vec<u8>, s: IqSample, negate_q: bool)
    ensures
        final(out)@ == old(out)@ + tx_block(s, negate_q),
{
    let q: i32 = if negate_q {
        negate_limited(s.q, FULL_SCALE_16)
    } else {
        limit_to(s.q, FULL_SCALE_16)
    };
    out.push(0);
    out.push(0);
    out.push(0);
    out.push(0);
    push_be16(out, to_bits16(limit_to(s.i, FULL_SCALE_16) as i16));
    push_be16(out, to_bits16(q as i16));
    assert(out@ =~= old(out)@ + tx_block(s, negate_q));
}

/// The blocks of a run of transmit samples.
pub open spec fn tx_blocks(samples: Seq<IqSample>) -> Seq<u8>
    decreases samples.len(),
{
    if samples.len() == 0 {
        Seq::empty()
    } else {
        tx_blocks(samples.drop_last()) + tx_block(samples.last(), false)
    }
}

/// Writes transmit samples as eight-byte blocks. Values beyond full scale are
/// cut.
pub fn pack_tx_iq_16bit(samples: &[IqSample]) -> (buf: Vec<u8>)
    ensures
        buf@ == tx_blocks(samples@),
{
    let mut buf: Vec<u8> = Vec::new();
    let mut k: usize = 0;
    while k < samples.len()
        invariant
            k <= samples@.len(),
            buf@ == tx_blocks(samples@.take(k as int)),
        decreases samples@.len() - k,
    {
        push_tx_block(&mut buf, samples[k], false);
        k = k + 1;
        assert(samples@.take(k as int).drop_last() == samples@.take(k - 1));
    }
    assert(samples@.take(samples@.len() as int) == samples@);
    buf
}

/// Transmit samples that are written are read back as they were, cut to full
/// scale.
pub proof fn lemma_tx_block_round_trip(s: IqSample)
    ensures
        tx_block(s, false).len() == 8,
        tx_sample_at(tx_block(s, false), 0) == (IqSample {
            i: limited(s.i as int, FULL_SCALE_16 as int) as i32,
            q: limited(s.q as int, FULL_SCALE_16 as int) as i32,
        }),
{
    let b = tx_block(s, false);
    let i = be16_bytes(bits16(limited(s.i as int, FULL_SCALE_16 as int)));
    let q = be16_bytes(bits16(limited(s.q as int, FULL_SCALE_16 as int)));
    assert(b[4] == i[0] && b[5] == i[1] && b[6] == q[0] && b[7] == q[1]);
}

proof fn lemma_tx_blocks_len(samples: Seq<IqSample>)
    ensures
        tx_blocks(samples).len() == 8 * samples.len(),
    decreases samples.len(),
{
    if samples.len() > 0 {
        lemma_tx_blocks_len(samples.drop_last());
        lemma_tx_block_round_trip(samples.last());
    }
}

/// Each of a run of transmit samples is read back from its own block.
pub proof fn lemma_tx_round_trip(samples: Seq<IqSample>, k: int)
    requires
        0 <= k < samples.len(),
    ensures
        tx_blocks(samples).len() == 8 * samples.len(),
        tx_sample_at(tx_blocks(samples), 8 * k) == (IqSample {
            i: limited(samples[k].i as int, FULL_SCALE_16 as int) as i32,
            q: limited(samples[k].q as int, FULL_SCALE_16 as int) as i32,
        }),
    decreases samples.len(),
{
    let init = samples.drop_last();
    lemma_tx_blocks_len(samples);
    lemma_tx_blocks_len(init);
    lemma_tx_block_round_trip(samples.last());
    let all = tx_blocks(samples);
    if k < init.len() {
        lemma_tx_round_trip(init, k);
        let part = tx_blocks(init);
        assert(all[8 * k + 4] == part[8 * k + 4] && all[8 * k + 5] == part[8 * k + 5]);
        assert(all[8 * k + 6] == part[8 * k + 6] && all[8 * k + 7] == part[8 * k + 7]);
    } else {
        let part = tx_block(samples.last(), false);
        assert(all[8 * k + 4] == part[4] && all[8 * k + 5] == part[5]);
        assert(all[8 * k + 6] == part[6] && all[8 * k + 7] == part[7]);
    }
}

} // verus!
