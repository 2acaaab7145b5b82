//! Protocol 1 data packets.
//!
//! A data packet has 1032 bytes: a header of eight bytes and two frames of 512
//! bytes. A frame starts with three sync bytes and five control bytes, C0 to
//! C4; 504 bytes of samples follow.

use crate::protocol::types::{iq24_at, push_tx_block, tx_block, unpack_iq_24bit, IqSample};
use crate::protocol::wire::{be32_bytes, push_all, push_be32};
use vstd::prelude::*;

verus! {

/// Length of a data packet.
pub const PACKET_LEN: usize = 1032;

/// Length of the header of a data packet.
pub const HEADER_LEN: usize = 8;

/// Length of a frame.
pub const FRAME_LEN: usize = 512;

/// Offset of the samples in a frame.
pub const FRAME_DATA: usize = 8;

/// Number of transmit samples in a frame.
pub const TX_SAMPLES_PER_FRAME: usize = 63;

/// First byte of the three that start a frame.
pub const SYNC: u8 = 0x7f;

/// Telemetry that comes with receive samples.
#[derive(Debug, Clone, Copy, PartialEq, Eq, Structural)]
pub struct P1Status {
    pub ptt: bool,
    pub adc_overflow: u8,
    pub forward_power: u16,
    pub reverse_power: u16,
    pub exciter_power: u16,
    pub supply_voltage: u16,
    pub response_addr: u8,
}

impl Default for P1Status {
    fn default() -> (s: Self)
        ensures
            s == P1Status::zero(),
    {
        P1Status {
            ptt: false,
            adc_overflow: 0,
            forward_power: 0,
            reverse_power: 0,
            exciter_power: 0,
            supply_voltage: 0,
            response_addr: 0,
        }
    }
}

/// Two bytes as one number, the high byte first.
pub open spec fn word(hi: u8, lo: u8) -> u16 {
    (hi * 256 + lo) as u16
}

impl P1Status {
    /// Telemetry of which nothing is known yet.
    pub open spec fn zero() -> P1Status {
        P1Status {
            ptt: false,
            adc_overflow: 0,
            forward_power: 0,
            reverse_power: 0,
            exciter_power: 0,
            supply_voltage: 0,
            response_addr: 0,
        }
    }

    /// Telemetry with what five control bytes add. C0 holds the PTT contact in
    /// bit 0 and the kind of telemetry in the six bits above it.
    pub open spec fn with_response(self, c: Seq<u8>) -> P1Status {
        let addr = (c[0] % 128 / 2 * 2) as u8;
        let seen = P1Status { ptt: c[0] % 2 == 1, response_addr: addr, ..self };
        if addr == 0x00 {
            P1Status { adc_overflow: c[1], ..seen }
        } else if addr == 0x08 {
            P1Status { exciter_power: word(c[1], c[2]), forward_power: word(c[3], c[4]), ..seen }
        } else if addr == 0x10 {
            P1Status { reverse_power: word(c[1], c[2]), ..seen }
        } else if addr == 0x18 {
            P1Status { supply_voltage: word(c[3], c[4]), ..seen }
        } else {
            seen
        }
    }
}

fn word_of(hi: u8, lo: u8) -> (w: u16)
    ensures
        w == word(hi, lo),
{
    hi as u16 * 256 + lo as u16
}

/// Takes in the five control bytes of a frame from the radio.
pub fn parse_response_control_bytes(status: &mut P1Status, c0: u8, c1: u8, c2: u8, c3: u8, c4: u8)
    ensures
        *final(status) == old(status).with_response(seq![c0, c1, c2, c3, c4]),
{
    let addr: u8 = c0 % 128 / 2 * 2;
    status.ptt = c0 % 2 == 1;
    status.response_addr = addr;
    if addr == 0x00 {
        status.adc_overflow = c1;
    } else if addr == 0x08 {
        status.exciter_power = word_of(c1, c2);
        status.forward_power = word_of(c3, c4);
    } else if addr == 0x10 {
        status.reverse_power = word_of(c1, c2);
    } else if addr == 0x18 {
        status.supply_voltage = word_of(c3, c4);
    }
}

/// Receive samples and telemetry of a data packet.
pub struct P1RxFrame {
    /// One run of samples for each receiver.
    pub samples: Vec<Vec<IqSample>>,
    pub status: P1Status,
}

/// Offset of a frame in a packet.
pub open spec fn frame_at(frame: int) -> int {
    HEADER_LEN + frame * FRAME_LEN
}

/// A frame starts with its sync bytes.
pub open spec fn is_synced(data: Seq<u8>, at: int) -> bool {
    data[at] == SYNC && data[at + 1] == SYNC && data[at + 2] == SYNC
}

/// Number of bytes in a row: one sample of each receiver and two bytes of audio.
pub open spec fn row_len(nddc: int) -> int {
    6 * nddc + 2
}

/// Number of rows in a frame.
pub open spec fn rows_per_frame(nddc: int) -> int {
    504int / row_len(nddc)
}

/// Offset of a receiver's sample in a row of a frame.
pub open spec fn sample_at(frame_start: int, nddc: int, row: int, ddc: int) -> int {
    frame_start + FRAME_DATA + row * row_len(nddc) + 6 * ddc
}

/// The first `rows` samples of a receiver in a frame.
pub open spec fn frame_samples(
    data: Seq<u8>,
    frame_start: int,
    nddc: int,
    ddc: int,
    rows: int,
) -> Seq<IqSample> {
    Seq::new(rows as nat, |row: int| iq24_at(data, sample_at(frame_start, nddc, row, ddc)))
}

/// The samples of a receiver in a packet.
pub open spec fn packet_samples(data: Seq<u8>, nddc: int, ddc: int) -> Seq<IqSample> {
    frame_samples(data, frame_at(0), nddc, ddc, rows_per_frame(nddc)) + frame_samples(
        data,
        frame_at(1),
        nddc,
        ddc,
        rows_per_frame(nddc),
    )
}

/// The control bytes of a frame.
pub open spec fn control_at(data: Seq<u8>, frame_start: int) -> Seq<u8> {
    data.subrange(frame_start + 3, frame_start + 8)
}

/// The packet can be read: it is long enough and both frames are in sync.
pub open spec fn is_rx_packet(data: Seq<u8>) -> bool {
    data.len() >= PACKET_LEN && is_synced(data, frame_at(0)) && is_synced(data, frame_at(1))
}

/// Appends the samples of each receiver in one frame.
pub(crate) fn read_frame_samples(
    samples: &mut Vec<Vec<IqSample>>,
    data: &[u8],
    frame_start: usize,
    nddc: usize,
)
    requires
        old(samples)@.len() == nddc,
        1 <= nddc,
        row_len(nddc as int) <= usize::MAX,
        frame_start + FRAME_LEN <= data.len(),
    ensures
        final(samples)@.len() == nddc,
        forall|d: int|
            0 <= d < nddc ==> (#[trigger] final(samples)@[d])@ == old(samples)@[d]@
                + frame_samples(
                data@,
                frame_start as int,
                nddc as int,
                d,
                rows_per_frame(nddc as int),
            ),
{
    let bytes_per_row: usize = 6 * nddc + 2;
    let rows: usize = 504 / bytes_per_row;
    let ghost before = samples@;
    let ghost n = nddc as int;
    let ghost start = frame_start as int;
    let mut row: usize = 0;
    assert(rows * bytes_per_row <= 504) by (nonlinear_arith)
        requires
            rows == 504usize / bytes_per_row,
            bytes_per_row > 0,
    ;
    while row < rows
        invariant
            row <= rows,
            rows == rows_per_frame(n),
            n == nddc,
            start == frame_start,
            1 <= nddc,
            bytes_per_row == row_len(n),
            rows * bytes_per_row <= 504,
            start + FRAME_LEN <= data@.len() <= usize::MAX,
            samples@.len() == nddc,
            before.len() == nddc,
            forall|d: int|
                0 <= d < nddc ==> (#[trigger] samples@[d])@ == before[d]@ + frame_samples(
                    data@,
                    start,
                    n,
                    d,
                    row as int,
                ),
        decreases rows - row,
    {
        assert(row * bytes_per_row + bytes_per_row <= rows * bytes_per_row) by (nonlinear_arith)
            requires
                row < rows,
                bytes_per_row > 0,
        ;
        let offset: usize = frame_start + FRAME_DATA + row * bytes_per_row;
        let mut ddc: usize = 0;
        while ddc < nddc
            invariant
                ddc <= nddc,
                n == nddc,
                start == frame_start,
                bytes_per_row == row_len(n),
                offset == start + FRAME_DATA + row * bytes_per_row,
                offset + bytes_per_row <= data@.len() <= usize::MAX,
                samples@.len() == nddc,
                before.len() == nddc,
                forall|d: int|
                    0 <= d < ddc ==> (#[trigger] samples@[d])@ == before[d]@ + frame_samples(
                        data@,
                        start,
                        n,
                        d,
                        row + 1,
                    ),
                forall|d: int|
                    ddc <= d < nddc ==> (#[trigger] samples@[d])@ == before[d]@ + frame_samples(
                        data@,
                        start,
                        n,
                        d,
                        row as int,
                    ),
            decreases nddc - ddc,
        {
            let s: IqSample = unpack_iq_24bit(data, offset + 6 * ddc);
            let ghost was = samples@[ddc as int]@;
            samples[ddc].push(s);
            assert(samples@[ddc as int]@ =~= before[ddc as int]@ + frame_samples(
                data@,
                start,
                n,
                ddc as int,
                row + 1,
            )) by {
                assert(s == iq24_at(data@, sample_at(start, n, row as int, ddc as int)));
            }
            ddc = ddc + 1;
        }
        row = row + 1;
    }
}

/// Reads a data packet from the radio for `nddc` receivers.
pub fn parse_rx_packet(data: &[u8], nddc: usize) -> (frame: Option<P1RxFrame>)
    requires
        row_len(nddc as int) <= usize::MAX,
    ensures
        frame is Some <==> nddc > 0 && is_rx_packet(data@),
        frame matches Some(f) ==> f.samples@.len() == nddc && f.status
            == P1Status::zero().with_response(control_at(data@, frame_at(0))).with_response(
            control_at(data@, frame_at(1)),
        ) && forall|d: int|
            0 <= d < nddc ==> (#[trigger] f.samples@[d])@ == packet_samples(data@, nddc as int, d),
{
    if data.len() < PACKET_LEN || nddc == 0 {
        return None;
    }
    let mut samples: Vec<Vec<IqSample>> = Vec::new();
    let mut k: usize = 0;
    while k < nddc
        invariant
            k <= nddc,
            samples@.len() == k,
            forall|d: int| 0 <= d < k ==> (#[trigger] samples@[d])@ == Seq::<IqSample>::empty(),
        decreases nddc - k,
    {
        samples.push(Vec::new());
        k = k + 1;
    }
    let mut status: P1Status = P1Status::default();
    let first: usize = HEADER_LEN;
    let second: usize = HEADER_LEN + FRAME_LEN;
    if data[first] != SYNC || data[first + 1] != SYNC || data[first + 2] != SYNC {
        return None;
    }
    if data[second] != SYNC || data[second + 1] != SYNC || data[second + 2] != SYNC {
        return None;
    }
    parse_response_control_bytes(
        &mut status,
        data[first + 3],
        data[first + 4],
        data[first + 5],
        data[first + 6],
        data[first + 7],
    );
    read_frame_samples(&mut samples, data, first, nddc);
    parse_response_control_bytes(
        &mut status,
        data[second + 3],
        data[second + 4],
        data[second + 5],
        data[second + 6],
        data[second + 7],
    );
    read_frame_samples(&mut samples, data, second, nddc);
    proof {
        let d = data@;
        assert(control_at(d, frame_at(0)) =~= seq![d[11], d[12], d[13], d[14], d[15]]);
        assert(control_at(d, frame_at(1)) =~= seq![d[523], d[524], d[525], d[526], d[527]]);
        assert forall|i: int| 0 <= i < nddc implies (#[trigger] samples@[i])@ == packet_samples(
            d,
            nddc as int,
            i,
        ) by {
            assert(samples@[i]@ =~= packet_samples(d, nddc as int, i));
        }
    }
    Some(P1RxFrame { samples, status })
}

/// Transmit sample `k`, or silence behind the last one.
pub open spec fn tx_sample_or_silence(samples: Seq<IqSample>, k: int) -> IqSample {
    if 0 <= k < samples.len() {
        samples[k]
    } else {
        IqSample { i: 0, q: 0 }
    }
}

/// The sample blocks of a frame, from transmit sample `from` on. The Q part has
/// opposite sign on the wire.
pub open spec fn tx_frame_blocks(samples: Seq<IqSample>, from: int, count: nat) -> Seq<u8>
    decreases count,
{
    if count == 0 {
        Seq::empty()
    } else {
        tx_frame_blocks(samples, from, (count - 1) as nat) + tx_block(
            tx_sample_or_silence(samples, from + count - 1),
            true,
        )
    }
}

/// A frame to the radio.
pub open spec fn tx_frame(control: Seq<u8>, samples: Seq<IqSample>, from: int) -> Seq<u8> {
    seq![SYNC, SYNC, SYNC] + control + tx_frame_blocks(samples, from, TX_SAMPLES_PER_FRAME as nat)
}

/// Header of a data packet.
pub open spec fn data_header(endpoint: u8, seq_no: u32) -> Seq<u8> {
    seq![0xefu8, 0xfeu8, 0x01u8, endpoint] + be32_bytes(seq_no)
}

/// Appends the header of a data packet.
pub fn push_data_header(out: &mut Vec<u8>, endpoint: u8, seq_no: u32)
    ensures
        final(out)@ == old(out)@ + data_header(endpoint, seq_no),
{
    out.push(0xef);
    out.push(0xfe);
    out.push(0x01);
    out.push(endpoint);
    push_be32(out, seq_no);
    assert(out@ =~= old(out)@ + data_header(endpoint, seq_no));
}

fn push_tx_frame(out: &mut Vec<u8>, control: &[u8; 5], samples: &[IqSample], from: usize)
    requires
        from <= 0xffff,
    ensures
        final(out)@ == old(out)@ + tx_frame(control@, samples@, from as int),
{
    let ghost before = out@;
    out.push(SYNC);
    out.push(SYNC);
    out.push(SYNC);
    push_all(out, control);
    let ghost head = out@;
    assert(head =~= before + (seq![SYNC, SYNC, SYNC] + control@));
    let mut k: usize = 0;
    while k < TX_SAMPLES_PER_FRAME
        invariant
            k <= TX_SAMPLES_PER_FRAME,
            from <= 0xffff,
            out@ == head + tx_frame_blocks(samples@, from as int, k as nat),
        decreases TX_SAMPLES_PER_FRAME - k,
    {
        let at: usize = from + k;
        let s: IqSample = if at < samples.len() {
            samples[at]
        } else {
            IqSample { i: 0, q: 0 }
        };
        push_tx_block(out, s, true);
        k = k + 1;
        assert(out@ =~= head + tx_frame_blocks(samples@, from as int, k as nat));
    }
    assert(out@ =~= before + tx_frame(control@, samples@, from as int));
}

/// Builds a data packet to the radio from up to 126 transmit samples; the rest
/// of the packet is silence.
pub fn build_tx_packet(
    seq: u32,
    tx_iq: &[IqSample],
    control_bytes: [u8; 5],
    control_bytes2: [u8; 5],
) -> (packet: Vec<u8>)
    ensures
        packet@ == data_header(0x02, seq) + tx_frame(control_bytes@, tx_iq@, 0) + tx_frame(
            control_bytes2@,
            tx_iq@,
            63,
        ),
        packet@.len() == PACKET_LEN,
{
    let mut packet: Vec<u8> = Vec::with_capacity(PACKET_LEN);
    push_data_header(&mut packet, 0x02, seq);
    push_tx_frame(&mut packet, &control_bytes, tx_iq, 0);
    push_tx_frame(&mut packet, &control_bytes2, tx_iq, TX_SAMPLES_PER_FRAME);
    proof {
        lemma_tx_frame_len(tx_iq@, 0, 63);
        lemma_tx_frame_len(tx_iq@, 63, 63);
        assert(packet@ =~= data_header(0x02, seq) + tx_frame(control_bytes@, tx_iq@, 0) + tx_frame(
            control_bytes2@,
            tx_iq@,
            63,
        ));
    }
    packet
}

/// A frame's sample blocks have eight bytes each.
pub proof fn lemma_tx_frame_len(samples: Seq<IqSample>, from: int, count: nat)
    ensures
        tx_frame_blocks(samples, from, count).len() == 8 * count,
    decreases count,
{
    if count > 0 {
        lemma_tx_frame_len(samples, from, (count - 1) as nat);
    }
}

/// A frequency that fits the four control bytes.
pub open spec fn wire_frequency(hz: int) -> u32 {
    if hz > u32::MAX {
        u32::MAX
    } else {
        hz as u32
    }
}

/// The five control bytes of a command to the radio. C0 holds the address and
/// the PTT request in bit 0; what follows depends on the address.
pub open spec fn control_bytes_spec(
    address: u8,
    frequency: u64,
    sample_rate_index: u8,
    ptt: bool,
    nddc: u8,
    rx_attenuation: u8,
    tx_drive: u8,
) -> Seq<u8> {
    let c0 = if ptt && address % 2 == 0 {
        (address + 1) as u8
    } else {
        address
    };
    let receivers = if nddc == 0 {
        0
    } else {
        nddc - 1
    };
    if address == 0x00 {
        seq![c0, sample_rate_index % 4, 0, 0, (receivers % 8 * 8 + 4) as u8]
    } else if 0x02 <= address <= 0x0e && address % 2 == 0 {
        seq![c0] + be32_bytes(wire_frequency(frequency as int))
    } else if address == 0x12 {
        seq![c0, tx_drive, 0, 0, 0]
    } else if address == 0x14 {
        seq![c0, 0, 0, 0, rx_attenuation % 32]
    } else {
        seq![c0, 0, 0, 0, 0]
    }
}

/// Builds the five control bytes of a command to the radio.
pub fn build_control_bytes(
    address: u8,
    frequency: u64,
    sample_rate_index: u8,
    ptt: bool,
    nddc: u8,
    rx_attenuation: u8,
    tx_drive: u8,
) -> (cb: [u8; 5])
    ensures
        cb@ == control_bytes_spec(
            address,
            frequency,
            sample_rate_index,
            ptt,
            nddc,
            rx_attenuation,
            tx_drive,
        ),
{
    let c0: u8 = if ptt && address % 2 == 0 {
        address + 1
    } else {
        address
    };
    let mut cb: [u8; 5] = [c0, 0, 0, 0, 0];
    if address == 0x00 {
        let receivers: u8 = nddc.saturating_sub(1);
        cb = [c0, sample_rate_index % 4, 0, 0, receivers % 8 * 8 + 4];
    } else if address >= 0x02 && address <= 0x0e && address % 2 == 0 {
        let f: u32 = if frequency > u32::MAX as u64 {
            u32::MAX
        } else {
            frequency as u32
        };
        cb =
        [
            c0,
            (f / 0x100_0000) as u8,
            (f / 0x1_0000 % 256) as u8,
            (f / 0x100 % 256) as u8,
            (f % 256) as u8,
        ];
    } else if address == 0x12 {
        cb = [c0, tx_drive, 0, 0, 0];
    } else if address == 0x14 {
        cb = [c0, 0, 0, 0, rx_attenuation % 32];
    }
    assert(cb@ =~= control_bytes_spec(
        address,
        frequency,
        sample_rate_index,
        ptt,
        nddc,
        rx_attenuation,
        tx_drive,
    ));
    cb
}

} // verus!
