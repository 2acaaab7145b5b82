//! Where each value lies in the formats on the wire.

use crate::protocol::packets::{
    build_control_bytes, build_tx_packet, control_at, data_header, lemma_tx_frame_len, packet_samples,
    parse_response_control_bytes, parse_rx_packet, rows_per_frame, sample_at, tx_frame,
    tx_frame_blocks, tx_sample_or_silence, wire_frequency, P1RxFrame, P1Status,
};
use crate::protocol::types::{
    ascii_lower, lemma_tx_round_trip, limited, p1_code_to_sample_rate, pack_iq_24bit_into_ex,
    pack_tx_iq_16bit, rate_of_code, sample_rate_to_p1_code, tx_block, tx_blocks, unpack_iq_24bit,
    unpack_tx_iq_16bit, HpsdrHw, IqSample,
};
use crate::protocol::wire::{
    be16_bytes, be32_bytes, bits16, lemma_be32_round_trip, push_be16, push_be32, read_be16,
    read_be32, read_signed_be16, to_bits16,
};
use vstd::prelude::*;

verus! {

/// The rate codes count doublings of 48 kHz, and there are four of them.
pub proof fn lemma_rate_codes_count_doublings(code: u8, rate: Option<u32>, next: Option<u32>)
    requires
        code < 255,
        call_ensures(p1_code_to_sample_rate, (code,), rate),
        call_ensures(p1_code_to_sample_rate, ((code + 1) as u8,), next),
    ensures
        rate is Some <==> code < 4,
        code == 0 ==> rate == Some(48_000u32),
        code < 3 ==> next is Some && next->0 == 2 * rate->0,
{
}

/// The code of a rate leads back to it, and a rate without a code gets code 0.
pub proof fn lemma_rates_and_codes_fit(rate: u32, code: u8, back: Option<u32>)
    requires
        call_ensures(sample_rate_to_p1_code, (rate,), code),
        call_ensures(p1_code_to_sample_rate, (code,), back),
    ensures
        rate == 48_000 ==> code == 0,
        rate == 96_000 ==> code == 1,
        rate == 192_000 ==> code == 2,
        rate == 384_000 ==> code == 3,
        rate != 48_000 && rate != 96_000 && rate != 192_000 && rate != 384_000 ==> code == 0,
        back == Some(rate) || code == 0,
{
    assert(rate_of_code(0u8 as int) is Some);
    assert(rate_of_code(1u8 as int) is Some);
    assert(rate_of_code(2u8 as int) is Some);
    assert(rate_of_code(3u8 as int) is Some);
}

/// A radio is known by its code and by its name, and the two radios have codes 1 and 6
/// and up to four and two receivers.
pub proof fn lemma_radios_are_known_by_code_and_name(
    hw: HpsdrHw,
    code: u8,
    back: Option<HpsdrHw>,
    name: &'static str,
    named: Option<HpsdrHw>,
    receivers: u8,
)
    requires
        call_ensures(HpsdrHw::p1_code, (hw,), code),
        call_ensures(HpsdrHw::from_p1_code, (code,), back),
        call_ensures(HpsdrHw::name, (hw,), name),
        call_ensures(HpsdrHw::from_name, (name,), named),
        call_ensures(HpsdrHw::max_ddcs, (hw,), receivers),
    ensures
        back == Some(hw),
        named == Some(hw),
        hw is Hermes ==> code == 1 && receivers == 4,
        hw is HermesLite ==> code == 6 && receivers == 2,
{
    reveal_strlit("Hermes");
    reveal_strlit("hermes");
    reveal_strlit("HermesLite");
    reveal_strlit("hermeslite");
    let lower = |c: char| ascii_lower(c);
    assert("Hermes"@.map_values(lower) =~= "hermes"@);
    assert("HermesLite"@.map_values(lower) =~= "hermeslite"@);
    assert("HermesLite"@.map_values(lower).len() != "hermes"@.len());
}

/// No other code stands for a radio.
pub proof fn lemma_other_codes_are_unknown(code: u8, hw: Option<HpsdrHw>)
    requires
        call_ensures(HpsdrHw::from_p1_code, (code,), hw),
    ensures
        hw is Some <==> code == 1 || code == 6,
{
}

/// Numbers are appended with their highest byte first, behind what is there.
pub proof fn lemma_numbers_are_appended_highest_byte_first(out: &mut Vec<u8>, v: u32)
    requires
        call_ensures(push_be32, (out, v), ()),
    ensures
        ({
            let b = final(out)@;
            let n = old(out)@.len() as int;
            &&& b.len() == n + 4
            &&& forall|k: int| 0 <= k < n ==> #[trigger] b[k] == old(out)@[k]
            &&& b[n] * 0x100_0000 + b[n + 1] * 0x1_0000 + b[n + 2] * 0x100 + b[n + 3] == v
        }),
{
}

/// The same of numbers of two bytes.
pub proof fn lemma_short_numbers_are_appended_highest_byte_first(out: &mut Vec<u8>, v: u16)
    requires
        call_ensures(push_be16, (out, v), ()),
    ensures
        ({
            let b = final(out)@;
            let n = old(out)@.len() as int;
            &&& b.len() == n + 2
            &&& forall|k: int| 0 <= k < n ==> #[trigger] b[k] == old(out)@[k]
            &&& b[n] * 0x100 + b[n + 1] == v
        }),
{
}

/// Numbers are read highest byte first; a signed number is the one of its range that
/// differs from the unsigned one by whole turns.
pub proof fn lemma_numbers_are_read_highest_byte_first(
    b: &[u8],
    at: usize,
    long: u32,
    short: u16,
    signed: i16,
    bits: u16,
)
    requires
        at + 4 <= b@.len(),
        call_ensures(read_be32, (b, at), long),
        call_ensures(read_be16, (b, at), short),
        call_ensures(read_signed_be16, (b, at), signed),
        call_ensures(to_bits16, (signed,), bits),
    ensures
        long == b@[at as int] * 0x100_0000 + b@[at + 1] * 0x1_0000 + b@[at + 2] * 0x100 + b@[at
            + 3],
        short == b@[at as int] * 0x100 + b@[at + 1],
        (signed - short) % 0x1_0000 == 0,
        bits == short,
{
}

/// The signed number of three bytes, highest first: the one of its range that differs
/// from the unsigned one by whole turns.
pub open spec fn holds24(b: Seq<u8>, at: int, v: int) -> bool {
    &&& -0x80_0000 <= v < 0x80_0000
    &&& (v - (b[at] * 0x1_0000 + b[at + 1] * 0x100 + b[at + 2])) % 0x100_0000 == 0
}

/// The signed number of two bytes, in the same way.
pub open spec fn holds16(b: Seq<u8>, at: int, v: int) -> bool {
    &&& -0x8000 <= v < 0x8000
    &&& (v - (b[at] * 0x100 + b[at + 1])) % 0x1_0000 == 0
}

/// The number of the range from `-limit` to `limit` that is closest to `v`.
pub open spec fn is_closest(r: int, v: int, limit: int) -> bool {
    &&& -limit <= r <= limit
    &&& -limit <= v <= limit ==> r == v
    &&& v > limit ==> r == limit
    &&& v < -limit ==> r == -limit
}

/// A receive sample is read from six bytes: I from the first three, and Q, with
/// opposite sign, from the others.
pub proof fn lemma_receive_sample_is_read(buf: &[u8], offset: usize, s: IqSample)
    requires
        offset + 6 <= buf@.len(),
        call_ensures(unpack_iq_24bit, (buf, offset), s),
    ensures
        holds24(buf@, offset as int, s.i as int),
        holds24(buf@, offset + 3, -s.q),
{
}

/// A receive sample is written to six bytes, I first, each part cut to 8388607, and the
/// sign of Q turned where asked. No other byte changes.
pub proof fn lemma_receive_sample_is_written(
    buf: &mut [u8],
    offset: usize,
    s: IqSample,
    negate_q: bool,
    next: usize,
    i: int,
    q: int,
)
    requires
        offset + 6 <= old(buf)@.len(),
        call_ensures(pack_iq_24bit_into_ex, (buf, offset, s, negate_q), next),
        is_closest(i, s.i as int, 8_388_607),
        is_closest(
            q,
            if negate_q {
                -s.q
            } else {
                s.q as int
            },
            8_388_607,
        ),
    ensures
        next == offset + 6,
        final(buf)@.len() == old(buf)@.len(),
        holds24(final(buf)@, offset as int, i),
        holds24(final(buf)@, offset + 3, q),
        forall|k: int|
            0 <= k < old(buf)@.len() && !(offset <= k < offset + 6) ==> #[trigger] final(buf)@[k]
                == old(buf)@[k],
{
}

/// Transmit samples are read from blocks of eight bytes: I from the third and Q from
/// the fourth pair. Bytes behind the last whole block are left out.
pub proof fn lemma_transmit_samples_are_read(data: &[u8], samples: Vec<IqSample>, k: int)
    requires
        call_ensures(unpack_tx_iq_16bit, (data,), samples),
    ensures
        8 * samples@.len() <= data@.len() < 8 * samples@.len() + 8,
        0 <= k < samples@.len() ==> holds16(data@, 8 * k + 4, samples@[k].i as int) && holds16(
            data@,
            8 * k + 6,
            samples@[k].q as int,
        ),
{
}

/// A block of a transmit sample.
pub open spec fn is_block(b: Seq<u8>, at: int, i: int, q: int) -> bool {
    &&& b[at] == 0 && b[at + 1] == 0 && b[at + 2] == 0 && b[at + 3] == 0
    &&& holds16(b, at + 4, i)
    &&& holds16(b, at + 6, q)
}

proof fn lemma_block(s: IqSample, negate_q: bool, i: int, q: int)
    requires
        is_closest(i, s.i as int, 32_767),
        is_closest(
            q,
            if negate_q {
                -s.q
            } else {
                s.q as int
            },
            32_767,
        ),
    ensures
        tx_block(s, negate_q).len() == 8,
        is_block(tx_block(s, negate_q), 0, i, q),
{
    let b = tx_block(s, negate_q);
    let qv = if negate_q {
        -s.q
    } else {
        s.q as int
    };
    let bi = be16_bytes(
        bits16(limited(s.i as int, 32_767)),
    );
    let bq = be16_bytes(
        bits16(limited(qv, 32_767)),
    );
    assert(b[4] == bi[0] && b[5] == bi[1] && b[6] == bq[0] && b[7] == bq[1]);
}

proof fn lemma_blocks_at(samples: Seq<IqSample>, k: int)
    requires
        0 <= k < samples.len(),
    ensures
        tx_blocks(samples).len() == 8 * samples.len(),
        tx_blocks(samples).subrange(8 * k, 8 * k + 8) == tx_block(samples[k], false),
    decreases samples.len(),
{
    let init = samples.drop_last();
    lemma_tx_round_trip(samples, k);
    assert(tx_block(samples.last(), false).len() == 8);
    let all = tx_blocks(samples);
    let part = tx_blocks(init);
    assert(part.len() == 8 * init.len()) by {
        if init.len() > 0 {
            lemma_blocks_at(init, 0);
        }
    }
    if k < init.len() {
        lemma_blocks_at(init, k);
        assert(all.subrange(8 * k, 8 * k + 8) =~= part.subrange(8 * k, 8 * k + 8));
    } else {
        assert(all.subrange(8 * k, 8 * k + 8) =~= tx_block(samples.last(), false));
    }
}

/// Transmit samples are written as blocks of eight bytes: four zeros, I and Q, each cut
/// to 32767.
pub proof fn lemma_transmit_samples_are_written(
    samples: &[IqSample],
    buf: Vec<u8>,
    k: int,
    i: int,
    q: int,
)
    requires
        call_ensures(pack_tx_iq_16bit, (samples,), buf),
        0 <= k < samples@.len(),
        is_closest(i, samples@[k].i as int, 32_767),
        is_closest(q, samples@[k].q as int, 32_767),
    ensures
        buf@.len() == 8 * samples@.len(),
        is_block(buf@, 8 * k, i, q),
{
    lemma_blocks_at(samples@, k);
    lemma_block(samples@[k], false, i, q);
    let b = buf@.subrange(8 * k, 8 * k + 8);
    assert(b[0] == buf@[8 * k] && b[1] == buf@[8 * k + 1] && b[2] == buf@[8 * k + 2]);
    assert(b[3] == buf@[8 * k + 3] && b[4] == buf@[8 * k + 4] && b[5] == buf@[8 * k + 5]);
    assert(b[6] == buf@[8 * k + 6] && b[7] == buf@[8 * k + 7]);
}

/// Telemetry: bit 0 of the first control byte is the PTT contact, the six bits above
/// say what the others hold. Everything else stays as it was.
pub proof fn lemma_telemetry_is_taken_in(
    status: &mut P1Status,
    c0: u8,
    c1: u8,
    c2: u8,
    c3: u8,
    c4: u8,
)
    requires
        call_ensures(parse_response_control_bytes, (status, c0, c1, c2, c3, c4), ()),
    ensures
        ({
            let kind = c0 as int / 2 % 64;
            let was = *old(status);
            let now = *final(status);
            &&& now.ptt <==> c0 % 2 == 1
            &&& now.response_addr == 2 * kind
            &&& kind == 0 ==> now.adc_overflow == c1
            &&& kind != 0 ==> now.adc_overflow == was.adc_overflow
            &&& kind == 4 ==> now.exciter_power == 256 * c1 + c2 && now.forward_power == 256 * c3
                + c4
            &&& kind != 4 ==> now.exciter_power == was.exciter_power && now.forward_power
                == was.forward_power
            &&& kind == 8 ==> now.reverse_power == 256 * c1 + c2
            &&& kind != 8 ==> now.reverse_power == was.reverse_power
            &&& kind == 12 ==> now.supply_voltage == 256 * c3 + c4
            &&& kind != 12 ==> now.supply_voltage == was.supply_voltage
        }),
{
}

/// A receive packet has two frames, at bytes 8 and 520, each of which starts with three
/// bytes 0x7f. A frame holds as many rows as fit into 504 bytes; a row has six bytes
/// for each receiver and two more. A receiver's samples are those of the first frame and
/// then of the second.
pub proof fn lemma_receive_packet_is_read(
    data: &[u8],
    nddc: usize,
    frame: Option<P1RxFrame>,
    rows: int,
    ddc: int,
    row: int,
    second: bool,
)
    requires
        nddc <= 0xffff,
        call_ensures(parse_rx_packet, (data, nddc), frame),
        rows >= 0,
        rows * (6 * nddc + 2) <= 504 < (rows + 1) * (6 * nddc + 2),
        0 <= ddc < nddc,
        0 <= row < rows,
    ensures
        frame is Some <==> data@.len() >= 1032 && data@[8] == 0x7f && data@[9] == 0x7f && data@[10]
            == 0x7f && data@[520] == 0x7f && data@[521] == 0x7f && data@[522] == 0x7f,
        frame matches Some(f) ==> {
            let at = (if second {
                520int
            } else {
                8int
            }) + 8 + row * (6 * nddc + 2) + 6 * ddc;
            let s = f.samples@[ddc]@[if second {
                rows + row
            } else {
                row
            }];
            &&& f.samples@.len() == nddc
            &&& f.samples@[ddc]@.len() == 2 * rows
            &&& holds24(data@, at, s.i as int)
            &&& holds24(data@, at + 3, -s.q)
        },
{
    let n = nddc as int;
    assert(rows == 504int / (6 * n + 2)) by (nonlinear_arith)
        requires
            rows >= 0,
            n >= 0,
            rows * (6 * n + 2) <= 504 < (rows + 1) * (6 * n + 2),
    ;
    assert(rows == rows_per_frame(n));
    if let Some(f) = frame {
        assert(f.samples@[ddc]@ == packet_samples(data@, n, ddc));
        assert(sample_at(8, n, row, ddc) == 8 + 8 + row * (6 * n + 2) + 6 * ddc);
    }
}

proof fn lemma_frame_block_at(samples: Seq<IqSample>, from: int, count: nat, k: int)
    requires
        0 <= k < count,
    ensures
        tx_frame_blocks(samples, from, count).subrange(8 * k, 8 * k + 8) == tx_block(
            tx_sample_or_silence(samples, from + k),
            true,
        ),
        tx_frame_blocks(samples, from, count).len() == 8 * count,
    decreases count,
{
    lemma_tx_frame_len(samples, from, count);
    lemma_tx_frame_len(samples, from, (count - 1) as nat);
    let all = tx_frame_blocks(samples, from, count);
    let part = tx_frame_blocks(samples, from, (count - 1) as nat);
    let last = tx_block(tx_sample_or_silence(samples, from + count - 1), true);
    assert(last.len() == 8);
    if k < count - 1 {
        lemma_frame_block_at(samples, from, (count - 1) as nat, k);
        assert(all.subrange(8 * k, 8 * k + 8) =~= part.subrange(8 * k, 8 * k + 8));
    } else {
        assert(all.subrange(8 * k, 8 * k + 8) =~= last);
    }
}

proof fn lemma_frame_parts(control: Seq<u8>, samples: Seq<IqSample>, from: int, k: int)
    requires
        control.len() == 5,
        0 <= k < 63,
    ensures
        ({
            let f = tx_frame(control, samples, from);
            &&& f.len() == 512
            &&& f[0] == 0x7f && f[1] == 0x7f && f[2] == 0x7f
            &&& f.subrange(3, 8) == control
            &&& f.subrange(8 + 8 * k, 16 + 8 * k) == tx_block(
                tx_sample_or_silence(samples, from + k),
                true,
            )
        }),
{
    let f = tx_frame(control, samples, from);
    let blocks = tx_frame_blocks(samples, from, 63);
    lemma_frame_block_at(samples, from, 63, k);
    assert(f.subrange(3, 8) =~= control);
    assert(f.subrange(8 + 8 * k, 16 + 8 * k) =~= blocks.subrange(8 * k, 8 * k + 8));
}

proof fn lemma_block_in_place(p: Seq<u8>, at: int, b: Seq<u8>, i: int, q: int)
    requires
        b.len() == 8,
        is_block(b, 0, i, q),
        0 <= at,
        at + 8 <= p.len(),
        p.subrange(at, at + 8) == b,
    ensures
        is_block(p, at, i, q),
{
    assert(b[0] == p[at] && b[1] == p[at + 1] && b[2] == p[at + 2] && b[3] == p[at + 3]);
    assert(b[4] == p[at + 4] && b[5] == p[at + 5] && b[6] == p[at + 6] && b[7] == p[at + 7]);
}

proof fn lemma_packet_parts(h: Seq<u8>, a: Seq<u8>, b: Seq<u8>, j: int)
    requires
        h.len() == 8,
        a.len() == 512,
        b.len() == 512,
        0 <= j < 63,
    ensures
        ({
            let p = h + a + b;
            &&& p.len() == 1032
            &&& p.subrange(0, 8) == h
            &&& p[8] == a[0] && p[9] == a[1] && p[10] == a[2]
            &&& p[520] == b[0] && p[521] == b[1] && p[522] == b[2]
            &&& p.subrange(11, 16) == a.subrange(3, 8)
            &&& p.subrange(523, 528) == b.subrange(3, 8)
            &&& p.subrange(16 + 8 * j, 24 + 8 * j) == a.subrange(8 + 8 * j, 16 + 8 * j)
            &&& p.subrange(528 + 8 * j, 536 + 8 * j) == b.subrange(8 + 8 * j, 16 + 8 * j)
        }),
{
    let p = h + a + b;
    assert(p.subrange(0, 8) =~= h);
    assert(p.subrange(11, 16) =~= a.subrange(3, 8));
    assert(p.subrange(523, 528) =~= b.subrange(3, 8));
    assert(p.subrange(16 + 8 * j, 24 + 8 * j) =~= a.subrange(8 + 8 * j, 16 + 8 * j));
    assert(p.subrange(528 + 8 * j, 536 + 8 * j) =~= b.subrange(8 + 8 * j, 16 + 8 * j));
}

proof fn lemma_header_parts(p: Seq<u8>, seq: u32)
    requires
        p.len() >= 8,
        p.subrange(0, 8) == data_header(0x02, seq),
    ensures
        p[0] == 0xef && p[1] == 0xfe && p[2] == 1 && p[3] == 2,
        p[4] * 0x100_0000 + p[5] * 0x1_0000 + p[6] * 0x100 + p[7] == seq,
{
    let h = p.subrange(0, 8);
    assert(h[0] == p[0] && h[1] == p[1] && h[2] == p[2] && h[3] == p[3]);
    assert(h[4] == p[4] && h[5] == p[5] && h[6] == p[6] && h[7] == p[7]);
}

#[verifier::opaque]
spec fn framed(control: Seq<u8>, samples: Seq<IqSample>, from: int) -> Seq<u8> {
    tx_frame(control, samples, from)
}

proof fn lemma_framed_parts(control: Seq<u8>, samples: Seq<IqSample>, from: int, k: int)
    requires
        control.len() == 5,
        0 <= k < 63,
    ensures
        ({
            let f = framed(control, samples, from);
            &&& f.len() == 512
            &&& f[0] == 0x7f && f[1] == 0x7f && f[2] == 0x7f
            &&& f.subrange(3, 8) == control
            &&& f.subrange(8 + 8 * k, 16 + 8 * k) == tx_block(
                tx_sample_or_silence(samples, from + k),
                true,
            )
        }),
{
    reveal(framed);
    lemma_frame_parts(control, samples, from, k);
}

proof fn lemma_packet_block(
    seq: u32,
    first: Seq<u8>,
    second: Seq<u8>,
    samples: Seq<IqSample>,
    p: Seq<u8>,
    k: int,
)
    requires
        first.len() == 5,
        second.len() == 5,
        0 <= k < 126,
        p == data_header(0x02, seq) + framed(first, samples, 0) + framed(
            second,
            samples,
            63,
        ),
    ensures
        p.len() == 1032,
        p.subrange(0, 8) == data_header(0x02, seq),
        p[8] == 0x7f && p[9] == 0x7f && p[10] == 0x7f,
        p[520] == 0x7f && p[521] == 0x7f && p[522] == 0x7f,
        p.subrange(11, 16) == first,
        p.subrange(523, 528) == second,
        ({
            let at = if k < 63 {
                16 + 8 * k
            } else {
                528 + 8 * (k - 63)
            };
            p.subrange(at, at + 8) == tx_block(tx_sample_or_silence(samples, k), true)
        }),
{
    let j: int = if k < 63 {
        k
    } else {
        k - 63
    };
    let h = data_header(0x02, seq);
    let a = framed(first, samples, 0);
    let b = framed(second, samples, 63);
    assert(h.len() == 8);
    lemma_framed_parts(first, samples, 0, j);
    lemma_framed_parts(second, samples, 63, j);
    lemma_packet_parts(h, a, b, j);
}

/// A packet to the radio: magic bytes, endpoint 2 and the number; then two frames of
/// three sync bytes, five control bytes and 63 blocks. Block `k` of the packet holds
/// sample `k`, or zeros where there is none, with Q of opposite sign.
pub proof fn lemma_transmit_packet_layout(
    seq: u32,
    tx_iq: &[IqSample],
    first: [u8; 5],
    second: [u8; 5],
    packet: Vec<u8>,
    k: int,
    i: int,
    q: int,
)
    requires
        call_ensures(build_tx_packet, (seq, tx_iq, first, second), packet),
        0 <= k < 126,
        k < tx_iq@.len() ==> is_closest(i, tx_iq@[k].i as int, 32_767) && is_closest(
            q,
            -tx_iq@[k].q,
            32_767,
        ),
        k >= tx_iq@.len() ==> i == 0 && q == 0,
    ensures
        ({
            let p = packet@;
            &&& p.len() == 1032
            &&& p[0] == 0xef && p[1] == 0xfe && p[2] == 1 && p[3] == 2
            &&& p[4] * 0x100_0000 + p[5] * 0x1_0000 + p[6] * 0x100 + p[7] == seq
            &&& p[8] == 0x7f && p[9] == 0x7f && p[10] == 0x7f
            &&& p[520] == 0x7f && p[521] == 0x7f && p[522] == 0x7f
            &&& p.subrange(11, 16) == first@
            &&& p.subrange(523, 528) == second@
            &&& is_block(
                p,
                if k < 63 {
                    16 + 8 * k
                } else {
                    528 + 8 * (k - 63)
                },
                i,
                q,
            )
        }),
{
    let p = packet@;
    let s = tx_sample_or_silence(tx_iq@, k);
    let j: int = if k < 63 {
        k
    } else {
        k - 63
    };
    assert(p == data_header(0x02, seq) + framed(first@, tx_iq@, 0)
        + framed(second@, tx_iq@, 63)) by {
        reveal(framed);
    }
    lemma_packet_block(seq, first@, second@, tx_iq@, p, k);
    lemma_block(s, true, i, q);
    let at: int = if k < 63 {
        16 + 8 * k
    } else {
        528 + 8 * (k - 63)
    };
    lemma_block_in_place(p, at, tx_block(s, true), i, q);
    lemma_header_parts(p, seq);
}

/// Control bytes of a command: the lowest bit of the first byte is the request to
/// transmit, the address is above it. The others carry what belongs to the address.
pub proof fn lemma_command_layout(
    address: u8,
    frequency: u64,
    rate_code: u8,
    ptt: bool,
    nddc: u8,
    attenuation: u8,
    drive: u8,
    cb: [u8; 5],
)
    requires
        call_ensures(
            build_control_bytes,
            (address, frequency, rate_code, ptt, nddc, attenuation, drive),
            cb,
        ),
    ensures
        cb@[0] == address + (if ptt && address % 2 == 0 {
            1int
        } else {
            0int
        }),
        address % 2 == 1 ==> cb@[1] == 0 && cb@[2] == 0 && cb@[3] == 0 && cb@[4] == 0,
        address == 0 ==> cb@[1] == rate_code % 4,
        address == 0 && nddc >= 1 ==> cb@[4] == 4 + 8 * ((nddc - 1) % 8),
        address == 0 && nddc == 0 ==> cb@[4] == 4,
        address == 0 ==> cb@[2] == 0 && cb@[3] == 0,
        address == 0x12 ==> cb@[1] == drive && cb@[2] == 0 && cb@[3] == 0 && cb@[4] == 0,
        address == 0x14 ==> cb@[1] == 0 && cb@[2] == 0 && cb@[3] == 0,
        address == 0x14 ==> cb@[4] == attenuation % 32,
        address == 0x10 || address > 0x14 ==> cb@[1] == 0 && cb@[2] == 0 && cb@[3] == 0 && cb@[4]
            == 0,
{
}

/// The frequency commands carry the frequency in four bytes, highest first, or the
/// highest number that fits.
pub proof fn lemma_frequency_command_layout(
    address: u8,
    frequency: u64,
    rate_code: u8,
    ptt: bool,
    nddc: u8,
    attenuation: u8,
    drive: u8,
    cb: [u8; 5],
)
    requires
        call_ensures(
            build_control_bytes,
            (address, frequency, rate_code, ptt, nddc, attenuation, drive),
            cb,
        ),
        address % 2 == 0,
        2 <= address <= 14,
    ensures
        cb@[1] * 0x100_0000 + cb@[2] * 0x1_0000 + cb@[3] * 0x100 + cb@[4] == if frequency
            > 0xffff_ffff {
            0xffff_ffff
        } else {
            frequency as int
        },
{
    let f = wire_frequency(frequency as int);
    lemma_be32_round_trip(f);
    let b = be32_bytes(f);
    assert(cb@[1] == b[0] && cb@[2] == b[1] && cb@[3] == b[2] && cb@[4] == b[3]);
}

#[verifier::opaque]
spec fn responded(s: P1Status, c: Seq<u8>) -> P1Status {
    s.with_response(c)
}

proof fn lemma_responded(s: P1Status, c: Seq<u8>)
    ensures
        ({
            let kind = c[0] as int / 2 % 64;
            let t = responded(s, c);
            &&& t.ptt <==> c[0] % 2 == 1
            &&& t.response_addr == 2 * kind
            &&& t.adc_overflow == if kind == 0 {
                c[1] as int
            } else {
                s.adc_overflow as int
            }
            &&& t.exciter_power == if kind == 4 {
                256 * c[1] + c[2]
            } else {
                s.exciter_power as int
            }
            &&& t.forward_power == if kind == 4 {
                256 * c[3] + c[4]
            } else {
                s.forward_power as int
            }
            &&& t.reverse_power == if kind == 8 {
                256 * c[1] + c[2]
            } else {
                s.reverse_power as int
            }
            &&& t.supply_voltage == if kind == 12 {
                256 * c[3] + c[4]
            } else {
                s.supply_voltage as int
            }
        }),
{
    reveal(responded);
}

/// The telemetry of a packet: that of both frames, the second one after the first.
pub proof fn lemma_packet_telemetry(data: &[u8], nddc: usize, frame: Option<P1RxFrame>)
    requires
        nddc <= 0xffff,
        call_ensures(parse_rx_packet, (data, nddc), frame),
        frame is Some,
    ensures
        ({
            let s = frame->0.status;
            let first = data@[11] as int / 2 % 64;
            let second = data@[523] as int / 2 % 64;
            let word = |at: int| 256 * data@[at] + data@[at + 1];
            &&& s.ptt <==> data@[523] % 2 == 1
            &&& s.response_addr == 2 * second
            &&& s.adc_overflow == if second == 0 {
                data@[524] as int
            } else if first == 0 {
                data@[12] as int
            } else {
                0
            }
            &&& s.exciter_power == if second == 4 {
                word(524)
            } else if first == 4 {
                word(12)
            } else {
                0
            }
            &&& s.forward_power == if second == 4 {
                word(526)
            } else if first == 4 {
                word(14)
            } else {
                0
            }
            &&& s.reverse_power == if second == 8 {
                word(524)
            } else if first == 8 {
                word(12)
            } else {
                0
            }
            &&& s.supply_voltage == if second == 12 {
                word(526)
            } else if first == 12 {
                word(14)
            } else {
                0
            }
        }),
{
    let a = control_at(data@, 8);
    let b = control_at(data@, 520);
    assert(a[0] == data@[11] && a[1] == data@[12] && a[2] == data@[13] && a[3] == data@[14] && a[4]
        == data@[15]);
    assert(b[0] == data@[523] && b[1] == data@[524] && b[2] == data@[525] && b[3] == data@[526]
        && b[4] == data@[527]);
    let zero = P1Status::zero();
    assert(frame->0.status == responded(responded(zero, a), b)) by {
        reveal(responded);
    }
    lemma_responded(zero, a);
    lemma_responded(responded(zero, a), b);
}

/// The names of radios are read in any case: two texts that differ in the case of letters
/// only name the same radio.
pub proof fn lemma_names_ignore_case(
    a: &str,
    b: &str,
    named_a: Option<HpsdrHw>,
    named_b: Option<HpsdrHw>,
)
    requires
        call_ensures(HpsdrHw::from_name, (a,), named_a),
        call_ensures(HpsdrHw::from_name, (b,), named_b),
        a@.len() == b@.len(),
        forall|k: int|
            0 <= k < a@.len() ==> #[trigger] a@[k] == b@[k] || ('A' <= a@[k] <= 'Z' && b@[k] as int
                == a@[k] as int + 32),
    ensures
        named_a == named_b,
{
    let lower = |c: char| ascii_lower(c);
    assert(a@.map_values(lower) =~= b@.map_values(lower));
}

/// A name with a 2 behind it is the smaller radio too; no other text names a radio.
pub proof fn lemma_radio_names(name: &str, named: Option<HpsdrHw>)
    requires
        call_ensures(HpsdrHw::from_name, (name,), named),
    ensures
        name@ == "hermeslite2"@ ==> named == Some(HpsdrHw::HermesLite),
        named is Some ==> {
            let n = name@.len();
            &&& n == 6 || n == 10 || n == 11
            &&& n == 6 <==> named == Some(HpsdrHw::Hermes)
        },
{
    reveal_strlit("hermes");
    reveal_strlit("hermeslite");
    reveal_strlit("hermeslite2");
    let lower = |c: char| ascii_lower(c);
    let text = name@.map_values(lower);
    assert(text.len() == name@.len());
    if name@ == "hermeslite2"@ {
        assert(text =~= "hermeslite2"@);
    }
}

} // verus!
