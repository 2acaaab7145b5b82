//! What holds between the host's side of a connection and the radio's.

use crate::emulator::echo::{silence, EchoSample};
use crate::emulator::protocol1::{
    host_control, host_samples, row_bytes, rows_bytes, ClientModel, PowerReading,
};
use crate::emulator::radio::HwInfo;
use crate::protocol::packets::{
    control_at, is_synced, row_len, rows_per_frame, sample_at, FRAME_LEN, TX_SAMPLES_PER_FRAME,
};
use crate::protocol::protocol1::{
    host_block, host_blocks, lemma_host_frame_len, rate_code, receivers_c4, with_mox,
    P1Model,
};
use crate::protocol::types::{
    be24_bytes, iq24_at, iq24_bytes, lemma_be24_round_trip, limited, rate_of_code, IqSample,
    FULL_SCALE_16, FULL_SCALE_24,
};
use crate::protocol::wire::{
    be16_bytes, be32_bytes, be32_value, bits16, lemma_be32_round_trip, zeros,
};
use vstd::prelude::*;

verus! {

proof fn lemma_row_part(samples: Seq<Vec<IqSample>>, row: int, nddc: nat, ddc: int)
    requires
        0 <= ddc < nddc,
    ensures
        row_bytes(samples, row, nddc).len() == 6 * nddc,
        row_bytes(samples, row, nddc).subrange(6 * ddc, 6 * ddc + 6) == iq24_bytes(
            samples[ddc]@[row],
            false,
        ),
    decreases nddc,
{
    let init = (nddc - 1) as nat;
    let all = row_bytes(samples, row, nddc);
    let part = row_bytes(samples, row, init);
    lemma_row_len(samples, row, init);
    if ddc < init {
        lemma_row_part(samples, row, init, ddc);
        assert(all.subrange(6 * ddc, 6 * ddc + 6) =~= part.subrange(6 * ddc, 6 * ddc + 6));
    } else {
        assert(all.subrange(6 * ddc, 6 * ddc + 6) =~= iq24_bytes(samples[ddc]@[row], false));
    }
}

proof fn lemma_row_len(samples: Seq<Vec<IqSample>>, row: int, nddc: nat)
    ensures
        row_bytes(samples, row, nddc).len() == 6 * nddc,
    decreases nddc,
{
    if nddc > 0 {
        lemma_row_len(samples, row, (nddc - 1) as nat);
    }
}

proof fn lemma_rows_part(samples: Seq<Vec<IqSample>>, nddc: int, rows: nat, row: int, ddc: int)
    requires
        0 <= ddc < nddc,
        0 <= row < rows,
    ensures
        rows_bytes(samples, nddc, rows).len() == rows * row_len(nddc),
        row * row_len(nddc) + 6 * ddc + 6 <= rows * row_len(nddc),
        rows_bytes(samples, nddc, rows).subrange(
            row * row_len(nddc) + 6 * ddc,
            row * row_len(nddc) + 6 * ddc + 6,
        ) == iq24_bytes(samples[ddc]@[row], false),
    decreases rows,
{
    let init = (rows - 1) as nat;
    let rl = row_len(nddc);
    let all = rows_bytes(samples, nddc, rows);
    let part = rows_bytes(samples, nddc, init);
    let last = row_bytes(samples, rows - 1, nddc as nat) + zeros(2);
    lemma_rows_total(samples, nddc, init);
    lemma_row_len(samples, rows - 1, nddc as nat);
    assert(init * rl + rl == rows * rl) by (nonlinear_arith)
        requires
            init == rows - 1,
    ;
    let at = row * rl + 6 * ddc;
    if row < init {
        lemma_rows_part(samples, nddc, init, row, ddc);
        assert(all.subrange(at, at + 6) =~= part.subrange(at, at + 6));
    } else {
        lemma_row_part(samples, row, nddc as nat, ddc);
        let own = row_bytes(samples, row, nddc as nat);
        assert(all.subrange(at, at + 6) =~= own.subrange(6 * ddc, 6 * ddc + 6));
    }
}

proof fn lemma_rows_total(samples: Seq<Vec<IqSample>>, nddc: int, rows: nat)
    requires
        nddc >= 0,
    ensures
        rows_bytes(samples, nddc, rows).len() == rows * row_len(nddc),
    decreases rows,
{
    if rows > 0 {
        lemma_rows_total(samples, nddc, (rows - 1) as nat);
        lemma_row_len(samples, rows - 1, nddc as nat);
        assert((rows - 1) * row_len(nddc) + row_len(nddc) == rows * row_len(nddc))
            by (nonlinear_arith);
    } else {
        assert(0 * row_len(nddc) == 0) by (nonlinear_arith);
    }
}

/// What the radio sends the host receives: each sample of a frame is read back
/// from its place, cut to full scale and with Q of opposite sign.
pub proof fn lemma_host_reads_samples(
    m: ClientModel,
    hw: HwInfo,
    power: PowerReading,
    samples: Seq<Vec<IqSample>>,
    row: int,
    ddc: int,
)
    requires
        m.wf(),
        0 <= ddc < m.nddc,
        0 <= row < rows_per_frame(m.nddc as int),
    ensures
        m.frame(hw, power, samples).len() == FRAME_LEN,
        is_synced(m.frame(hw, power, samples), 0),
        iq24_at(
            m.frame(hw, power, samples),
            sample_at(0, m.nddc as int, row, ddc),
        ) == (IqSample {
            i: limited(samples[ddc]@[row].i as int, FULL_SCALE_24 as int) as i32,
            q: (-limited(samples[ddc]@[row].q as int, FULL_SCALE_24 as int)) as i32,
        }),
{
    let n = m.nddc as int;
    let rows = rows_per_frame(n) as nat;
    let f = m.frame(hw, power, samples);
    let body = rows_bytes(samples, n, rows);
    let s = samples[ddc]@[row];
    lemma_rows_part(samples, n, rows, row, ddc);
    assert(rows * row_len(n) <= 504) by (nonlinear_arith)
        requires
            rows == 504int / row_len(n),
            row_len(n) > 0,
    ;
    let at = row * row_len(n) + 6 * ddc;
    let b = iq24_bytes(s, false);
    assert(m.telemetry(hw, power).len() == 4);
    assert(f.subrange(8 + at, 8 + at + 6) =~= body.subrange(at, at + 6));
    let i = limited(s.i as int, FULL_SCALE_24 as int);
    let q = limited(s.q as int, FULL_SCALE_24 as int);
    lemma_be24_round_trip(i);
    lemma_be24_round_trip(q);
    let own = f.subrange(8 + at, 8 + at + 6);
    assert(own == b);
    assert(f[8 + at] == own[0] && f[9 + at] == own[1] && f[10 + at] == own[2]);
    assert(f[11 + at] == own[3] && f[12 + at] == own[4] && f[13 + at] == own[5]);
    assert(b[0] == be24_bytes(i)[0] && b[1] == be24_bytes(i)[1] && b[2] == be24_bytes(i)[2]);
    assert(b[3] == be24_bytes(q)[0] && b[4] == be24_bytes(q)[1] && b[5] == be24_bytes(q)[2]);
}

/// What the radio measures the host learns: after a frame the host's telemetry
/// shows the transmit state and the readings of that frame.
pub proof fn lemma_host_reads_telemetry(
    m: ClientModel,
    hw: HwInfo,
    power: PowerReading,
    samples: Seq<Vec<IqSample>>,
    host: P1Model,
)
    requires
        m.wf(),
    ensures
        ({
            let seen = host.status_with(control_at(m.frame(hw, power, samples), 0));
            let on = m.ptt && m.tx_drive > 0;
            &&& seen.ptt == m.ptt
            &&& m.control_idx == 1 ==> seen.exciter_power == (if on {
                power.exciter
            } else {
                0
            }) && seen.forward_power == (if on {
                power.forward
            } else {
                0
            })
            &&& m.control_idx == 2 ==> seen.reverse_power == (if on {
                power.reverse
            } else {
                0
            }) && seen.supply_voltage == 3200
            &&& m.control_idx == 3 ==> seen.pa_current == (if m.ptt {
                m.tx_drive * 5
            } else {
                0
            })
        }),
{
    let f = m.frame(hw, power, samples);
    let t = m.telemetry(hw, power);
    let c = control_at(f, 0);
    assert(t.len() == 4);
    assert(c[0] == f[3] && c[1] == t[0] && c[2] == t[1] && c[3] == t[2] && c[4] == t[3]);
}

proof fn lemma_host_blocks_part(samples: Seq<IqSample>, cw: bool, k: int)
    requires
        0 <= k < samples.len(),
    ensures
        host_blocks(samples, cw).len() == 8 * samples.len(),
        host_blocks(samples, cw).subrange(8 * k, 8 * k + 8) == host_block(samples[k], cw),
    decreases samples.len(),
{
    let init = samples.drop_last();
    let all = host_blocks(samples, cw);
    if init.len() > 0 {
        lemma_host_blocks_part(init, cw, 0);
    } else {
        assert(host_blocks(init, cw).len() == 0);
    }
    assert(host_block(samples.last(), cw).len() == 8);
    if k < init.len() {
        lemma_host_blocks_part(init, cw, k);
        assert(all.subrange(8 * k, 8 * k + 8) =~= host_blocks(init, cw).subrange(
            8 * k,
            8 * k + 8,
        ));
    } else {
        assert(all.subrange(8 * k, 8 * k + 8) =~= host_block(samples[k], cw));
    }
}

/// What the host transmits the radio hears: the samples of a frame are read
/// back, cut to full scale and with Q of opposite sign, and followed by silence.
pub proof fn lemma_radio_hears_samples(m: P1Model, k: int)
    requires
        0 <= k < TX_SAMPLES_PER_FRAME,
    ensures
        host_samples(m.host_frame(), 0)[k] == (if k < m.frame_tx().len() {
            EchoSample {
                i: limited(m.frame_tx()[k].i as int, FULL_SCALE_16 as int) as i64,
                q: limited(-m.frame_tx()[k].q, FULL_SCALE_16 as int) as i64,
            }
        } else {
            silence()
        }),
{
    let f = m.host_frame();
    let tx = m.frame_tx();
    let body = host_blocks(tx, m.cw_mode);
    lemma_host_frame_len(m);
    if tx.len() > 0 {
        lemma_host_blocks_part(tx, m.cw_mode, 0);
    }
    let at = 8 + 8 * k;
    if k < tx.len() {
        lemma_host_blocks_part(tx, m.cw_mode, k);
        let own = host_block(tx[k], m.cw_mode);
        assert(body.subrange(8 * k, 8 * k + 8) == own);
        assert(f[at + 4] == body[8 * k + 4] && f[at + 5] == body[8 * k + 5]);
        assert(f[at + 6] == body[8 * k + 6] && f[at + 7] == body[8 * k + 7]);
        let i = be16_bytes(bits16(limited(tx[k].i as int, FULL_SCALE_16 as int)));
        let q = be16_bytes(bits16(limited(-tx[k].q, FULL_SCALE_16 as int)));
        assert(body.subrange(8 * k, 8 * k + 8)[4] == body[8 * k + 4]);
        assert(body.subrange(8 * k, 8 * k + 8)[5] == body[8 * k + 5]);
        assert(body.subrange(8 * k, 8 * k + 8)[6] == body[8 * k + 6]);
        assert(body.subrange(8 * k, 8 * k + 8)[7] == body[8 * k + 7]);
        assert(own[4] == i[0] && own[5] == i[1] && own[6] == q[0] && own[7] == q[1]);
    } else {
        assert(f[at + 4] == 0 && f[at + 5] == 0 && f[at + 6] == 0 && f[at + 7] == 0);
    }
}

/// The control bytes of a frame from the host as the radio reads them.
pub open spec fn sent_control(host: P1Model, idx: int) -> Seq<u8> {
    let c = host.control_command(idx);
    seq![with_mox(c[0], host.ptt), c[1], c[2], c[3], c[4]]
}

proof fn lemma_setup_reaches(host: P1Model, radio: ClientModel)
    requires
        host.wf(),
    ensures
        ({
            let after = radio.controlled(sent_control(host, 0));
            &&& after.ptt == host.ptt
            &&& after.sample_rate == rate_of_code(rate_code(host.sample_rate) as int)->0
            &&& host.nddc <= 8 ==> after.nddc == host.nddc
        }),
{
    let s = sent_control(host, 0);
    assert(s[0] - s[0] % 2 == 0);
    assert(s[1] == rate_code(host.sample_rate));
    assert(s[1] as int % 4 == s[1]);
    assert(s[4] == receivers_c4(host.nddc));
}

proof fn lemma_frequency_read(radio: ClientModel, s: Seq<u8>, idx: int, hz: u32, ptt: bool)
    requires
        radio.wf(),
        1 <= idx <= 8,
        s[0] == 2 * idx + (if ptt {
            1int
        } else {
            0
        }),
        be32_value(s, 1) == hz,
    ensures
        radio.controlled(s).ptt == ptt,
        idx == 1 ==> radio.controlled(s).tx_frequency == hz,
        2 <= idx ==> radio.controlled(s).rx_frequencies[idx - 2] == hz,
{
    let addr = s[0] - s[0] % 2;
    assert(addr == 2 * idx);
    if idx > 1 {
        assert((addr - 0x04) / 2 == idx - 2);
    }
}

proof fn lemma_frequency_reaches(host: P1Model, radio: ClientModel, idx: int, hz: u32)
    requires
        radio.wf(),
        1 <= idx <= 8,
        host.control_command(idx) == seq![(2 * idx) as u8] + be32_bytes(hz),
    ensures
        ({
            let after = radio.controlled(sent_control(host, idx));
            &&& after.ptt == host.ptt
            &&& idx == 1 ==> after.tx_frequency == hz
            &&& 2 <= idx ==> after.rx_frequencies[idx - 2] == hz
        }),
{
    let c = host.control_command(idx);
    let s = sent_control(host, idx);
    lemma_be32_round_trip(hz);
    let f = be32_bytes(hz);
    assert(c[1] == f[0] && c[2] == f[1] && c[3] == f[2] && c[4] == f[3]);
    assert(s[1] == c[1] && s[2] == c[2] && s[3] == c[3] && s[4] == c[4]);
    assert(be32_value(s, 1) == be32_value(f, 0));
    lemma_frequency_read(radio, s, idx, hz, host.ptt);
}

proof fn lemma_drive_reaches(host: P1Model, radio: ClientModel)
    requires
        host.wf(),
    ensures
        ({
            let after = radio.controlled(sent_control(host, 9));
            &&& after.ptt == host.ptt
            &&& after.tx_drive == host.tx_drive
            &&& after.pa_enabled == (host.hw_type is HermesLite)
        }),
{
    let s = sent_control(host, 9);
    assert(s[0] - s[0] % 2 == 0x12);
    assert(s[1] == host.tx_drive);
}

proof fn lemma_request_reaches(host: P1Model, radio: ClientModel, idx: int)
    requires
        host.wf(),
        10 <= idx < 13,
    ensures
        radio.controlled(sent_control(host, idx)).ptt == host.ptt,
{
    let s = sent_control(host, idx);
    assert(s[0] - s[0] % 2 >= 0x14);
}

/// What the host sets the radio does: each command of the rotation brings its
/// setting over, and every one brings the transmit request.
pub proof fn lemma_commands_reach_the_radio(host: P1Model, radio: ClientModel, idx: int)
    requires
        host.wf(),
        radio.wf(),
        0 <= idx < 13,
    ensures
        ({
            let after = radio.controlled(sent_control(host, idx));
            &&& after.ptt == host.ptt
            &&& idx == 0 ==> after.sample_rate == rate_of_code(
                rate_code(host.sample_rate) as int,
            )->0
            &&& idx == 0 && host.nddc <= 8 ==> after.nddc == host.nddc
            &&& idx == 1 ==> after.tx_frequency == host.tx_frequency
            &&& 2 <= idx <= 8 && idx - 2 < host.nddc ==> after.rx_frequencies[idx - 2]
                == host.rx_frequencies[idx - 2]
            &&& idx == 9 ==> after.tx_drive == host.tx_drive && after.pa_enabled == (
            host.hw_type is HermesLite)
        }),
{
    if idx == 0 {
        lemma_setup_reaches(host, radio);
    } else if idx == 1 {
        lemma_frequency_reaches(host, radio, idx, host.tx_frequency);
    } else if idx <= 8 {
        let hz = if idx - 2 < host.nddc {
            host.rx_frequencies[idx - 2]
        } else {
            0
        };
        lemma_frequency_reaches(host, radio, idx, hz);
    } else if idx == 9 {
        lemma_drive_reaches(host, radio);
    } else {
        lemma_request_reaches(host, radio, idx);
    }
}

/// The frame that carries a command is read with exactly its control bytes.
pub proof fn lemma_radio_reads_control(host: P1Model)
    requires
        host.wf(),
    ensures
        is_synced(host.host_frame(), 0),
        host_control(host.host_frame(), 0) == sent_control(host, host.control_idx),
{
    assert(host_control(host.host_frame(), 0) =~= sent_control(host, host.control_idx));
}

} // verus!
