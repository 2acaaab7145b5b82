//! What the host sends to a radio, and what it takes from its answers.

use crate::protocol::format_laws::{holds16, holds24, is_closest};
use crate::protocol::packets::{control_at, frame_samples, rows_per_frame, sample_at};
use crate::protocol::protocol1::{
    host_block, host_blocks, rate_code, receivers_c4, with_mox, P1Command, P1Model,
    Protocol1Client, SubframeReport,
};
use crate::protocol::types::{
    limited, rate_of_code, sample_rate_to_p1_code, IqSample, RadioStatus,
};
use crate::protocol::wire::{be16_bytes, be32_bytes, bits16, lemma_be32_round_trip};
use vstd::prelude::*;

verus! {

/// Four bytes of a command as a number, highest first.
pub open spec fn carried(c: Seq<u8>) -> int {
    c[1] * 0x100_0000 + c[2] * 0x1_0000 + c[3] * 0x100 + c[4]
}

proof fn lemma_carried(c: Seq<u8>, address: u8, v: u32)
    requires
        c == seq![address] + be32_bytes(v),
    ensures
        c[0] == address,
        carried(c) == v,
{
    lemma_be32_round_trip(v);
    let b = be32_bytes(v);
    assert(c[1] == b[0] && c[2] == b[1] && c[3] == b[2] && c[4] == b[3]);
}

/// The commands go round in thirteen steps. The first sets the rate and the number of
/// receivers, the second the transmit frequency, the next seven the receive frequencies
/// as far as there are receivers, the tenth the drive; each has its address.
pub proof fn lemma_rotation_carries_the_settings(
    c: &mut Protocol1Client,
    command: [u8; 5],
    code: u8,
)
    requires
        call_ensures(Protocol1Client::next_control_command, (c,), command),
        call_ensures(sample_rate_to_p1_code, (old(c)@.sample_rate,), code),
        old(c)@.wf(),
    ensures
        ({
            let m = old(c)@;
            let k = m.control_idx;
            let b = command@;
            let lite = m.hw_type is HermesLite;
            &&& final(c)@.control_idx == if k == 12 {
                0
            } else {
                k + 1
            }
            &&& final(c)@ == (P1Model { control_idx: final(c)@.control_idx, ..m })
            &&& k <= 8 ==> b[0] == 2 * k
            &&& k == 9 ==> b[0] == 0x12 && b[1] == m.tx_drive && b[2] == (if lite {
                8int
            } else {
                0int
            })
            &&& k == 10 ==> b[0] == 0x14 && b[1] == 0 && b[2] == 0 && b[3] == 0
            &&& k == 11 ==> b[0] == 0x16 && carried(b) == 0
            &&& k == 12 ==> b[0] == 0x1c && b[1] == 0 && b[2] == 0 && b[4] == 0
            &&& k == 0 ==> b[1] == code && b[3] == 0
            &&& k == 0 ==> b[4] == 4 + 8 * ((m.nddc - 1) % 8)
            &&& k == 1 ==> carried(b) == m.tx_frequency
            &&& 2 <= k <= 8 ==> carried(b) == if k - 2 < m.nddc {
                m.rx_frequencies[k - 2] as int
            } else {
                0
            }
        }),
{
    let m = old(c)@;
    let k = m.control_idx;
    let b = command@;
    assert(k + 1 < 13 ==> (k + 1) % 13 == k + 1);
    assert(rate_of_code(1u8 as int) == Some(96_000u32));
    assert(rate_of_code(2u8 as int) == Some(192_000u32));
    assert(rate_of_code(3u8 as int) == Some(384_000u32));
    if k == 1 {
        lemma_carried(b, 2, m.tx_frequency);
    } else if 2 <= k <= 8 {
        let v = if k - 2 < m.nddc {
            m.rx_frequencies[k - 2]
        } else {
            0
        };
        lemma_carried(b, (4 + 2 * (k - 2)) as u8, v);
    }
}

proof fn lemma_host_blocks_at(samples: Seq<IqSample>, cw: bool, k: int)
    requires
        0 <= k <= samples.len(),
    ensures
        host_blocks(samples, cw).len() == 8 * samples.len(),
        k < samples.len() ==> host_blocks(samples, cw).subrange(8 * k, 8 * k + 8) == host_block(
            samples[k],
            cw,
        ),
    decreases samples.len(),
{
    if samples.len() > 0 {
        let init = samples.drop_last();
        let all = host_blocks(samples, cw);
        let part = host_blocks(init, cw);
        let last = host_block(samples.last(), cw);
        assert(last.len() == 8);
        if k < init.len() {
            lemma_host_blocks_at(init, cw, k);
            assert(all.subrange(8 * k, 8 * k + 8) =~= part.subrange(8 * k, 8 * k + 8));
        } else {
            lemma_host_blocks_at(init, cw, init.len() as int);
            if k < samples.len() {
                assert(all.subrange(8 * k, 8 * k + 8) =~= last);
            }
        }
    }
}

/// A block of a transmit sample: I for the left and the right ear, or silence while the
/// transmission is keyed, then I and Q for the transmitter.
pub open spec fn is_host_block(b: Seq<u8>, at: int, cw: bool, i: int, q: int) -> bool {
    &&& !cw ==> holds16(b, at, i) && holds16(b, at + 2, i)
    &&& cw ==> b[at] == 0 && b[at + 1] == 0 && b[at + 2] == 0 && b[at + 3] == 0
    &&& holds16(b, at + 4, i)
    &&& holds16(b, at + 6, q)
}

proof fn lemma_host_block(s: IqSample, cw: bool, i: int, q: int)
    requires
        is_closest(i, s.i as int, 32_767),
        is_closest(q, -s.q, 32_767),
    ensures
        host_block(s, cw).len() == 8,
        is_host_block(host_block(s, cw), 0, cw, i, q),
{
    let b = host_block(s, cw);
    let bi = be16_bytes(bits16(limited(s.i as int, 32_767)));
    let bq = be16_bytes(bits16(limited(-s.q, 32_767)));
    assert(bi.len() == 2 && bq.len() == 2);
    assert(b[4] == bi[0] && b[5] == bi[1] && b[6] == bq[0] && b[7] == bq[1]);
    if !cw {
        assert(b[0] == bi[0] && b[1] == bi[1] && b[2] == bi[0] && b[3] == bi[1]);
    }
}

/// Number of transmit samples that a frame takes: none while receiving, else up to 63.
pub open spec fn taken(m: P1Model) -> int {
    if !m.ptt {
        0
    } else if m.tx_queue.len() < 63 {
        m.tx_queue.len() as int
    } else {
        63
    }
}

proof fn lemma_frame_is(m: P1Model, k: int)
    requires
        0 <= k < 63,
    ensures
        ({
            let f = m.host_frame();
            &&& f.len() == 512
            &&& f[0] == 0x7f && f[1] == 0x7f && f[2] == 0x7f
            &&& k < taken(m) ==> f.subrange(8 + 8 * k, 16 + 8 * k) == host_block(
                m.tx_queue[k],
                m.cw_mode,
            )
            &&& k >= taken(m) ==> forall|x: int|
                8 + 8 * k <= x < 16 + 8 * k ==> #[trigger] f[x] == 0
        }),
{
    let tx = m.frame_tx();
    assert(tx.len() == taken(m));
    let body = host_blocks(tx, m.cw_mode);
    lemma_host_blocks_at(tx, m.cw_mode, if k < tx.len() {
        k
    } else {
        tx.len() as int
    });
    let f = m.host_frame();
    if k < taken(m) {
        assert(tx[k] == m.tx_queue[k]);
        assert(f.subrange(8 + 8 * k, 16 + 8 * k) =~= body.subrange(8 * k, 8 * k + 8));
    }
}

/// A frame to the radio: three bytes 0x7f, the command of the rotation with the transmit
/// request in the lowest bit, and the oldest samples that wait, with Q of opposite sign
/// and cut to full scale; zeros follow.
pub proof fn lemma_host_frame_layout(
    c: &mut Protocol1Client,
    out: &mut Vec<u8>,
    k: int,
    i: int,
    q: int,
)
    requires
        call_ensures(Protocol1Client::pack_host_subframe, (c, out), ()),
        old(c)@.wf(),
        0 <= k < 63,
        k < taken(old(c)@) ==> is_closest(i, old(c)@.tx_queue[k].i as int, 32_767) && is_closest(
            q,
            -old(c)@.tx_queue[k].q,
            32_767,
        ),
    ensures
        ({
            let m = old(c)@;
            let n = old(out)@.len() as int;
            let f = final(out)@.subrange(n, n + 512);
            let command = m.control_command(m.control_idx);
            &&& final(out)@.len() == n + 512
            &&& f[0] == 0x7f && f[1] == 0x7f && f[2] == 0x7f
            &&& f[3] == command[0] - command[0] % 2 + (if m.ptt {
                1int
            } else {
                0int
            })
            &&& f[4] == command[1] && f[5] == command[2] && f[6] == command[3] && f[7]
                == command[4]
            &&& k < taken(m) ==> is_host_block(f, 8 + 8 * k, m.cw_mode, i, q)
            &&& k >= taken(m) ==> forall|x: int|
                8 + 8 * k <= x < 16 + 8 * k ==> #[trigger] f[x] == 0
            &&& final(c)@.tx_queue == m.tx_queue.subrange(taken(m), m.tx_queue.len() as int)
        }),
{
    let m = old(c)@;
    let n = old(out)@.len() as int;
    lemma_frame_is(m, k);
    let f = final(out)@.subrange(n, n + 512);
    assert(f =~= m.host_frame());
    assert(m.frame_tx().len() == taken(m));
    if k < taken(m) {
        let block = host_block(m.tx_queue[k], m.cw_mode);
        lemma_host_block(m.tx_queue[k], m.cw_mode, i, q);
        let at = 8 + 8 * k;
        let b = f.subrange(at, at + 8);
        assert(b == block);
        assert(b[0] == f[at] && b[1] == f[at + 1] && b[2] == f[at + 2] && b[3] == f[at + 3]);
        assert(b[4] == f[at + 4] && b[5] == f[at + 5] && b[6] == f[at + 6] && b[7] == f[at + 7]);
    }
}

/// Ending a transmission drops the samples that wait; beginning one starts the pacing
/// anew. There is always at least one receiver, and frequencies are kept for twelve.
pub proof fn lemma_commands_set_what_they_say(
    c: &mut Protocol1Client,
    cmd: P1Command,
    packet: Option<Vec<u8>>,
)
    requires
        call_ensures(Protocol1Client::handle_command, (c, cmd), packet),
        old(c)@.wf(),
    ensures
        ({
            let m = old(c)@;
            let n = final(c)@;
            &&& cmd == P1Command::SetPtt(false) ==> !n.ptt && n.tx_queue.len() == 0
            &&& cmd == P1Command::SetPtt(true) ==> n.ptt && n.tx_queue == m.tx_queue
            &&& cmd == P1Command::SetPtt(true) && !m.ptt ==> n.fifo == 0 && n.last_send_ns is None
            &&& cmd == P1Command::SetPtt(true) && m.ptt ==> n == m
            &&& cmd matches P1Command::SetNddc(count) ==> n.nddc >= 1 && (count >= 1 ==> n.nddc
                == count)
            &&& cmd matches P1Command::SetTxFrequency(hz) ==> n == (P1Model {
                tx_frequency: hz,
                ..m
            })
            &&& cmd matches P1Command::SetSampleRate(hz) ==> n == (P1Model { sample_rate: hz, ..m })
            &&& cmd matches P1Command::SetTxDrive(drive) ==> n == (P1Model { tx_drive: drive, ..m })
            &&& cmd matches P1Command::SetCwMode(cw) ==> n == (P1Model { cw_mode: cw, ..m })
            &&& cmd matches P1Command::SetRxAttenuation(db) ==> n == (P1Model {
                rx_attenuation: db,
                ..m
            })
            &&& cmd matches P1Command::SetRxFrequency { ddc, freq_hz } ==> (ddc < 12
                ==> n.rx_frequencies[ddc as int] == freq_hz) && forall|d: int|
                0 <= d < 12 && d != ddc ==> #[trigger] n.rx_frequencies[d] == m.rx_frequencies[d]
            &&& cmd is Stop ==> n == m
            &&& packet is Some <==> cmd is Stop
        }),
{
}

/// A frame from the radio is taken in if it starts with three bytes 0x7f: its control
/// bytes hold the PTT contact in the lowest bit and above it the kind of telemetry. A
/// kind that is not above the last one completes a round, which is then reported.
pub proof fn lemma_radio_telemetry_is_taken_in(
    c: &mut Protocol1Client,
    data: &[u8],
    at: usize,
    report: Option<SubframeReport>,
)
    requires
        call_ensures(Protocol1Client::parse_radio_subframe, (c, data, at), report),
        old(c)@.wf(),
        at + 512 <= data@.len(),
    ensures
        ({
            let d = data@;
            let a = at as int;
            let synced = d[a] == 0x7f && d[a + 1] == 0x7f && d[a + 2] == 0x7f;
            let kind = d[a + 3] as int / 2 % 64;
            let was = old(c)@.status;
            let now = final(c)@.status;
            &&& report is Some <==> synced
            &&& !synced ==> final(c)@ == old(c)@
            &&& synced ==> {
                &&& now.ptt <==> d[a + 3] % 2 == 1
                &&& now.adc_overflow == if kind == 0 {
                    d[a + 4] as int
                } else {
                    was.adc_overflow as int
                }
                &&& now.exciter_power == if kind == 4 {
                    256 * d[a + 4] + d[a + 5]
                } else {
                    was.exciter_power as int
                }
                &&& now.forward_power == if kind == 4 {
                    256 * d[a + 6] + d[a + 7]
                } else {
                    was.forward_power as int
                }
                &&& now.reverse_power == if kind == 8 {
                    256 * d[a + 4] + d[a + 5]
                } else {
                    was.reverse_power as int
                }
                &&& now.supply_voltage == if kind == 8 {
                    256 * d[a + 6] + d[a + 7]
                } else {
                    was.supply_voltage as int
                }
                &&& now.pa_current == if kind == 12 {
                    256 * d[a + 4] + d[a + 5]
                } else {
                    was.pa_current as int
                }
                &&& final(c)@.last_status_addr == Some((2 * kind) as u8)
            }
            &&& report matches Some(r) ==> (r.status is Some <==> old(c)@.last_status_addr is Some
                && 2 * kind <= old(c)@.last_status_addr->0)
            &&& report matches Some(r) ==> (r.status matches Some(s) ==> s == (
            RadioStatus { ptt: d[a + 3] % 2 == 1, ..was }))
        }),
{
    let b = control_at(data@, at as int);
    let d = data@;
    let a = at as int;
    assert(b[0] == d[a + 3] && b[1] == d[a + 4] && b[2] == d[a + 5] && b[3] == d[a + 6] && b[4]
        == d[a + 7]);
}

/// The samples that a frame reports: as many rows as fit into 504 bytes, each of six
/// bytes for each receiver and two more.
pub proof fn lemma_radio_samples_are_reported(
    c: &mut Protocol1Client,
    data: &[u8],
    at: usize,
    report: Option<SubframeReport>,
    rows: int,
    ddc: int,
    row: int,
)
    requires
        call_ensures(Protocol1Client::parse_radio_subframe, (c, data, at), report),
        old(c)@.wf(),
        report is Some,
        rows >= 0,
        rows * (6 * old(c)@.nddc + 2) <= 504 < (rows + 1) * (6 * old(c)@.nddc + 2),
        0 <= ddc < old(c)@.nddc,
        0 <= row < rows,
    ensures
        ({
            let place = at + 8 + row * (6 * old(c)@.nddc + 2) + 6 * ddc;
            let samples = report->0.samples@;
            &&& samples.len() == old(c)@.nddc
            &&& samples[ddc]@.len() == rows
            &&& holds24(data@, place, samples[ddc]@[row].i as int)
            &&& holds24(data@, place + 3, -samples[ddc]@[row].q)
        }),
{
    let n = old(c)@.nddc as int;
    assert(rows == 504int / (6 * n + 2)) by (nonlinear_arith)
        requires
            rows >= 0,
            n >= 1,
            rows * (6 * n + 2) <= 504 < (rows + 1) * (6 * n + 2),
    ;
    assert(rows == rows_per_frame(n));
    let samples = report->0.samples@;
    assert(samples[ddc]@ == frame_samples(data@, at as int, n, ddc, rows));
    assert(sample_at(at as int, n, row, ddc) == at + 8 + row * (6 * n + 2) + 6 * ddc);
}

/// Starting a radio: first the request to start, then control packets that set the rate
/// and the number of receivers, the transmit frequency, the frequency of each of up to
/// eight receivers, and the drive. Each also carries rate and receivers in its second
/// frame.
pub proof fn lemma_start_sets_the_radio_up(
    c: &mut Protocol1Client,
    sent: usize,
    packet: Option<Vec<u8>>,
    code: u8,
)
    requires
        call_ensures(Protocol1Client::start, (c, sent), packet),
        call_ensures(sample_rate_to_p1_code, (old(c)@.sample_rate,), code),
        old(c)@.wf(),
    ensures
        ({
            let m = old(c)@;
            let receivers = if m.nddc > 8 {
                8
            } else {
                m.nddc as int
            };
            let p = packet->0@;
            let b = p.subrange(11, 16);
            let mox = if m.ptt {
                1int
            } else {
                0int
            };
            &&& packet is Some <==> sent <= 3 + receivers
            &&& sent == 0 ==> p.len() == 64 && p[0] == 0xef && p[1] == 0xfe && p[2] == 4 && p[3]
                == 1
            &&& sent > 0 ==> final(c)@.running
            &&& 1 <= sent <= 3 + receivers ==> {
                &&& p.len() == 1032
                &&& p[0] == 0xef && p[1] == 0xfe && p[2] == 1 && p[3] == 2
                &&& p[4] * 0x100_0000 + p[5] * 0x1_0000 + p[6] * 0x100 + p[7] == m.tx_seq
                &&& p[8] == 0x7f && p[9] == 0x7f && p[10] == 0x7f
                &&& p[520] == 0x7f && p[521] == 0x7f && p[522] == 0x7f
                &&& p[523] == mox && p[524] == code
                &&& m.nddc <= 8 ==> p[527] == 4 + 8 * (m.nddc - 1)
            }
            &&& sent == 1 ==> b[0] == mox && b[1] == code
            &&& sent == 1 && m.nddc <= 8 ==> b[4] == 4 + 8 * (m.nddc - 1)
            &&& sent == 2 ==> b[0] == 2 + mox && carried(b) == m.tx_frequency
            &&& 3 <= sent < 3 + receivers ==> b[0] == 4 + 2 * (sent - 3) + mox && carried(b)
                == m.rx_frequencies[sent - 3]
            &&& sent == 3 + receivers ==> b[0] == 0x12 + mox && b[1] == m.tx_drive && b[2] == if
                m.hw_type is HermesLite {
                8int
            } else {
                0int
            }
        }),
{
    let m = old(c)@;
    let receivers = m.configured();
    assert(rate_of_code(1u8 as int) == Some(96_000u32));
    assert(rate_of_code(2u8 as int) == Some(192_000u32));
    assert(rate_of_code(3u8 as int) == Some(384_000u32));
    if 1 <= sent <= 3 + receivers {
        let command = m.config_command(sent - 1);
        let p = packet->0@;
        lemma_control_packet_parts(m, command);
        if sent == 2 {
            lemma_carried(command, 2, m.tx_frequency);
        } else if 3 <= sent < 3 + receivers {
            lemma_carried(command, (4 + 2 * (sent - 3)) as u8, m.rx_frequencies[sent - 3]);
        }
    }
}

proof fn lemma_control_packet_parts(m: P1Model, c: Seq<u8>)
    requires
        c.len() == 5,
    ensures
        ({
            let p = m.control_packet(c);
            &&& p.len() == 1032
            &&& p[0] == 0xef && p[1] == 0xfe && p[2] == 1 && p[3] == 2
            &&& p[4] * 0x100_0000 + p[5] * 0x1_0000 + p[6] * 0x100 + p[7] == m.tx_seq
            &&& p[8] == 0x7f && p[9] == 0x7f && p[10] == 0x7f
            &&& p[11] == with_mox(c[0], m.ptt)
            &&& p[12] == c[1] && p[13] == c[2] && p[14] == c[3] && p[15] == c[4]
            &&& p[520] == 0x7f && p[521] == 0x7f && p[522] == 0x7f
            &&& p[523] == with_mox(0, m.ptt)
            &&& p[524] == rate_code(m.sample_rate)
            &&& p[527] == receivers_c4(m.nddc)
        }),
{
    lemma_be32_round_trip(m.tx_seq);
    let p = m.control_packet(c);
    let b = be32_bytes(m.tx_seq);
    assert(p[4] == b[0] && p[5] == b[1] && p[6] == b[2] && p[7] == b[3]);
}

/// A control packet carries one command in its first frame, with the transmit request,
/// rate and receivers in its second, and no samples; its number is the next one.
pub proof fn lemma_control_packet_layout(
    c: &mut Protocol1Client,
    command: [u8; 5],
    packet: Vec<u8>,
    code: u8,
    k: int,
)
    requires
        call_ensures(Protocol1Client::control_packet, (c, command), packet),
        call_ensures(sample_rate_to_p1_code, (old(c)@.sample_rate,), code),
        command@[0] % 2 == 0,
        old(c)@.nddc >= 1,
    ensures
        ({
            let p = packet@;
            let m = old(c)@;
            let mox = if m.ptt {
                1int
            } else {
                0int
            };
            &&& p.len() == 1032
            &&& p[0] == 0xef && p[1] == 0xfe && p[2] == 1 && p[3] == 2
            &&& p[4] * 0x100_0000 + p[5] * 0x1_0000 + p[6] * 0x100 + p[7] == m.tx_seq
            &&& p[11] == command@[0] + mox
            &&& 1 <= k < 5 ==> p[11 + k] == command@[k]
            &&& p[523] == mox && p[524] == code
            &&& m.nddc <= 8 ==> p[527] == 4 + 8 * (m.nddc - 1)
            &&& 16 <= k < 520 || 528 <= k < 1032 ==> p[k] == 0
            &&& final(c)@.tx_seq == if m.tx_seq == 0xffff_ffff {
                0
            } else {
                m.tx_seq + 1
            }
        }),
{
    assert(rate_of_code(1u8 as int) == Some(96_000u32));
    assert(rate_of_code(2u8 as int) == Some(192_000u32));
    assert(rate_of_code(3u8 as int) == Some(384_000u32));
    lemma_control_packet_parts(old(c)@, command@);
}

/// The request to stop has 64 bytes: the magic ones, 4, and zeros.
pub proof fn lemma_stop_request_layout(c: Protocol1Client, packet: Vec<u8>, k: int)
    requires
        call_ensures(Protocol1Client::stop, (&c,), packet),
    ensures
        packet@.len() == 64,
        packet@[0] == 0xef && packet@[1] == 0xfe && packet@[2] == 4,
        3 <= k < 64 ==> packet@[k] == 0,
{
}

/// More samples are wanted while transmitting with fewer than a frame takes.
pub proof fn lemma_samples_are_wanted_for_a_frame(c: Protocol1Client, wanted: bool)
    requires
        call_ensures(Protocol1Client::wants_samples, (&c,), wanted),
    ensures
        wanted <==> c@.ptt && c@.tx_queue.len() < 63,
{
}

/// A frame holds as many rows as fit into 504 bytes, for at most eight receivers.
pub proof fn lemma_rows_of_a_frame(c: Protocol1Client, n: usize)
    requires
        call_ensures(Protocol1Client::samples_per_subframe, (&c,), n),
        c@.nddc >= 1,
    ensures
        ({
            let receivers = if c@.nddc > 8 {
                8
            } else {
                c@.nddc as int
            };
            n * (6 * receivers + 2) <= 504 < (n + 1) * (6 * receivers + 2)
        }),
{
    let receivers: int = if c@.nddc > 8 {
        8
    } else {
        c@.nddc as int
    };
    let rows = n as int;
    assert(rows * (6 * receivers + 2) <= 504 < (rows + 1) * (6 * receivers + 2))
        by (nonlinear_arith)
        requires
            rows == 504int / (6 * receivers + 2),
            receivers >= 1,
    ;
}

/// Samples join the end of the transmit queue in order.
pub proof fn lemma_samples_join_the_queue(c: &mut Protocol1Client, samples: &[IqSample], k: int)
    requires
        call_ensures(Protocol1Client::queue_samples, (c, samples), ()),
    ensures
        ({
            let was = old(c)@.tx_queue;
            let now = final(c)@.tx_queue;
            &&& now.len() == was.len() + samples@.len()
            &&& 0 <= k < was.len() ==> now[k] == was[k]
            &&& was.len() <= k < now.len() ==> now[k] == samples@[k - was.len()]
        }),
{
}

/// The samples that can go out are those that wait and those that the ring shows.
pub proof fn lemma_available_samples_are_counted(c: &mut Protocol1Client, n: usize)
    requires
        call_ensures(Protocol1Client::tx_available, (c,), n),
    ensures
        ({
            let sum = final(c)@.tx_queue.len() + final(c)@.in_ring;
            &&& sum <= usize::MAX ==> n == sum
            &&& sum > usize::MAX ==> n == usize::MAX
            &&& final(c)@.tx_queue == old(c)@.tx_queue
            &&& !old(c)@.connected ==> final(c)@ == old(c)@
        }),
{
}

} // verus!
