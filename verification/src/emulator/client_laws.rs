//! What the emulated radio takes from its host and tells it.

use crate::double::{distance, lemma_span_is_close};
use crate::emulator::echo::{unpack_tx_iq_16bit_into, EchoBuffer, EchoSample};
use crate::emulator::protocol1::{
    build_data_packet_sync, fill_subframe_sync, fills_frame, host_samples, packet_interval_ns,
    peak_power, process_control, process_host_frame, process_host_subframe, ClientModel,
    ClientState, PowerReading, StreamParams, TxLevel,
};
use crate::emulator::radio::{localized, HwInfo};
use crate::emulator::server::{
    build_discovery_response, serves_at, P1Server, ServerAction, ServerStep,
};
use crate::protocol::format_laws::holds16;
use crate::protocol::packets::rows_per_frame;
use crate::protocol::protocol2_laws::holds_word;
use crate::protocol::types::{IqSample, SocketAddress};
use vstd::prelude::*;

verus! {

/// A command of the host: the lowest bit of its first byte is the request to transmit,
/// the rest the address. Address 0 sets the rate, the receivers and the outputs, the
/// next even ones the transmit and then the receive frequencies, 0x12 the drive and the
/// amplifier; others set nothing.
pub proof fn lemma_commands_are_obeyed(
    cs: &mut ClientState,
    c0: u8,
    c1: u8,
    c2: u8,
    c3: u8,
    c4: u8,
    changed: bool,
    d: int,
)
    requires
        call_ensures(process_control, (cs, c0, c1, c2, c3, c4), changed),
        old(cs)@.wf(),
        0 <= d < 12,
    ensures
        ({
            let m = old(cs)@;
            let n = final(cs)@;
            let address = c0 as int / 2 * 2;
            let value = c1 * 0x100_0000 + c2 * 0x1_0000 + c3 * 0x100 + c4;
            &&& n.ptt <==> c0 % 2 == 1
            &&& changed <==> n.ptt != m.ptt
            &&& address == 0 ==> {
                &&& c1 % 4 == 0 ==> n.sample_rate == 48_000
                &&& c1 % 4 == 1 ==> n.sample_rate == 96_000
                &&& c1 % 4 == 2 ==> n.sample_rate == 192_000
                &&& c1 % 4 == 3 ==> n.sample_rate == 384_000
                &&& (n.nddc - 1) * 8 == c4 as int / 8 % 8 * 8
                &&& n.oc_outputs == c2 as int / 2
            }
            &&& address != 0 ==> n.sample_rate == m.sample_rate && n.nddc == m.nddc && n.oc_outputs
                == m.oc_outputs
            &&& n.tx_frequency == if address == 2 {
                value
            } else {
                m.tx_frequency as int
            }
            &&& n.rx_frequencies[d] == if d < 7 && address == 4 + 2 * d {
                value
            } else {
                m.rx_frequencies[d] as int
            }
            &&& address == 0x12 ==> n.tx_drive == c1 && (n.pa_enabled <==> c2 as int / 8 % 2 == 1)
            &&& address != 0x12 ==> n.tx_drive == m.tx_drive && n.pa_enabled == m.pa_enabled
            &&& n.client == m.client && n.data_seq == m.data_seq && n.control_idx == m.control_idx
        }),
{
}

proof fn lemma_words(f: Seq<u8>, a: u16, b: u16, t: Seq<u8>)
    requires
        f.len() >= 8,
        t == crate::protocol::wire::be16_bytes(a) + crate::protocol::wire::be16_bytes(b),
        f.subrange(4, 8) == t,
    ensures
        holds_word(f, 4, a as int),
        holds_word(f, 6, b as int),
{
    let g = f.subrange(4, 8);
    assert(g[0] == f[4] && g[1] == f[5] && g[2] == f[6] && g[3] == f[7]);
}

/// Telemetry comes in four kinds that take turns, the kind in the control byte above the
/// transmit state: versions; exciter and forward power; reverse power and supply; and
/// current and supply. Power is read only while there is drive.
pub proof fn lemma_telemetry_is_reported(
    cs: &mut ClientState,
    hw: HwInfo,
    power: PowerReading,
    samples: Vec<Vec<IqSample>>,
    out: &mut Vec<u8>,
)
    requires
        call_ensures(fill_subframe_sync, (cs, &hw, &power, &samples, out), ()),
        old(cs)@.wf(),
    ensures
        ({
            let m = old(cs)@;
            let n = old(out)@.len() as int;
            let f = final(out)@.subrange(n, n + 512);
            let on = m.ptt && m.tx_drive > 0;
            &&& final(out)@.len() == n + 512
            &&& final(out)@.subrange(0, n) == old(out)@
            &&& f[0] == 0x7f && f[1] == 0x7f && f[2] == 0x7f
            &&& f[3] == 8 * m.control_idx + (if m.ptt {
                1int
            } else {
                0int
            })
            &&& final(cs)@.control_idx == (if m.control_idx == 3 {
                0
            } else {
                m.control_idx + 1
            })
            &&& m.control_idx == 0 ==> f[4] == 0 && f[5] == hw.firmware_version && f[6]
                == hw.penny_version && f[7] == 0
            &&& m.control_idx == 1 && on ==> holds_word(f, 4, power.exciter as int) && holds_word(
                f,
                6,
                power.forward as int,
            )
            &&& m.control_idx == 1 && !on ==> holds_word(f, 4, 0) && holds_word(f, 6, 0)
            &&& m.control_idx == 2 ==> holds_word(
                f,
                4,
                if on {
                    power.reverse as int
                } else {
                    0
                },
            ) && holds_word(f, 6, 3200)
            &&& m.control_idx == 3 ==> holds_word(
                f,
                4,
                if m.ptt {
                    5 * m.tx_drive
                } else {
                    0
                },
            ) && holds_word(f, 6, 3200)
        }),
{
    let m = old(cs)@;
    let n = old(out)@.len() as int;
    let f = final(out)@.subrange(n, n + 512);
    let frame = m.frame(hw, power, samples@);
    assert(f =~= frame);
    assert(final(out)@.subrange(0, n) =~= old(out)@);
    let t = m.telemetry(hw, power);
    assert(t.len() == 4);
    assert(f.subrange(4, 8) =~= t);
    assert(t[0] == f[4] && t[1] == f[5] && t[2] == f[6] && t[3] == f[7]);
    let on = m.ptt && m.tx_drive > 0;
    if m.control_idx == 1 {
        if on {
            lemma_words(f, power.exciter, power.forward, t);
        } else {
            lemma_words(f, 0, 0, t);
        }
    } else if m.control_idx == 2 {
        lemma_words(f, if on {
            power.reverse
        } else {
            0
        }, 3200, t);
    } else if m.control_idx == 3 {
        lemma_words(f, if m.ptt {
            (m.tx_drive * 5) as u16
        } else {
            0
        }, 3200, t);
    }
}

/// A packet to the host: magic bytes, endpoint 6 and the number, which counts up; then
/// two frames, at bytes 8 and 520.
pub proof fn lemma_packet_to_the_host(
    cs: &mut ClientState,
    hw: HwInfo,
    power: PowerReading,
    first: Vec<Vec<IqSample>>,
    second: Vec<Vec<IqSample>>,
    packet: Vec<u8>,
)
    requires
        call_ensures(build_data_packet_sync, (cs, &hw, &power, &first, &second), packet),
        old(cs)@.wf(),
        fills_frame(old(cs)@, first@),
        fills_frame(old(cs)@, second@),
    ensures
        ({
            let p = packet@;
            let m = old(cs)@;
            &&& p.len() == 1032
            &&& p[0] == 0xef && p[1] == 0xfe && p[2] == 1 && p[3] == 6
            &&& p[4] * 0x100_0000 + p[5] * 0x1_0000 + p[6] * 0x100 + p[7] == m.data_seq
            &&& final(cs)@.data_seq == if m.data_seq == 0xffff_ffff {
                0
            } else {
                m.data_seq + 1
            }
            &&& final(cs)@.control_idx == (m.control_idx + 2) % 4
        }),
{
    let p = packet@;
    let b = crate::protocol::wire::be32_bytes(old(cs)@.data_seq);
    crate::protocol::wire::lemma_be32_round_trip(old(cs)@.data_seq);
    assert(p[4] == b[0] && p[5] == b[1] && p[6] == b[2] && p[7] == b[3]);
}

/// Packets to the host come at the pace of the samples that they carry, to the
/// nanosecond.
pub proof fn lemma_packets_come_at_the_sample_rate(p: StreamParams, ns: u64, rows: int)
    requires
        1 <= p.nddc <= 8,
        p.sample_rate > 0,
        call_ensures(packet_interval_ns, (&p,), ns),
        rows >= 0,
        rows * (6 * p.nddc + 2) <= 504 < (rows + 1) * (6 * p.nddc + 2),
    ensures
        distance(ns * p.sample_rate, 2 * rows * 1_000_000_000) <= p.sample_rate,
{
    let n = p.nddc as int;
    assert(rows == 504int / (6 * n + 2) && rows <= 63) by (nonlinear_arith)
        requires
            rows >= 0,
            n >= 1,
            rows * (6 * n + 2) <= 504 < (rows + 1) * (6 * n + 2),
    ;
    assert(rows == rows_per_frame(n));
    lemma_span_is_close((2 * rows) as u32, p.sample_rate, ns);
}

proof fn lemma_peak(s: Seq<EchoSample>) -> (best: int)
    ensures
        forall|k: int|
            0 <= k < s.len() ==> (#[trigger] s[k]).i * s[k].i + s[k].q * s[k].q <= peak_power(s),
        s.len() > 0 && peak_power(s) > 0 ==> 0 <= best < s.len() && peak_power(s) == s[best].i
            * s[best].i + s[best].q * s[best].q,
        peak_power(s) >= 0,
    decreases s.len(),
{
    if s.len() == 0 {
        0
    } else {
        let init = s.drop_last();
        let b = lemma_peak(init);
        assert forall|k: int| 0 <= k < s.len() implies (#[trigger] s[k]).i * s[k].i + s[k].q
            * s[k].q <= peak_power(s) by {
            if k < init.len() {
                assert(init[k] == s[k]);
            }
        }
        if peak_power(s) == peak_power(init) {
            b
        } else {
            s.len() - 1
        }
    }
}

proof fn lemma_peak_bound(s: Seq<EchoSample>)
    requires
        forall|k: int|
            0 <= k < s.len() ==> -0x8000 <= (#[trigger] s[k]).i < 0x8000 && -0x8000 <= s[k].q
                < 0x8000,
    ensures
        peak_power(s) <= 0x8000_0000,
    decreases s.len(),
{
    if s.len() > 0 {
        let init = s.drop_last();
        assert forall|k: int| 0 <= k < init.len() implies -0x8000 <= (#[trigger] init[k]).i
            < 0x8000 && -0x8000 <= init[k].q < 0x8000 by {
            assert(init[k] == s[k]);
        }
        lemma_peak_bound(init);
        let l = s[s.len() - 1];
        let i = l.i as int;
        let q = l.q as int;
        assert(i * i + q * q <= 0x8000_0000) by (nonlinear_arith)
            requires
                -0x8000 <= i < 0x8000,
                -0x8000 <= q < 0x8000,
        ;
    }
}

/// The level of a frame from the host is that of its strongest sample: no sample of the
/// frame has a larger square of the amplitude, and one has that one. While the host does
/// not transmit there is none.
pub proof fn lemma_level_is_that_of_the_strongest_sample(
    cs: &mut ClientState,
    data: &[u8],
    at: usize,
    echo: &mut Option<EchoBuffer>,
    level: TxLevel,
    k: int,
    i: int,
    q: int,
) -> (best: int)
    requires
        call_ensures(process_host_subframe, (cs, data, at, echo), level),
        old(cs)@.wf(),
        at + 512 <= data@.len(),
        0 <= k < 63,
        holds16(data@, at + 12 + 8 * k, i),
        holds16(data@, at + 14 + 8 * k, q),
    ensures
        final(cs)@.ptt <==> data@[at + 3] % 2 == 1,
        level is Quiet <==> !final(cs)@.ptt,
        level matches TxLevel::Peak(p) ==> i * i + q * q <= p,
        level matches TxLevel::Peak(p) ==> p > 0 ==> 0 <= best < 63 && exists|x: int, y: int|
            #![trigger holds16(data@, at + 12 + 8 * best, x), holds16(data@, at + 14 + 8 * best, y)]
            holds16(data@, at + 12 + 8 * best, x) && holds16(data@, at + 14 + 8 * best, y) && x * x
                + y * y == p,
{
    let s = host_samples(data@, at as int);
    let b = lemma_peak(s);
    assert forall|j: int| 0 <= j < s.len() implies -0x8000 <= (#[trigger] s[j]).i < 0x8000
        && -0x8000 <= s[j].q < 0x8000 by {}
    lemma_peak_bound(s);
    assert(s[k].i == i && s[k].q == q);
    if peak_power(s) > 0 {
        assert(holds16(data@, at + 12 + 8 * b, s[b].i as int));
        assert(holds16(data@, at + 14 + 8 * b, s[b].q as int));
    }
    b
}

/// Blocks of transmit samples are read in order, as many as there are and as there is
/// room for.
pub proof fn lemma_transmit_blocks_are_read(
    data: &[u8],
    out: &mut [EchoSample],
    n: usize,
    k: int,
)
    requires
        call_ensures(unpack_tx_iq_16bit_into, (data, out), n),
    ensures
        8 * n <= data@.len() && n <= old(out)@.len(),
        8 * (n + 1) > data@.len() || n == old(out)@.len(),
        final(out)@.len() == old(out)@.len(),
        0 <= k < n ==> holds16(data@, 8 * k + 4, final(out)@[k].i as int) && holds16(
            data@,
            8 * k + 6,
            final(out)@[k].q as int,
        ),
        n <= k < old(out)@.len() ==> final(out)@[k] == old(out)@[k],
{
}

/// A packet from the host is taken in if it has 1032 bytes and the magic ones; each of
/// its two frames, at bytes 8 and 520, counts if it starts with three bytes 0x7f.
pub proof fn lemma_frames_in_sync_are_taken(
    cs: &mut ClientState,
    data: &[u8],
    echo: &mut Option<EchoBuffer>,
    levels: Vec<TxLevel>,
)
    requires
        call_ensures(process_host_frame, (cs, data, echo), levels),
        old(cs)@.wf(),
    ensures
        ({
            let d = data@;
            let is_data = d.len() >= 1032 && d[0] == 0xef && d[1] == 0xfe && d[2] == 1;
            let first = is_data && d[8] == 0x7f && d[9] == 0x7f && d[10] == 0x7f;
            let second = is_data && d[520] == 0x7f && d[521] == 0x7f && d[522] == 0x7f;
            &&& levels@.len() == (if first {
                1int
            } else {
                0
            }) + (if second {
                1int
            } else {
                0
            })
            &&& !first && !second ==> final(cs)@ == old(cs)@
            &&& second ==> (final(cs)@.ptt <==> d[523] % 2 == 1)
            &&& first && !second ==> (final(cs)@.ptt <==> d[11] % 2 == 1)
        }),
{
}

/// Where a transmission is recorded: on the transmit frequency that holds when it
/// starts, until it ends. Without an echo nothing is recorded.
pub proof fn lemma_recording_follows_the_request(m: ClientModel, c: Seq<u8>)
    requires
        c.len() == 5,
    ensures
        ({
            let n = m.heard(c, true);
            &&& !m.ptt && c[0] % 2 == 1 ==> n.recording_freq == Some(n.tx_frequency)
            &&& m.ptt && c[0] % 2 == 0 ==> n.recording_freq is None
            &&& m.ptt == (c[0] % 2 == 1) ==> n.recording_freq == m.recording_freq
            &&& m.heard(c, false).recording_freq == m.recording_freq
        }),
{
}

/// Clients that have gone are looked for at every hundredth data packet.
pub proof fn lemma_every_hundredth_data_packet_sweeps(
    s: &mut P1Server,
    addr: SocketAddress,
    data: &[u8],
    step: ServerStep,
)
    requires
        call_ensures(P1Server::on_packet, (s, addr, data), step),
        old(s)@.wf(),
        old(s)@.next_id < u64::MAX,
    ensures
        ({
            let is_data = data@.len() >= 4 && data@[0] == 0xef && data@[1] == 0xfe && data@[2] == 1;
            &&& old(s)@.data_packets < 100
            &&& step.sweep <==> is_data && old(s)@.data_packets == 99
            &&& is_data && !step.sweep ==> final(s)@.data_packets == old(s)@.data_packets + 1
            &&& step.sweep ==> final(s)@.data_packets == 0
            &&& !is_data ==> final(s)@.data_packets == old(s)@.data_packets
        }),
{
}

/// A data packet goes to the client at its address, and a client that starts gets a
/// number that no client has had.
pub proof fn lemma_packets_go_to_their_client(
    s: &mut P1Server,
    addr: SocketAddress,
    data: &[u8],
    step: ServerStep,
    k: int,
)
    requires
        call_ensures(P1Server::on_packet, (s, addr, data), step),
        old(s)@.wf(),
        old(s)@.next_id < u64::MAX,
        0 <= k < old(s)@.clients.len(),
    ensures
        step.action matches ServerAction::Forward { id } ==> (old(s)@.clients[k].addr == addr <==>
            old(s)@.clients[k].id == id),
        step.action matches ServerAction::StopClient { id } ==> (old(s)@.clients[k].addr == addr
            <==> old(s)@.clients[k].id == id),
        step.action matches ServerAction::StartClient { id } ==> id != old(s)@.clients[k].id
            && final(s)@.next_id > id && old(s)@.clients[k].addr != addr,
        old(s)@.clients[k].addr == addr && data@.len() >= 4 && data@[0] == 0xef && data@[1] == 0xfe
            && data@[2] == 1 ==> step.action is Forward,
{
    let clients = old(s)@.clients;
    if step.action is Forward || step.action is StopClient {
        let j = choose|j: int| serves_at(clients, addr, j);
        assert(serves_at(clients, addr, j));
        if j < k {
            assert(clients[j].addr != clients[k].addr && clients[j].id != clients[k].id);
        } else if k < j {
            assert(clients[k].addr != clients[j].addr && clients[k].id != clients[j].id);
        }
    }
    if clients[k].addr == addr {
        assert(serves_at(clients, addr, k));
    }
}

/// The response to a discovery request: magic bytes, status 2, the interface address,
/// version and code, the versions of the boards, and the number of receivers.
pub proof fn lemma_discovery_response_layout(hw: HwInfo, nddc: u8, buf: Vec<u8>, code: u8, k: int)
    requires
        call_ensures(build_discovery_response, (&hw, nddc), buf),
        call_ensures(crate::protocol::types::HpsdrHw::p1_code, (hw.hw,), code),
    ensures
        ({
            let b = buf@;
            &&& b.len() == 60
            &&& b[0] == 0xef && b[1] == 0xfe && b[2] == 2
            &&& 0 <= k < 6 ==> b[3 + k] == hw.mac@[k]
            &&& b[9] == hw.firmware_version
            &&& b[10] == code
            &&& b[11] == 0 && b[12] == 0 && b[13] == 0
            &&& 0 <= k < 4 ==> b[14 + k] == hw.mercury_versions@[k]
            &&& b[18] == hw.penny_version && b[19] == hw.metis_version
            &&& b[20] == nddc
            &&& 21 <= k < 60 ==> b[k] == 0
        }),
{
}

/// An address is made local to the site and that of a single station by its two lowest
/// bits; everything else of it stays.
pub proof fn lemma_local_address_keeps_the_rest(bytes: [u8; 6], mac: [u8; 6], k: int)
    requires
        call_ensures(localized, (bytes,), mac),
        0 <= k < 6,
    ensures
        mac@[0] % 2 == 0,
        mac@[0] / 2 % 2 == 1,
        mac@[0] / 4 == bytes@[0] / 4,
        k > 0 ==> mac@[k] == bytes@[k],
{
}

} // verus!
