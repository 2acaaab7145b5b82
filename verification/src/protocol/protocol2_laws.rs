//! Where each value lies in the packets of Protocol 2, and what their readers take.

use crate::double::distance;
use crate::protocol::format_laws::{holds24, is_closest};
use crate::protocol::protocol1::next_send_ns;
use crate::protocol::protocol2::{
    be16_all, be32_all, build_p2_discovery_request, fitting_ports, iq24_all, parse_ddc_iq_packet,
    parse_hp_status, parse_p2_discovery_response, P2Command, P2Model, P2Packet, P2Ports,
    Protocol2Client,
};
use crate::protocol::types::{
    be24_bytes, iq24_bytes, limited, DiscoveredDevice, HpsdrHw, IqSample, RadioStatus,
    SocketAddress,
};
use crate::protocol::wire::{be16_bytes, be32_bytes};
use vstd::prelude::*;

verus! {

/// Four bytes hold a number, highest first.
pub open spec fn holds32(b: Seq<u8>, at: int, v: int) -> bool {
    b[at] * 0x100_0000 + b[at + 1] * 0x1_0000 + b[at + 2] * 0x100 + b[at + 3] == v
}

/// Two bytes hold a number without a sign, highest first.
pub open spec fn holds_word(b: Seq<u8>, at: int, v: int) -> bool {
    b[at] * 0x100 + b[at + 1] == v
}

proof fn lemma_be32_all_at(values: Seq<u32>, k: int)
    requires
        0 <= k <= values.len(),
    ensures
        be32_all(values).len() == 4 * values.len(),
        k < values.len() ==> be32_all(values).subrange(4 * k, 4 * k + 4) == be32_bytes(values[k]),
    decreases values.len(),
{
    if values.len() > 0 {
        let init = values.drop_last();
        let all = be32_all(values);
        let part = be32_all(init);
        assert(be32_bytes(values.last()).len() == 4);
        if k < init.len() {
            lemma_be32_all_at(init, k);
            assert(all.subrange(4 * k, 4 * k + 4) =~= part.subrange(4 * k, 4 * k + 4));
        } else {
            lemma_be32_all_at(init, init.len() as int);
            if k < values.len() {
                assert(all.subrange(4 * k, 4 * k + 4) =~= be32_bytes(values.last()));
            }
        }
    }
}

proof fn lemma_be16_all_at(values: Seq<u16>, k: int)
    requires
        0 <= k <= values.len(),
    ensures
        be16_all(values).len() == 2 * values.len(),
        k < values.len() ==> be16_all(values).subrange(2 * k, 2 * k + 2) == be16_bytes(values[k]),
    decreases values.len(),
{
    if values.len() > 0 {
        let init = values.drop_last();
        let all = be16_all(values);
        let part = be16_all(init);
        assert(be16_bytes(values.last()).len() == 2);
        if k < init.len() {
            lemma_be16_all_at(init, k);
            assert(all.subrange(2 * k, 2 * k + 2) =~= part.subrange(2 * k, 2 * k + 2));
        } else {
            lemma_be16_all_at(init, init.len() as int);
            if k < values.len() {
                assert(all.subrange(2 * k, 2 * k + 2) =~= be16_bytes(values.last()));
            }
        }
    }
}

proof fn lemma_iq24_all_at(samples: Seq<IqSample>, k: int)
    requires
        0 <= k <= samples.len(),
    ensures
        iq24_all(samples).len() == 6 * samples.len(),
        k < samples.len() ==> iq24_all(samples).subrange(6 * k, 6 * k + 6) == iq24_bytes(
            samples[k],
            true,
        ),
    decreases samples.len(),
{
    if samples.len() > 0 {
        let init = samples.drop_last();
        let all = iq24_all(samples);
        let part = iq24_all(init);
        assert(iq24_bytes(samples.last(), true).len() == 6);
        if k < init.len() {
            lemma_iq24_all_at(init, k);
            assert(all.subrange(6 * k, 6 * k + 6) =~= part.subrange(6 * k, 6 * k + 6));
        } else {
            lemma_iq24_all_at(init, init.len() as int);
            if k < samples.len() {
                assert(all.subrange(6 * k, 6 * k + 6) =~= iq24_bytes(samples.last(), true));
            }
        }
    }
}

proof fn lemma_number_in_place(p: Seq<u8>, at: int, v: u32)
    requires
        0 <= at,
        at + 4 <= p.len(),
        p.subrange(at, at + 4) == be32_bytes(v),
    ensures
        holds32(p, at, v as int),
{
    let b = p.subrange(at, at + 4);
    assert(b[0] == p[at] && b[1] == p[at + 1] && b[2] == p[at + 2] && b[3] == p[at + 3]);
}

proof fn lemma_word_in_place(p: Seq<u8>, at: int, v: u16)
    requires
        0 <= at,
        at + 2 <= p.len(),
        p.subrange(at, at + 2) == be16_bytes(v),
    ensures
        holds_word(p, at, v as int),
{
    let b = p.subrange(at, at + 2);
    assert(b[0] == p[at] && b[1] == p[at + 1]);
}

/// A high-priority packet for a client: the number, the requests to run and to transmit
/// as the lowest bits of byte 4, twelve receive frequencies from byte 9 on, the transmit
/// frequency at byte 329 and the drive at byte 345.
pub open spec fn is_high_priority(p: P2Packet, m: P2Model, k: int) -> bool {
    let b = p.bytes@;
    &&& p.port == 1027
    &&& b.len() == 1444
    &&& holds32(b, 0, m.hp_seq as int)
    &&& b[4] == (if m.running {
        1int
    } else {
        0int
    }) + (if m.ptt {
        2int
    } else {
        0int
    })
    &&& 0 <= k < 12 ==> holds32(b, 9 + 4 * k, m.rx_frequencies[k] as int)
    &&& holds32(b, 329, m.tx_frequency as int)
    &&& b[345] == m.tx_drive
}

proof fn lemma_high_priority(p: P2Packet, m: P2Model, k: int)
    requires
        m.wf(),
        p.port == 1027,
        p.bytes@ == m.high_priority(),
    ensures
        is_high_priority(p, m, k),
{
    let b = p.bytes@;
    let at: int = if 0 <= k < 12 {
        k
    } else {
        0
    };
    let freqs = be32_all(m.rx_frequencies);
    lemma_be32_all_at(m.rx_frequencies, at);
    assert(be32_bytes(m.hp_seq).len() == 4 && be32_bytes(m.tx_frequency).len() == 4);
    assert(b.subrange(0, 4) =~= be32_bytes(m.hp_seq));
    assert(b.subrange(9 + 4 * at, 13 + 4 * at) =~= freqs.subrange(4 * at, 4 * at + 4));
    assert(b.subrange(329, 333) =~= be32_bytes(m.tx_frequency));
    lemma_number_in_place(b, 0, m.hp_seq);
    lemma_number_in_place(b, 9 + 4 * at, m.rx_frequencies[at]);
    lemma_number_in_place(b, 329, m.tx_frequency);
}

/// What is to take effect at once goes out in a high-priority packet; the numbers of
/// such packets count up.
pub proof fn lemma_high_priority_layout(c: &mut Protocol2Client, p: P2Packet, k: int)
    requires
        call_ensures(Protocol2Client::send_high_priority, (c,), p),
        old(c)@.wf(),
    ensures
        is_high_priority(p, old(c)@, k),
        final(c)@.hp_seq == (if old(c)@.hp_seq == 0xffff_ffff {
            0
        } else {
            old(c)@.hp_seq + 1
        }),
        final(c)@ == (P2Model { hp_seq: final(c)@.hp_seq, ..old(c)@ }),
{
    lemma_high_priority(p, old(c)@, k);
}

/// A receiver configuration for a client: the number, one bit for each receiver in byte
/// 7, and the rate in kHz in two bytes for each receiver, six bytes apart from byte 18
/// on.
pub open spec fn is_rx_config(p: P2Packet, m: P2Model, k: int) -> bool {
    let b = p.bytes@;
    &&& p.port == 1025
    &&& b.len() == 1444
    &&& holds32(b, 0, m.rx_specific_seq as int)
    &&& m.nddc <= 8 ==> b[7] + 1 == vstd::arithmetic::power2::pow2(m.nddc as nat)
    &&& 0 <= k < m.nddc && 20 + 6 * k <= 1444 && m.sample_rate < 65_536_000 ==> holds_word(
        b,
        18 + 6 * k,
        m.sample_rate as int / 1000,
    )
}

proof fn lemma_rx_config(p: P2Packet, m: P2Model, k: int)
    requires
        p.port == 1025,
        p.bytes@ == m.rx_config(),
    ensures
        is_rx_config(p, m, k),
{
    vstd::arithmetic::power2::lemma2_to64();
    let b = p.bytes@;
    assert(b.subrange(0, 4) =~= be32_bytes(m.rx_specific_seq));
    lemma_number_in_place(b, 0, m.rx_specific_seq);
    assert(b[7] == m.rx_config_byte(7));
    if 0 <= k < m.nddc && 20 + 6 * k <= 1444 && m.sample_rate < 65_536_000 {
        assert(b[18 + 6 * k] == m.rx_config_byte(18 + 6 * k));
        assert(b[19 + 6 * k] == m.rx_config_byte(19 + 6 * k));
        assert((6 * k) / 6 == k && (6 * k) % 6 == 0);
        assert((6 * k + 1) / 6 == k && (6 * k + 1) % 6 == 1);
    }
}

/// Rate and receivers go out in the receiver configuration.
pub proof fn lemma_rx_config_layout(c: &mut Protocol2Client, p: P2Packet, k: int)
    requires
        call_ensures(Protocol2Client::rx_config, (c,), p),
    ensures
        is_rx_config(p, old(c)@, k),
{
    lemma_rx_config(p, old(c)@, k);
}

/// The general configuration tells the radio the host's ports.
pub proof fn lemma_general_config_layout(
    c: &mut Protocol2Client,
    ports: P2Ports,
    p: P2Packet,
    k: int,
)
    requires
        call_ensures(Protocol2Client::general_config, (c, &ports), p),
    ensures
        ({
            let b = p.bytes@;
            &&& p.port == 1024
            &&& b.len() == 60
            &&& holds32(b, 0, old(c)@.general_seq as int)
            &&& b[4] == 0
            &&& holds_word(b, 5, ports.rx_specific as int)
            &&& holds_word(b, 7, ports.tx_specific as int)
            &&& holds_word(b, 9, ports.hp_from_pc as int)
            &&& holds_word(b, 11, ports.hp_to_pc as int)
            &&& holds_word(b, 15, ports.tx_iq as int)
            &&& 0 <= k < ports.ddc@.len() && k < 21 ==> holds_word(
                b,
                17 + 2 * k,
                ports.ddc@[k] as int,
            )
        }),
{
    let b = p.bytes@;
    let m = old(c)@;
    let fit = fitting_ports(ports.ddc@);
    let at: int = if 0 <= k < fit.len() {
        k
    } else {
        fit.len() as int
    };
    lemma_be16_all_at(fit, at);
    let ddc = be16_all(fit);
    assert(be32_bytes(m.general_seq).len() == 4);
    assert(b.subrange(0, 4) =~= be32_bytes(m.general_seq));
    assert(b.subrange(5, 7) =~= be16_bytes(ports.rx_specific));
    assert(b.subrange(7, 9) =~= be16_bytes(ports.tx_specific));
    assert(b.subrange(9, 11) =~= be16_bytes(ports.hp_from_pc));
    assert(b.subrange(11, 13) =~= be16_bytes(ports.hp_to_pc));
    assert(b.subrange(15, 17) =~= be16_bytes(ports.tx_iq));
    lemma_number_in_place(b, 0, m.general_seq);
    lemma_word_in_place(b, 5, ports.rx_specific);
    lemma_word_in_place(b, 7, ports.tx_specific);
    lemma_word_in_place(b, 9, ports.hp_from_pc);
    lemma_word_in_place(b, 11, ports.hp_to_pc);
    lemma_word_in_place(b, 15, ports.tx_iq);
    if at < fit.len() {
        assert(b.subrange(17 + 2 * at, 19 + 2 * at) =~= ddc.subrange(2 * at, 2 * at + 2));
        lemma_word_in_place(b, 17 + 2 * at, ports.ddc@[at]);
    }
}

proof fn lemma_number24(v: int)
    requires
        -8_388_607 <= v <= 8_388_607,
    ensures
        be24_bytes(v).len() == 3,
        holds24(be24_bytes(v), 0, v),
{
}

proof fn lemma_sample_in_place(p: Seq<u8>, at: int, s: IqSample, i: int, q: int)
    requires
        0 <= at,
        at + 6 <= p.len(),
        p.subrange(at, at + 6) == iq24_bytes(s, true),
        is_closest(i, s.i as int, 8_388_607),
        is_closest(q, -s.q, 8_388_607),
    ensures
        holds24(p, at, i),
        holds24(p, at + 3, q),
{
    let six = p.subrange(at, at + 6);
    assert(limited(s.i as int, 8_388_607) == i);
    assert(limited(-s.q, 8_388_607) == q);
    lemma_number24(i);
    lemma_number24(q);
    let bi = be24_bytes(i);
    let bq = be24_bytes(q);
    assert(six == bi + bq);
    assert(six[0] == bi[0] && six[1] == bi[1] && six[2] == bi[2]);
    assert(six[3] == bq[0] && six[4] == bq[1] && six[5] == bq[2]);
    assert(six[0] == p[at] && six[1] == p[at + 1] && six[2] == p[at + 2]);
    assert(six[3] == p[at + 3] && six[4] == p[at + 4] && six[5] == p[at + 5]);
}

/// Transmit samples go out behind the number of the packet, six bytes each, with Q of
/// opposite sign and cut to full scale: the first 240, and zeros where there are none.
pub proof fn lemma_tx_packet_layout(
    c: &mut Protocol2Client,
    samples: &[IqSample],
    p: P2Packet,
    k: int,
    i: int,
    q: int,
)
    requires
        call_ensures(Protocol2Client::send_tx_iq, (c, samples), p),
        0 <= k < 240,
        k < samples@.len() ==> is_closest(i, samples@[k].i as int, 8_388_607) && is_closest(
            q,
            -samples@[k].q,
            8_388_607,
        ),
        k >= samples@.len() ==> i == 0 && q == 0,
    ensures
        p.port == 1029,
        p.bytes@.len() == 1444,
        holds32(p.bytes@, 0, old(c)@.tx_iq_seq as int),
        holds24(p.bytes@, 4 + 6 * k, i),
        holds24(p.bytes@, 7 + 6 * k, q),
{
    let b = p.bytes@;
    let m = old(c)@;
    let sent = if samples@.len() <= 240 {
        samples@
    } else {
        samples@.take(240)
    };
    let body = iq24_all(sent);
    let at: int = if k < sent.len() {
        k
    } else {
        sent.len() as int
    };
    lemma_iq24_all_at(sent, at);
    assert(be32_bytes(m.tx_iq_seq).len() == 4);
    assert(b.subrange(0, 4) =~= be32_bytes(m.tx_iq_seq));
    lemma_number_in_place(b, 0, m.tx_iq_seq);
    if k < sent.len() {
        let s = samples@[k];
        assert(sent[k] == s);
        assert(b.subrange(4 + 6 * k, 10 + 6 * k) =~= body.subrange(6 * k, 6 * k + 6));
        lemma_sample_in_place(b, 4 + 6 * k, s, i, q);
    }
}

/// Starting takes three packets: the ports, the receivers, and the request to run.
pub proof fn lemma_start_takes_three_packets(
    c: &mut Protocol2Client,
    ports: P2Ports,
    sent: usize,
    packet: Option<P2Packet>,
    k: int,
)
    requires
        call_ensures(Protocol2Client::start, (c, &ports, sent), packet),
        old(c)@.wf(),
    ensures
        packet is Some <==> sent < 3,
        sent == 0 ==> packet->0.port == 1024 && final(c)@.running == old(c)@.running,
        sent == 1 ==> is_rx_config(packet->0, old(c)@, k),
        sent == 2 ==> is_high_priority(packet->0, (P2Model { running: true, ..old(c)@ }), k)
            && final(c)@.running,
{
    if sent == 1 {
        lemma_rx_config(packet->0, old(c)@, k);
    } else if sent == 2 {
        lemma_high_priority(packet->0, (P2Model { running: true, ..old(c)@ }), k);
    }
}

/// Stopping withdraws the request to run.
pub proof fn lemma_stop_withdraws_the_request(c: &mut Protocol2Client, packet: P2Packet, k: int)
    requires
        call_ensures(Protocol2Client::stop, (c,), packet),
        old(c)@.wf(),
    ensures
        is_high_priority(packet, (P2Model { running: false, ..old(c)@ }), k),
        !final(c)@.running,
{
    lemma_high_priority(packet, (P2Model { running: false, ..old(c)@ }), k);
}

/// The client with what a command asks for.
pub open spec fn asked(m: P2Model, cmd: P2Command) -> P2Model {
    match cmd {
        P2Command::SetRxFrequency(ddc, hz) => P2Model {
            rx_frequencies: Seq::new(
                m.rx_frequencies.len(),
                |d: int|
                    if d == ddc {
                        hz
                    } else {
                        m.rx_frequencies[d]
                    },
            ),
            ..m
        },
        P2Command::SetTxFrequency(hz) => P2Model { tx_frequency: hz, ..m },
        P2Command::SetSampleRate(hz) => P2Model { sample_rate: hz, ..m },
        P2Command::SetTxDrive(drive) => P2Model { tx_drive: drive, ..m },
        P2Command::SetPtt(on) => P2Model { ptt: on, ..m },
        P2Command::Stop => P2Model { running: false, ..m },
    }
}

/// A command takes effect with the packet that goes out for it: a new rate with a
/// receiver configuration, everything else with a high-priority packet.
pub proof fn lemma_commands_go_out_at_once(
    c: &mut Protocol2Client,
    cmd: P2Command,
    packet: P2Packet,
    k: int,
)
    requires
        call_ensures(Protocol2Client::handle_command, (c, cmd), packet),
        old(c)@.wf(),
    ensures
        cmd is SetSampleRate ==> is_rx_config(packet, asked(old(c)@, cmd), k),
        !(cmd is SetSampleRate) ==> is_high_priority(packet, asked(old(c)@, cmd), k),
{
    let m = asked(old(c)@, cmd);
    assert(m =~= old(c)@.commanded(cmd));
    if cmd is SetSampleRate {
        lemma_rx_config(packet, m, k);
    } else {
        lemma_high_priority(packet, m, k);
    }
}

/// Telemetry: the PTT contact is the lowest bit of byte 4, overflow is byte 5, and the
/// powers are words at bytes 6, 14 and 22.
pub proof fn lemma_status_layout(data: &[u8], status: Option<RadioStatus>)
    requires
        call_ensures(parse_hp_status, (data,), status),
    ensures
        status is Some <==> data@.len() >= 24,
        status matches Some(s) ==> {
            &&& s.ptt <==> data@[4] % 2 == 1
            &&& s.adc_overflow == data@[5]
            &&& holds_word(data@, 6, s.exciter_power as int)
            &&& holds_word(data@, 14, s.forward_power as int)
            &&& holds_word(data@, 22, s.reverse_power as int)
            &&& s.supply_voltage == 0 && s.pa_current == 0
        },
{
}

/// Receive samples: byte 14 and the next state how many there are; as many of these,
/// but at most 238, are read as the packet holds, six bytes each from byte 16 on, with Q
/// of opposite sign.
pub proof fn lemma_ddc_packet_layout(data: &[u8], samples: Option<Vec<IqSample>>, k: int)
    requires
        call_ensures(parse_ddc_iq_packet, (data,), samples),
    ensures
        samples is Some <==> data@.len() >= 16,
        samples matches Some(s) ==> {
            let stated = data@[14] * 256 + data@[15];
            let n = s@.len();
            &&& n <= stated && n <= 238 && 16 + 6 * n <= data@.len()
            &&& n == stated || n == 238 || 16 + 6 * (n + 1) > data@.len()
            &&& 0 <= k < n ==> holds24(data@, 16 + 6 * k, s@[k].i as int) && holds24(
                data@,
                19 + 6 * k,
                -s@[k].q,
            )
        },
{
}

/// Discovery: a request has 60 bytes, all zero but a 2 at byte 4. A response of at least
/// 21 bytes starts with four zeros and the status, then the interface address at bytes
/// 5 to 10, the kind of radio, its version at byte 13 and its receivers at byte 20.
pub proof fn lemma_discovery_layout(
    request: Vec<u8>,
    data: &[u8],
    addr: SocketAddress,
    r: Option<DiscoveredDevice>,
    hw: Option<HpsdrHw>,
    k: int,
)
    requires
        call_ensures(build_p2_discovery_request, (), request),
        call_ensures(parse_p2_discovery_response, (data, addr), r),
        data@.len() > 11 ==> call_ensures(HpsdrHw::from_p1_code, (data@[11],), hw),
    ensures
        request@.len() == 60,
        0 <= k < 60 ==> request@[k] == if k == 4 {
            2int
        } else {
            0int
        },
        r is Some <==> {
            &&& data@.len() >= 21
            &&& data@[0] == 0 && data@[1] == 0 && data@[2] == 0 && data@[3] == 0
            &&& data@[4] == 2 || data@[4] == 3
            &&& data@[11] == 1 || data@[11] == 6
        },
        r matches Some(d) ==> {
            &&& d.status == data@[4]
            &&& 0 <= k < 6 ==> d.mac@[k] == data@[5 + k]
            &&& Some(d.hw_type) == hw
            &&& d.firmware_version == data@[13]
            &&& d.num_rxs == data@[20]
            &&& addr matches SocketAddress::V4 { ip, port } ==> d.addr == (SocketAddress::V4 {
                ip,
                port: 1024,
            })
        },
{
}

/// The next packet is due a delay after the last one was, so that lateness does not add
/// up; when that has passed already, it is due a delay from now.
pub proof fn lemma_packets_stay_on_schedule(due_ns: u64, delay_ns: u64, now_ns: u64, next: u64)
    requires
        due_ns + delay_ns <= u64::MAX,
        now_ns + delay_ns <= u64::MAX,
        call_ensures(next_send_ns, (due_ns, delay_ns, now_ns), next),
    ensures
        next >= now_ns,
        now_ns <= due_ns + delay_ns ==> next - due_ns == delay_ns,
        now_ns > due_ns + delay_ns ==> next - now_ns == delay_ns,
        distance(next as int, now_ns as int) <= delay_ns || now_ns < due_ns,
{
}

/// Each kind of packet has numbers of its own, which count up.
pub open spec fn counted(n: u32, next: u32) -> bool {
    next == if n == 0xffff_ffff {
        0
    } else {
        n + 1
    }
}

/// A general configuration takes the next number of its kind and changes nothing else.
pub proof fn lemma_general_configs_are_numbered(
    c: &mut Protocol2Client,
    ports: P2Ports,
    p: P2Packet,
)
    requires
        call_ensures(Protocol2Client::general_config, (c, &ports), p),
    ensures
        counted(old(c)@.general_seq, final(c)@.general_seq),
        final(c)@ == (P2Model { general_seq: final(c)@.general_seq, ..old(c)@ }),
{
}

/// The same of a receiver configuration.
pub proof fn lemma_rx_configs_are_numbered(c: &mut Protocol2Client, p: P2Packet)
    requires
        call_ensures(Protocol2Client::rx_config, (c,), p),
    ensures
        counted(old(c)@.rx_specific_seq, final(c)@.rx_specific_seq),
        final(c)@ == (P2Model { rx_specific_seq: final(c)@.rx_specific_seq, ..old(c)@ }),
        old(c)@.nddc > 8 ==> p.bytes@[7] == 255,
{
}

/// The same of a packet of transmit samples.
pub proof fn lemma_tx_packets_are_numbered(
    c: &mut Protocol2Client,
    samples: &[IqSample],
    p: P2Packet,
)
    requires
        call_ensures(Protocol2Client::send_tx_iq, (c, samples), p),
    ensures
        counted(old(c)@.tx_iq_seq, final(c)@.tx_iq_seq),
        final(c)@ == (P2Model { tx_iq_seq: final(c)@.tx_iq_seq, ..old(c)@ }),
{
}

} // verus!
