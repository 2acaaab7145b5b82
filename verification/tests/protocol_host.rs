use radio_utils::protocol::discovery::{
    build_p1_discovery_request, discovery_routes, parse_p1_discovery_response, DiscoveryList,
    InterfaceV4, NetInterface, BROADCAST_V4, RADIO_PORT,
};
use radio_utils::protocol::packets::{
    build_control_bytes, build_tx_packet, parse_response_control_bytes, parse_rx_packet, P1Status,
};
use radio_utils::protocol::protocol1::{
    next_send_ns, P1Command, Protocol1Client, SendDecision, TxPace, LONG_DELAY_NS, SHORT_DELAY_NS,
};
use radio_utils::protocol::protocol2::{
    build_p2_discovery_request, parse_ddc_iq_packet, parse_hp_status, parse_p2_discovery_response,
    P2Command, P2Ports, Protocol2Client, PORT_GENERAL, PORT_HIGH_PRIORITY, PORT_RX_SPECIFIC,
    PORT_TX_IQ,
};
use radio_utils::protocol::tx_ring::TX_RING_LEN;
use radio_utils::protocol::types::{
    alex_rx_hpf_for_freq, alex_tx_lpf_for_freq, n2adr_oc_for_freq, pack_iq_24bit_into_ex,
    pack_tx_iq_16bit, unpack_iq_24bit, unpack_tx_iq_16bit, DiscoveredDevice, HpsdrHw, IqSample,
    ProtocolError, SocketAddress,
};
use std::time::Duration;

fn s(i: i32, q: i32) -> IqSample {
    IqSample { i, q }
}

fn v4(ip: [u8; 4], port: u16) -> SocketAddress {
    SocketAddress::V4 {
        ip: u32::from_be_bytes(ip),
        port,
    }
}

fn response(code: u8, version: u8) -> Vec<u8> {
    let mut r = vec![0u8; 60];
    r[0] = 0xEF;
    r[1] = 0xFE;
    r[2] = 0x02;
    r[3..9].copy_from_slice(&[0, 0x1C, 0xC0, 0xA2, 0x22, 0x5D]);
    r[9] = 73;
    r[10] = code;
    r[11] = version;
    r[20] = 4;
    r
}

#[test]
fn error_messages_name_the_cause() {
    assert_eq!(ProtocolError::Io("broken pipe".into()).message(), "IO error: broken pipe");
    assert_eq!(ProtocolError::NoDevicesFound.message(), "no devices found");
    assert_eq!(ProtocolError::NotConnected.message(), "not connected");
    assert_eq!(ProtocolError::InvalidPacket("x".into()).message(), "invalid packet: x");
    assert_eq!(ProtocolError::Timeout.message(), "timeout");
    assert_eq!(ProtocolError::ConnectionLost.message(), "connection lost");
}

#[test]
fn radios_have_names_and_receivers() {
    assert_eq!(HpsdrHw::Hermes.name(), "Hermes");
    assert_eq!(HpsdrHw::HermesLite.name(), "HermesLite");
    assert_eq!(HpsdrHw::Hermes.max_ddcs(), 4);
    assert_eq!(HpsdrHw::HermesLite.max_ddcs(), 2);
    assert_eq!(HpsdrHw::all_names(), ["hermes", "hermeslite"]);
    assert_eq!(HpsdrHw::from_name("HermesLite2"), Some(HpsdrHw::HermesLite));
}

#[test]
fn devices_are_described_in_words() {
    let d = DiscoveredDevice {
        addr: v4([10, 0, 0, 7], 1024),
        mac: [0, 1, 2, 0xAB, 0xCD, 0xEF],
        hw_type: HpsdrHw::HermesLite,
        firmware_version: 207,
        num_rxs: 4,
        status: 2,
    };
    assert_eq!(
        d.describe("10.0.0.7:1024"),
        "HermesLite at 10.0.0.7:1024 (MAC=00:01:02:ab:cd:ef, FW=207, RXs=4)"
    );
}

#[test]
fn filters_follow_the_frequency() {
    assert_eq!(alex_tx_lpf_for_freq(7_074_000), 0x02);
    assert_eq!(alex_tx_lpf_for_freq(2_500_000), 0x08);
    assert_eq!(alex_tx_lpf_for_freq(50_100_000), 0x10);
    assert_eq!(alex_rx_hpf_for_freq(7_074_000), 0x08);
    assert_eq!(alex_rx_hpf_for_freq(1_499_999), 0x20);
    assert_eq!(alex_rx_hpf_for_freq(50_000_000), 0x42);
    assert_eq!(n2adr_oc_for_freq(14_074_000), 72);
    assert_eq!(n2adr_oc_for_freq(2_000_000), 1);
    assert_eq!(n2adr_oc_for_freq(50_000_000), 64);
}

#[test]
fn samples_of_24_bits_come_back() {
    for sample in [s(0, 0), s(1, -1), s(8_388_607, -8_388_607), s(-4_000_000, 123_456)] {
        let mut buf = [0u8; 8];
        assert_eq!(pack_iq_24bit_into_ex(&mut buf, 1, sample, true), 7);
        assert_eq!(unpack_iq_24bit(&buf, 1), sample);
        pack_iq_24bit_into_ex(&mut buf, 1, sample, false);
        assert_eq!(unpack_iq_24bit(&buf, 1), s(sample.i, -sample.q));
    }
    let mut buf = [0u8; 6];
    pack_iq_24bit_into_ex(&mut buf, 0, s(i32::MAX, i32::MIN), false);
    assert_eq!(buf, [0x7F, 0xFF, 0xFF, 0x80, 0x00, 0x01]);
    assert_eq!(unpack_iq_24bit(&[0x80, 0, 0, 0x80, 0, 0], 0), s(-8_388_608, 8_388_608));
}

#[test]
fn samples_of_16_bits_come_back() {
    let samples = [s(0, 0), s(32_767, -32_767), s(-5, 77)];
    let bytes = pack_tx_iq_16bit(&samples);
    assert_eq!(unpack_tx_iq_16bit(&bytes), samples);
    let cut = pack_tx_iq_16bit(&[s(40_000, -40_000)]);
    assert_eq!(unpack_tx_iq_16bit(&cut), [s(32_767, -32_767)]);
    assert_eq!(unpack_tx_iq_16bit(&bytes[..15]).len(), 1);
}

#[test]
fn control_bytes_of_other_addresses_are_empty() {
    assert_eq!(build_control_bytes(0x1C, 5, 1, true, 1, 9, 9), [0x1D, 0, 0, 0, 0]);
    assert_eq!(build_control_bytes(0x02, 1 << 40, 0, false, 1, 0, 0), [2, 255, 255, 255, 255]);
    assert_eq!(build_control_bytes(0x00, 0, 7, false, 0, 0, 0), [0, 3, 0, 0, 4]);
}

#[test]
fn telemetry_is_sorted_by_address() {
    let mut status = P1Status::default();
    parse_response_control_bytes(&mut status, 0x10, 1, 2, 3, 4);
    assert_eq!(status.reverse_power, 0x0102);
    assert_eq!(status.supply_voltage, 0);
    parse_response_control_bytes(&mut status, 0x18, 1, 2, 3, 4);
    assert_eq!(status.supply_voltage, 0x0304);
    parse_response_control_bytes(&mut status, 0x80, 9, 0, 0, 0);
    assert_eq!(status.adc_overflow, 9);
    assert_eq!(status.reverse_power, 0x0102);
}

#[test]
fn received_samples_are_sorted_by_receiver() {
    let mut data = vec![0u8; 1032];
    for base in [8usize, 520] {
        data[base..base + 3].copy_from_slice(&[0x7F; 3]);
        for row in 0..36 {
            for ddc in 0..2usize {
                let at = base + 8 + row * 14 + ddc * 6;
                data[at + 2] = row as u8;
                data[at + 5] = ddc as u8;
            }
        }
    }
    let frame = parse_rx_packet(&data, 2).unwrap();
    assert_eq!(frame.samples.len(), 2);
    for ddc in 0..2usize {
        assert_eq!(frame.samples[ddc].len(), 72);
        assert_eq!(frame.samples[ddc][35], s(35, -(ddc as i32)));
        assert_eq!(frame.samples[ddc][36], s(0, -(ddc as i32)));
    }
}

#[test]
fn transmit_packets_are_padded_with_silence() {
    let pkt = build_tx_packet(1, &[s(1, 2)], [0; 5], [0; 5]);
    assert_eq!(&pkt[16..24], &[0, 0, 0, 0, 0, 1, 0xFF, 0xFE]);
    assert!(pkt[24..520].iter().all(|&b| b == 0));
}

#[test]
fn discovery_request_has_63_bytes() {
    let req = build_p1_discovery_request();
    assert_eq!(req.len(), 63);
    assert_eq!(&req[..3], &[0xEF, 0xFE, 0x02]);
    assert!(req[3..].iter().all(|&b| b == 0));
}

#[test]
fn discovery_response_is_read() {
    let d = parse_p1_discovery_response(&response(6, 0), v4([192, 168, 1, 9], 5555)).unwrap();
    assert_eq!(d.addr, v4([192, 168, 1, 9], RADIO_PORT));
    assert_eq!(d.mac, [0, 0x1C, 0xC0, 0xA2, 0x22, 0x5D]);
    assert_eq!(d.hw_type, HpsdrHw::HermesLite);
    assert_eq!((d.firmware_version, d.num_rxs, d.status), (73, 4, 2));
    let short = parse_p1_discovery_response(&response(1, 0)[..20], v4([1, 2, 3, 4], 1)).unwrap();
    assert_eq!(short.num_rxs, 1);
}

#[test]
fn other_discovery_responses_are_refused() {
    let from = v4([10, 0, 0, 1], 1024);
    assert!(parse_p1_discovery_response(&response(5, 0), from).is_none());
    assert!(parse_p1_discovery_response(&response(1, 1), from).is_none());
    assert!(parse_p1_discovery_response(&response(1, 0)[..19], from).is_none());
    let mut r = response(1, 0);
    r[2] = 0x04;
    assert!(parse_p1_discovery_response(&r, from).is_none());
    r[2] = 0x03;
    assert!(parse_p1_discovery_response(&r, from).is_some());
    r[1] = 0;
    assert!(parse_p1_discovery_response(&r, from).is_none());
}

#[test]
fn discovery_goes_over_every_useful_interface() {
    let ip = u32::from_be_bytes([10, 0, 0, 2]);
    let bc = u32::from_be_bytes([10, 0, 0, 255]);
    let lan = NetInterface {
        loopback: false,
        v4: Some(InterfaceV4 {
            ip,
            broadcast: Some(bc),
        }),
    };
    let lo = NetInterface { loopback: true, ..lan };
    let six = NetInterface {
        loopback: false,
        v4: None,
    };
    let routes = discovery_routes(&[lo, lan, six], 1024);
    assert_eq!(routes.len(), 2);
    assert_eq!(routes[0].bind, SocketAddress::V4 { ip, port: 0 });
    assert_eq!(routes[0].target, SocketAddress::V4 { ip: BROADCAST_V4, port: 1024 });
    assert_eq!(routes[1].target, SocketAddress::V4 { ip: bc, port: 1024 });
    let fallback = discovery_routes(&[lo, six], 1024);
    assert_eq!(fallback.len(), 1);
    assert_eq!(fallback[0].bind, SocketAddress::V4 { ip: 0, port: 0 });
}

#[test]
fn a_radio_is_listed_once() {
    let from = v4([10, 0, 0, 1], 1024);
    let mut list = DiscoveryList::new();
    assert!(list.add(parse_p1_discovery_response(&response(1, 0), from).unwrap()));
    assert!(!list.add(parse_p1_discovery_response(&response(6, 0), from).unwrap()));
    let mut other = response(6, 0);
    other[8] = 1;
    assert!(list.add(parse_p1_discovery_response(&other, from).unwrap()));
    let found = list.into_devices();
    assert_eq!(found.len(), 2);
    assert_eq!(found[0].hw_type, HpsdrHw::Hermes);
}

#[test]
fn start_and_stop_packets() {
    let mut c = Protocol1Client::new(HpsdrHw::Hermes);
    assert!(!c.is_running());
    let start = c.start(0).unwrap();
    assert_eq!(start.len(), 64);
    assert_eq!(&start[..4], &[0xEF, 0xFE, 0x04, 0x01]);
    // The radio streams once the request has gone out.
    assert!(!c.is_running());
    assert!(c.start(1).is_some());
    assert!(c.is_running());
    let stop = c.handle_command(P1Command::Stop).unwrap();
    assert_eq!(stop, c.stop());
    assert_eq!(&stop[..4], &[0xEF, 0xFE, 0x04, 0x00]);
    assert!(stop[4..].iter().all(|&b| b == 0));
    assert!(c.is_running());
    c.stopped();
    assert!(!c.is_running());
}

#[test]
fn configuration_is_sent_command_by_command() {
    let mut c = Protocol1Client::new(HpsdrHw::HermesLite);
    c.set_sample_rate(192_000);
    c.set_nddc(2);
    c.set_rx_frequency(1, 0x0102_0304);
    c.set_tx_drive(99);
    let packets: Vec<Vec<u8>> = (1..).map_while(|sent| c.start(sent)).collect();
    assert_eq!(packets.len(), 5);
    for (k, p) in packets.iter().enumerate() {
        assert_eq!(p.len(), 1032);
        assert_eq!(&p[4..8], &(k as u32).to_be_bytes());
        assert_eq!(&p[520..528], &[0x7F, 0x7F, 0x7F, 0, 2, 0, 0, 0x0C]);
    }
    assert_eq!(&packets[0][11..16], &[0x00, 2, 0, 0, 0x0C]);
    assert_eq!(&packets[3][11..16], &[0x06, 1, 2, 3, 4]);
    assert_eq!(&packets[4][11..16], &[0x12, 99, 0x08, 0, 0]);
}

#[test]
fn control_rotation_goes_round_thirteen_commands() {
    let mut c = Protocol1Client::new(HpsdrHw::Hermes);
    c.set_rx_attenuation(20);
    let commands: Vec<[u8; 5]> = (0..13).map(|_| c.next_control_command()).collect();
    let addresses: Vec<u8> = commands.iter().map(|c| c[0]).collect();
    assert_eq!(
        addresses,
        [0x00, 0x02, 0x04, 0x06, 0x08, 0x0A, 0x0C, 0x0E, 0x10, 0x12, 0x14, 0x16, 0x1C]
    );
    assert_eq!(commands[9], [0x12, 128, 0, 0x08, 0x02]);
    assert_eq!(commands[10], [0x14, 0, 0, 0, 0x20]);
    assert_eq!(c.next_control_command()[0], 0x00);
    let mut lite = Protocol1Client::new(HpsdrHw::HermesLite);
    lite.set_rx_attenuation(37);
    let commands: Vec<[u8; 5]> = (0..13).map(|_| lite.next_control_command()).collect();
    assert_eq!(commands[0], [0x00, 0, 68 * 2, 0, 4]);
    assert_eq!(commands[9], [0x12, 128, 0x08, 0, 0]);
    assert_eq!(commands[10], [0x14, 0, 0, 0, 5]);
    assert_eq!(commands[12], [0x1C, 0, 0, 0xC0 | 37, 0]);
    assert_eq!(commands[3], [0x06, 0, 0, 0, 0]);
}

#[test]
fn queued_samples_go_out_once_and_in_order() {
    let mut c = Protocol1Client::new(HpsdrHw::Hermes);
    let samples: Vec<IqSample> = (0..150).map(|k| s(k + 1, 0)).collect();
    c.handle_command(P1Command::SetPtt(true));
    assert!(c.wants_samples());
    c.queue_samples(&samples);
    assert!(!c.wants_samples());
    let p = c.host_data_packet();
    assert_eq!(p.len(), 1032);
    assert_eq!(p[11] & 1, 1);
    assert_eq!(&p[16..24], &[0, 1, 0, 1, 0, 1, 0, 0]);
    assert_eq!(c.tx_waiting(), 24);
    let p = c.host_data_packet();
    assert_eq!(&p[4..8], &[0, 0, 0, 1]);
    assert_eq!(&p[16..24], &[0, 127, 0, 127, 0, 127, 0, 0]);
    assert!(p[16 + 24 * 8..520].iter().all(|&b| b == 0));
    assert_eq!(c.tx_waiting(), 0);
}

#[test]
fn another_thread_hands_samples_over_through_a_ring() {
    let mut c = Protocol1Client::new(HpsdrHw::Hermes);
    let mut sink = c.tx_iq_sink();
    let samples: Vec<IqSample> = (0..100).map(|k| s(k + 1, 0)).collect();
    assert_eq!(sink.push(&samples), 100);
    assert_eq!(c.tx_available(), 100);
    // Nothing is fetched while receiving.
    let p = c.host_data_packet();
    assert!(p[16..520].iter().all(|&b| b == 0));
    assert_eq!((c.tx_waiting(), c.tx_available()), (0, 100));
    c.handle_command(P1Command::SetPtt(true));
    let pace = c.pace();
    let d = c.send_due(&pace, 0);
    assert_eq!(d, SendDecision::Wait { delay_ns: SHORT_DELAY_NS });
    assert_eq!(sink.push(&samples[..26]), 26);
    assert_eq!(c.send_due(&pace, 0), SendDecision::Send);
    let p = c.host_data_packet();
    assert_eq!(&p[16..24], &[0, 1, 0, 1, 0, 1, 0, 0]);
    assert_eq!(&p[528..536], &[0, 64, 0, 64, 0, 64, 0, 0]);
    assert_eq!(&p[528 + 36 * 8..536 + 36 * 8], &[0, 100, 0, 100, 0, 100, 0, 0]);
    assert_eq!(&p[528 + 37 * 8..536 + 37 * 8], &[0, 1, 0, 1, 0, 1, 0, 0]);
    assert_eq!(c.tx_available(), 0);
}

#[test]
fn voice_from_the_ring_goes_out_in_order_without_silence() {
    let mut c = Protocol1Client::new(HpsdrHw::Hermes);
    let mut sink = c.tx_iq_sink();
    c.handle_command(P1Command::SetPtt(true));
    let pace = c.pace();
    let samples: Vec<IqSample> = (0..1500).map(|k| s(k + 1, 0)).collect();
    let mut sent: Vec<u16> = Vec::new();
    for chunk in samples.chunks(50) {
        assert_eq!(sink.push(chunk), chunk.len());
        if c.send_due(&pace, 0) == SendDecision::Send {
            let p = c.host_data_packet();
            for frame in [&p[16..520], &p[528..1032]] {
                for block in frame.chunks(8) {
                    sent.push(u16::from_be_bytes([block[4], block[5]]));
                }
            }
        }
    }
    assert_eq!(sent.len(), 126 * 11);
    assert!(sent.iter().enumerate().all(|(k, &v)| v as usize == k + 1));
    assert_eq!(c.tx_available(), 1500 - sent.len());
}

#[test]
fn the_ring_takes_what_it_has_room_for() {
    let mut c = Protocol1Client::new(HpsdrHw::Hermes);
    let mut sink = c.tx_iq_sink();
    let samples = vec![s(1, 1); TX_RING_LEN + 5];
    assert_eq!(sink.push(&samples), TX_RING_LEN);
    assert_eq!(sink.push(&samples), 0);
    // A new ring takes the place of the first.
    let mut other = c.tx_iq_sink();
    assert_eq!(c.tx_available(), 0);
    assert_eq!(other.push(&samples[..3]), 3);
    assert_eq!(c.tx_available(), 3);
}

#[test]
fn a_packet_can_be_filled_frame_by_frame() {
    let mut whole = Protocol1Client::new(HpsdrHw::Hermes);
    let mut parts = Protocol1Client::new(HpsdrHw::Hermes);
    let mut packet = parts.start_data_packet();
    assert_eq!(packet.len(), 8);
    parts.fill_host_subframe(&mut packet);
    parts.pack_host_subframe(&mut packet);
    assert_eq!(packet, whole.host_data_packet());
}

#[test]
fn keyed_transmission_has_no_audio() {
    let mut c = Protocol1Client::new(HpsdrHw::Hermes);
    c.handle_command(P1Command::SetCwMode(true));
    c.handle_command(P1Command::SetPtt(true));
    c.queue_samples(&[s(3, 4)]);
    let p = c.host_data_packet();
    assert_eq!(&p[16..24], &[0, 0, 0, 0, 0, 3, 0xFF, 0xFC]);
}

#[test]
fn nothing_is_sent_from_the_queue_while_receiving() {
    let mut c = Protocol1Client::new(HpsdrHw::Hermes);
    c.queue_samples(&[s(3, 4)]);
    let p = c.host_data_packet();
    assert!(p[16..520].iter().all(|&b| b == 0));
    assert_eq!(c.tx_waiting(), 1);
    c.handle_command(P1Command::SetPtt(false));
    assert_eq!(c.tx_waiting(), 0);
}

fn radio_packet(seq: u32, c0: [u8; 2]) -> Vec<u8> {
    let mut p = vec![0u8; 1032];
    p[..4].copy_from_slice(&[0xEF, 0xFE, 0x01, 0x06]);
    p[4..8].copy_from_slice(&seq.to_be_bytes());
    for (k, base) in [8usize, 520].into_iter().enumerate() {
        p[base..base + 3].copy_from_slice(&[0x7F; 3]);
        p[base + 3..base + 8].copy_from_slice(&[c0[k], 1, 2, 3, 4]);
    }
    p
}

#[test]
fn telemetry_is_reported_once_per_round() {
    let mut c = Protocol1Client::new(HpsdrHw::Hermes);
    let first = c.handle_radio_packet(&radio_packet(0, [0x00, 0x08]));
    assert_eq!(first.len(), 2);
    assert!(first.iter().all(|r| r.status.is_none()));
    assert_eq!(first[0].samples[0].len(), 63);
    let second = c.handle_radio_packet(&radio_packet(1, [0x10, 0x19]));
    assert!(second.iter().all(|r| r.status.is_none()));
    let third = c.handle_radio_packet(&radio_packet(2, [0x00, 0x08]));
    let status = third[0].status.unwrap();
    assert!(!status.ptt);
    assert_eq!(status.adc_overflow, 1);
    assert_eq!((status.exciter_power, status.forward_power), (0x0102, 0x0304));
    assert_eq!((status.reverse_power, status.supply_voltage), (0x0102, 0x0304));
    assert_eq!(status.pa_current, 0x0102);
    assert!(third[1].status.is_none());
}

#[test]
fn frames_out_of_sync_and_other_packets_are_ignored() {
    let mut c = Protocol1Client::new(HpsdrHw::Hermes);
    let mut p = radio_packet(0, [0, 8]);
    p[9] = 0;
    assert_eq!(c.handle_radio_packet(&p).len(), 1);
    p[2] = 0x02;
    assert!(c.handle_radio_packet(&p).is_empty());
    assert!(c.handle_radio_packet(&radio_packet(0, [0, 8])[..1031]).is_empty());
    assert!(c.handle_radio_packet(&[]).is_empty());
    let p = radio_packet(0, [0, 8]);
    assert!(c.parse_radio_subframe(&p, 520).is_some());
    assert!(c.parse_radio_subframe(&p, 521).is_none());
    assert!(c.parse_radio_subframe(&p, usize::MAX).is_none());
    assert!(c.parse_radio_subframe(&p[8..519], 0).is_none());
}

#[test]
fn packets_follow_the_wire_rate_while_receiving() {
    let mut c = Protocol1Client::new(HpsdrHw::Hermes);
    let pace = c.pace();
    assert_eq!(pace.samples_per_packet, 126);
    assert_eq!(pace.wire_interval_ns, 2_625_000);
    assert_eq!(c.on_send_due(&pace, 0, 0), SendDecision::Send);
    assert_eq!(c.data_packet_sent(&pace), 2_625_000);
    // A half is rounded to the even nanosecond.
    c.set_sample_rate(6144);
    assert_eq!(c.pace().wire_interval_ns, 20_507_812);
    // The number of seconds is a double, here a little below a half.
    c.set_sample_rate(10_240);
    assert_eq!(c.pace().wire_interval_ns, 12_304_687);
    for rate in (1..400_000).step_by(37).chain([u32::MAX]) {
        c.set_sample_rate(rate);
        let seconds = Duration::from_secs_f64(126.0 / rate as f64);
        assert_eq!(c.pace().wire_interval_ns as u128, seconds.as_nanos());
    }
}

#[test]
fn voice_bursts_until_the_radio_has_a_cushion() {
    let mut c = Protocol1Client::new(HpsdrHw::Hermes);
    let pace = TxPace {
        samples_per_packet: 126,
        wire_interval_ns: 2_625_000,
    };
    c.handle_command(P1Command::SetPtt(true));
    let d = c.on_send_due(&pace, 125, 0);
    assert_eq!(d, SendDecision::Wait { delay_ns: SHORT_DELAY_NS });
    // 6 ms are 288 samples, 30 ms are 1440: 2 packets, then up to 11.
    let mut send = |now_ns: u64| {
        assert_eq!(c.on_send_due(&pace, 126, now_ns), SendDecision::Send);
        c.data_packet_sent(&pace)
    };
    let delays: Vec<u64> = (0..12).map(|_| send(0)).collect();
    assert_eq!(&delays[..2], &[0, 0]);
    assert!(delays[2..11].iter().all(|&d| d == SHORT_DELAY_NS));
    assert_eq!(delays[11], LONG_DELAY_NS);
    // One second later the radio has drained.
    assert_eq!(send(1_000_000_000), 0);
}

#[test]
fn the_radio_buffer_is_estimated_in_doubles() {
    for rate in [48_000u32, 44_100, 96_000, 384_000, 7_777] {
        let mut c = Protocol1Client::new(HpsdrHw::Hermes);
        c.set_sample_rate(rate);
        c.handle_command(P1Command::SetPtt(true));
        let pace = c.pace();
        let mut fill = 0.0f64;
        let mut last = None;
        let mut now = 0u64;
        let mut seed = 1u64;
        for _ in 0..3000 {
            if let Some(then) = last {
                fill -= Duration::from_nanos(now - then).as_secs_f64() * rate as f64;
                if fill < 0.0 {
                    fill = 0.0;
                }
            }
            last = Some(now);
            fill += 126.0;
            let expected = if fill > 0.030 * rate as f64 {
                LONG_DELAY_NS
            } else if fill > 0.006 * rate as f64 {
                SHORT_DELAY_NS
            } else {
                0
            };
            assert_eq!(c.on_send_due(&pace, 126, now), SendDecision::Send);
            assert_eq!(c.data_packet_sent(&pace), expected);
            seed = seed.wrapping_mul(6_364_136_223_846_793_005).wrapping_add(1);
            now += expected + (seed >> 33) % 300_000;
        }
    }
}

#[test]
fn the_schedule_is_kept_unless_it_has_slipped() {
    assert_eq!(next_send_ns(100, 50, 120), 150);
    assert_eq!(next_send_ns(100, 50, 150), 150);
    assert_eq!(next_send_ns(100, 50, 151), 201);
}

#[test]
fn second_protocol_starts_with_three_packets() {
    let mut c = Protocol2Client::new(2);
    let ports = P2Ports {
        rx_specific: 0x0102,
        tx_specific: 0x0304,
        hp_from_pc: 0x0506,
        hp_to_pc: 0x0708,
        tx_iq: 0x090A,
        ddc: vec![0x0B0C, 0x0D0E],
    };
    let mut packets = Vec::new();
    while let Some(packet) = c.start(&ports, packets.len()) {
        packets.push(packet);
        assert_eq!(c.is_running(), packets.len() == 3);
    }
    let to: Vec<u16> = packets.iter().map(|p| p.port).collect();
    assert_eq!(to, [PORT_GENERAL, PORT_RX_SPECIFIC, PORT_HIGH_PRIORITY]);
    let general = &packets[0].bytes;
    assert_eq!(general.len(), 60);
    assert_eq!(&general[4..21], &[0, 1, 2, 3, 4, 5, 6, 7, 8, 0, 0, 9, 10, 11, 12, 13, 14]);
    let rx = &packets[1].bytes;
    assert_eq!(rx.len(), 1444);
    assert_eq!(rx[7], 3);
    assert_eq!(&rx[18..26], &[0, 192, 0, 0, 0, 0, 0, 192]);
    assert!(rx[26..].iter().all(|&b| b == 0));
    let hp = &packets[2].bytes;
    assert_eq!(hp.len(), 1444);
    assert_eq!(hp[4], 1);
    assert_eq!(&hp[9..13], &7_074_000u32.to_be_bytes());
    assert_eq!(&hp[329..333], &7_074_000u32.to_be_bytes());
    assert_eq!(hp[345], 128);
}

#[test]
fn second_protocol_answers_commands_with_packets() {
    let mut c = Protocol2Client::new(1);
    let p = c.handle_command(P2Command::SetRxFrequency(11, 0x01020304));
    assert_eq!(p.port, PORT_HIGH_PRIORITY);
    assert_eq!(&p.bytes[53..57], &[1, 2, 3, 4]);
    let p = c.handle_command(P2Command::SetPtt(true));
    assert_eq!(&p.bytes[..5], &[0, 0, 0, 1, 2]);
    let p = c.handle_command(P2Command::SetSampleRate(384_000));
    assert_eq!(p.port, PORT_RX_SPECIFIC);
    assert_eq!(&p.bytes[18..20], &[1, 128]);
    let p = c.handle_command(P2Command::SetTxDrive(7));
    assert_eq!(p.bytes[345], 7);
    let p = c.handle_command(P2Command::SetTxFrequency(5));
    assert_eq!(&p.bytes[329..333], &[0, 0, 0, 5]);
    let p = c.handle_command(P2Command::Stop);
    assert_eq!(p.bytes[4], 2);
    let p = c.send_tx_iq(&vec![s(1, 1); 241]);
    assert_eq!(p.port, PORT_TX_IQ);
    assert_eq!(&p.bytes[..10], &[0, 0, 0, 0, 0, 0, 1, 0xFF, 0xFF, 0xFF]);
    assert_eq!(&p.bytes[1438..], &[0, 0, 1, 0xFF, 0xFF, 0xFF]);
}

#[test]
fn second_protocol_reads_status_and_samples() {
    assert!(parse_hp_status(&[0; 23]).is_none());
    let mut data = [0u8; 24];
    data[4] = 1;
    data[5] = 3;
    data[7] = 9;
    data[14] = 1;
    data[23] = 2;
    let status = parse_hp_status(&data).unwrap();
    assert!(status.ptt);
    assert_eq!((status.adc_overflow, status.exciter_power), (3, 9));
    assert_eq!((status.forward_power, status.reverse_power), (256, 2));
    assert!(parse_ddc_iq_packet(&[0; 15]).is_none());
    let mut data = vec![0u8; 16 + 18];
    data[15] = 2;
    data[18] = 5;
    data[27] = 7;
    assert_eq!(parse_ddc_iq_packet(&data).unwrap(), [s(5, 0), s(0, -7)]);
    data[14] = 255;
    assert_eq!(parse_ddc_iq_packet(&data).unwrap().len(), 3);
}

#[test]
fn second_protocol_discovers_radios() {
    let req = build_p2_discovery_request();
    assert_eq!(req.len(), 60);
    assert_eq!(&req[..6], &[0, 0, 0, 0, 2, 0]);
    let mut r = vec![0u8; 60];
    r[4] = 3;
    r[5..11].copy_from_slice(&[1, 2, 3, 4, 5, 6]);
    r[11] = 1;
    r[13] = 21;
    r[20] = 2;
    let d = parse_p2_discovery_response(&r, v4([10, 1, 1, 1], 9)).unwrap();
    assert_eq!(d.addr, v4([10, 1, 1, 1], 1024));
    assert_eq!(d.mac, [1, 2, 3, 4, 5, 6]);
    assert_eq!((d.firmware_version, d.num_rxs, d.status), (21, 2, 3));
    r[0] = 1;
    assert!(parse_p2_discovery_response(&r, v4([10, 1, 1, 1], 9)).is_none());
}
