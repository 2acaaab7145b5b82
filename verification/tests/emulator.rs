use num_complex::Complex;
use radio_utils::emulator::cli::{echo_label, echo_mode, parse_mac, parse_radio};
use radio_utils::emulator::echo::{
    is_in_band, unpack_tx_iq_16bit_into, EchoBuffer, EchoMode, EchoPlaybackState, EchoSample,
    LIVE_DELAY,
};
use radio_utils::emulator::protocol1::{
    build_data_packet_sync, packet_interval_ns, plan_subframe, process_control,
    process_host_frame, ClientState, DdcEcho, PowerReading, StreamParams, TxLevel,
};
use radio_utils::emulator::radio::{localized, HwInfo};
use radio_utils::emulator::server::{build_discovery_response, P1Server, ServerAction};
use radio_utils::protocol::discovery::parse_p1_discovery_response;
use radio_utils::protocol::protocol1::{P1Command, Protocol1Client};
use radio_utils::protocol::types::{HpsdrHw, IqSample, SocketAddress};
use std::f64::consts::PI;

const BURST_FEEDS: usize = 8;

fn at(i: i64) -> EchoSample {
    EchoSample { i, q: 0 }
}

fn addr(n: u8) -> SocketAddress {
    SocketAddress::V4 {
        ip: u32::from_be_bytes([10, 0, 0, n]),
        port: 40_000,
    }
}

/// Amplitude of a tone in a buffer.
fn tone_mag(buf: &[Complex<f64>], freq_hz: f64, sample_rate: f64) -> f64 {
    let omega = 2.0 * PI * freq_hz / sample_rate;
    let mut acc = Complex::new(0.0, 0.0);
    for (k, s) in buf.iter().enumerate() {
        let phi = -omega * k as f64;
        acc += *s * Complex::new(phi.cos(), phi.sin());
    }
    acc.norm() / buf.len() as f64
}

/// Ratio of a tone to everything else in a buffer, in decibels.
fn sinad_db(buf: &[Complex<f64>], freq_hz: f64, sample_rate: f64) -> f64 {
    let total: f64 = buf.iter().map(|s| s.norm_sqr()).sum::<f64>() / buf.len() as f64;
    let tone = tone_mag(buf, freq_hz, sample_rate).powi(2);
    10.0 * (tone / (total - tone).max(1e-30)).log10()
}

/// Plays a tone of 1 kHz into a live buffer, `feeds` runs of 63 samples for
/// every two runs that are read, and returns what was read.
fn live_tone(rounds: usize, feeds: usize) -> Vec<Complex<f64>> {
    let sr: u32 = 48_000;
    let freq: u32 = 7_074_000;
    let sub_n = 63usize;
    let mut echo = EchoBuffer::new(EchoMode::Live);
    echo.start_recording(freq, 1, sr);
    let mut ps = EchoPlaybackState::new();
    let mut rx_out: Vec<Complex<f64>> = Vec::new();
    let mut tx_off = 0usize;
    for _ in 0..rounds {
        for _ in 0..feeds {
            let run: Vec<EchoSample> = (0..sub_n)
                .map(|k| {
                    let phi = 2.0 * PI * 1000.0 * (tx_off + k) as f64 / sr as f64;
                    EchoSample {
                        i: (0.5 * phi.cos() * 32_768.0).round() as i64,
                        q: (0.5 * phi.sin() * 32_768.0).round() as i64,
                    }
                })
                .collect();
            tx_off += sub_n;
            echo.feed(freq, 1, &run);
        }
        for _ in 0..2 {
            for seg in echo.generate_live_echo_into(&mut ps, sub_n, freq, sr) {
                rx_out.extend(
                    seg.samples
                        .iter()
                        .map(|s| Complex::new(s.i as f64 / 32_768.0, s.q as f64 / 32_768.0)),
                );
            }
        }
    }
    echo.stop_recording(freq, 1);
    rx_out
}

#[test]
fn live_echo_passes_continuous_tone_unchanged() {
    let rx_out = live_tone(750, 2);
    let head = (2 * LIVE_DELAY).div_ceil(63) * 63;
    let active = &rx_out[head..];
    assert!(active.len() >= 8192, "active buf too short: {}", active.len());
    let sinad = sinad_db(&active[..8192], 1000.0, 48_000.0);
    assert!(sinad > 30.0, "live-echo unit test SINAD too low: {sinad:.1} dB");
}

#[test]
fn live_echo_handles_bursty_writes() {
    let rx_out = live_tone(200, BURST_FEEDS);
    let head = 2048usize.min(rx_out.len() / 4);
    let active = &rx_out[head..];
    let n = 8192.min(active.len());
    let sinad = sinad_db(&active[..n], 1000.0, 48_000.0);
    assert!(sinad > 30.0, "live-echo bursty SINAD too low: {sinad:.1} dB");
}

#[test]
fn live_playback_stays_behind_while_recording() {
    let mut echo = EchoBuffer::new(EchoMode::Live);
    let mut ps = EchoPlaybackState::new();
    assert!(!echo.has_data());
    echo.start_recording(7_000_000, 5, 48_000);
    assert!(echo.has_data());
    assert!(echo.is_recording_on(7_000_000));
    let run: Vec<EchoSample> = (1..=1100).map(at).collect();
    echo.feed(7_000_000, 5, &run);
    let seg = &echo.generate_live_echo_into(&mut ps, 100, 7_000_000, 48_000)[0];
    assert!(seg.restarted);
    assert_eq!(seg.offset_hz, 0);
    // The delay is reached: reading starts at its edge and finds nothing more.
    assert!(seg.samples.iter().all(|s| *s == at(0)));
    echo.feed(7_000_000, 5, &run[..50]);
    let seg = &echo.generate_live_echo_into(&mut ps, 100, 7_000_000, 48_000)[0];
    assert!(!seg.restarted);
    assert_eq!(seg.samples[0], at(77));
    assert_eq!(seg.samples[49], at(126));
    assert_eq!(seg.samples[50], at(0));
    echo.stop_recording(7_000_000, 5);
    let seg = &echo.generate_live_echo_into(&mut ps, 10, 7_000_100, 48_000)[0];
    assert_eq!(seg.offset_hz, 100);
    assert_eq!(seg.samples[0], at(127));
}

#[test]
fn concurrent_transmitters_are_heard_together() {
    let mut echo = EchoBuffer::new(EchoMode::Live);
    let mut ps = EchoPlaybackState::new();
    echo.start_recording(14_000_000, 1, 48_000);
    echo.start_recording(14_000_000, 2, 48_000);
    echo.feed(14_000_000, 1, &[at(10), at(20), at(30)]);
    echo.feed(14_000_000, 2, &[at(1), at(2)]);
    echo.feed(14_000_000, 3, &[at(500)]);
    echo.stop_recording(14_000_000, 1);
    echo.stop_recording(14_000_000, 2);
    assert!(!echo.is_recording_on(14_000_000));
    let seg = &echo.generate_live_echo_into(&mut ps, 4, 14_000_000, 48_000)[0];
    assert_eq!(seg.samples, [at(11), at(22), at(30), at(0)]);
}

#[test]
fn a_late_transmitter_is_dropped_and_goes_on_at_the_oldest_sample() {
    let mut echo = EchoBuffer::new(EchoMode::Live);
    echo.max_duration_ms = 100;
    echo.start_recording(7_000_000, 1, 1000);
    echo.start_recording(7_000_000, 2, 1000);
    let run: Vec<EchoSample> = (1..=150).map(at).collect();
    echo.feed(7_000_000, 1, &run);
    echo.feed(7_000_000, 2, &[at(1000), at(1000)]);
    echo.feed(7_000_000, 2, &[at(7)]);
    echo.stop_recording(7_000_000, 1);
    echo.stop_recording(7_000_000, 2);
    let mut ps = EchoPlaybackState::new();
    let seg = &echo.generate_live_echo_into(&mut ps, 3, 7_000_000, 1000)[0];
    assert_eq!(seg.samples, [at(58), at(52), at(53)]);
}

#[test]
fn bands_end_at_half_the_sample_rate() {
    assert!(is_in_band(7_024_000, 7_000_000, 48_000));
    assert!(!is_in_band(7_024_001, 7_000_000, 48_000));
    assert!(is_in_band(6_976_000, 7_000_000, 48_000));
    assert!(!is_in_band(0, u32::MAX, 384_000));
}

fn record_loop(samples: &[EchoSample]) -> EchoBuffer {
    let mut echo = EchoBuffer::new(EchoMode::Loop);
    echo.start_recording(7_000_000, 1, 1000);
    echo.feed(7_000_000, 1, samples);
    echo.stop_recording(7_000_000, 1);
    echo
}

#[test]
fn a_recording_is_trimmed_padded_and_repeated() {
    let mut samples = vec![at(0); 3];
    samples.extend((1..=100).map(at));
    samples.extend(vec![at(0); 7]);
    let echo = record_loop(&samples);
    assert!(echo.has_data());
    let mut ps = EchoPlaybackState::new();
    // 100 samples and half a second of silence, with 40 ms blended: 560 samples.
    let seg = &echo.generate_echo_into(&mut ps, 1200, 7_000_000, 1000)[0];
    assert_eq!(seg.samples.len(), 1200);
    assert_eq!(seg.samples[0].head, at(1));
    assert_eq!(seg.samples[0].tail, Some(at(0)));
    assert_eq!((seg.samples[3].pos, seg.samples[3].fade), (3, 40));
    assert_eq!(seg.samples[40].head, at(41));
    assert_eq!(seg.samples[40].tail, None);
    assert_eq!(seg.samples[99].head, at(100));
    assert_eq!(seg.samples[100].head, at(0));
    for k in 0..640 {
        assert_eq!(seg.samples[k], seg.samples[k + 560]);
    }
    let next = &echo.generate_echo_into(&mut ps, 5, 7_000_000, 1000)[0];
    assert_eq!(next.samples[0], seg.samples[1200 - 1120]);
}

#[test]
fn silent_or_unplaced_recordings_make_no_loop() {
    assert!(!record_loop(&[at(0), at(0)]).has_data());
    let mut echo = EchoBuffer::new(EchoMode::Loop);
    echo.start_recording(0, 1, 1000);
    echo.feed(0, 1, &[at(9)]);
    echo.stop_recording(0, 1);
    assert!(!echo.has_data());
    echo.stop_recording(0, 1);
    assert!(!echo.is_recording_on(0));
}

#[test]
fn a_short_pause_is_kept_and_a_long_one_starts_anew() {
    for (pause_ns, gap) in [(2_000_000u128, Some(2usize)), (30_000_000_000, None)] {
        let mut echo = EchoBuffer::new(EchoMode::Loop);
        echo.start_recording_after(7_000_000, 1, 1000, 0);
        echo.feed(7_000_000, 1, &[at(5)]);
        echo.stop_recording(7_000_000, 1);
        echo.start_recording_after(7_000_000, 1, 1000, pause_ns);
        echo.feed(7_000_000, 1, &[at(6)]);
        echo.stop_recording(7_000_000, 1);
        let mut ps = EchoPlaybackState::new();
        let seg = &echo.generate_echo_into(&mut ps, 8, 7_000_000, 1000)[0];
        let heads: Vec<EchoSample> = seg.samples.iter().map(|s| s.head).collect();
        match gap {
            Some(n) => {
                assert_eq!(heads[0], at(5));
                assert!(heads[1..=n].iter().all(|s| *s == at(0)));
                assert_eq!(heads[n + 1], at(6));
            }
            None => assert_eq!(heads[0], at(6)),
        }
    }
}

#[test]
fn a_pause_is_reckoned_in_doubles() {
    let mut echo = EchoBuffer::new(EchoMode::Loop);
    echo.start_recording_after(7_000_000, 1, 48_000, 0);
    echo.feed(7_000_000, 1, &[at(5)]);
    echo.stop_recording(7_000_000, 1);
    echo.start_recording_after(7_000_000, 1, 48_000, 290_000_000);
    echo.feed(7_000_000, 1, &[at(6)]);
    echo.stop_recording(7_000_000, 1);
    let mut ps = EchoPlaybackState::new();
    let seg = &echo.generate_echo_into(&mut ps, 14_000, 7_000_000, 48_000)[0];
    let gap = (0.29f64 * 48_000.0) as usize;
    assert_eq!(gap, 13_919);
    assert_eq!(seg.samples[gap].head, at(0));
    assert_eq!(seg.samples[gap + 1].head, at(6));
    // The longest duration as well.
    let mut echo = EchoBuffer::new(EchoMode::Loop);
    echo.max_duration_ms = 290;
    echo.start_recording_after(7_000_000, 1, 48_000, 0);
    echo.feed(7_000_000, 1, &vec![at(1); 20_000]);
    echo.stop_recording(7_000_000, 1);
    let mut ps = EchoPlaybackState::new();
    let n = gap - 1920;
    let seg = &echo.generate_echo_into(&mut ps, n + 1, 7_000_000, 48_000)[0];
    assert_eq!((seg.samples[n - 1].pos, seg.samples[n].pos), (n - 1, 0));
}

#[test]
fn recordings_keep_the_newest_samples() {
    let mut echo = EchoBuffer::new(EchoMode::Loop);
    echo.max_duration_ms = 100;
    echo.start_recording(7_000_000, 1, 1000);
    for k in 0..30 {
        let run: Vec<EchoSample> = (0..10).map(|j| at(1 + 10 * k + j)).collect();
        echo.feed(7_000_000, 1, &run);
    }
    echo.stop_recording(7_000_000, 1);
    let mut ps = EchoPlaybackState::new();
    let seg = &echo.generate_echo_into(&mut ps, 100, 7_000_000, 1000)[0];
    // The newest 100 samples, of which 25 are blended into the start.
    assert_eq!(seg.samples[0].head, at(201));
    assert_eq!(seg.samples[0].tail, Some(at(276)));
    assert_eq!(seg.samples[74].head, at(275));
    assert_eq!(seg.samples[75].head, at(201));
}

#[test]
fn room_is_left_in_an_ordinary_buffer() {
    let mut echo = EchoBuffer::new(EchoMode::Live);
    assert!(echo.has_room());
    echo.start_recording(7_000_000, 1, 48_000);
    echo.feed(7_000_000, 1, &[at(1)]);
    assert!(echo.has_room());
    assert!(echo.can_start(7_000_000));
    assert!(echo.can_feed(7_000_000, 63));
    assert!(!echo.can_feed(7_000_000, usize::MAX));
    assert!(echo.can_feed(1, usize::MAX));
}

#[test]
fn transmit_samples_are_unpacked_as_far_as_there_is_room() {
    let mut data = [0u8; 24];
    data[4..8].copy_from_slice(&[0x7F, 0xFF, 0x80, 0x00]);
    data[13] = 5;
    let mut out = [at(9); 2];
    assert_eq!(unpack_tx_iq_16bit_into(&data, &mut out), 2);
    assert_eq!(out[0], EchoSample { i: 32_767, q: -32_768 });
    assert_eq!(out[1], at(5));
    let mut out = [at(9); 4];
    assert_eq!(unpack_tx_iq_16bit_into(&data, &mut out), 3);
    assert_eq!(out[3], at(9));
}

#[test]
fn command_line_values_are_read() {
    assert_eq!(parse_radio("HERMES"), Ok(HpsdrHw::Hermes));
    assert_eq!(parse_radio("hermeslite2"), Ok(HpsdrHw::HermesLite));
    assert_eq!(
        parse_radio("orion"),
        Err("unknown radio 'orion'. Valid: hermes, hermeslite".to_string())
    );
    let mac = Some([0x00, 0x1C, 0xC0, 0xA2, 0x22, 0x5E]);
    assert_eq!(parse_mac("00:1c:c0:a2:22:5e"), mac);
    assert_eq!(parse_mac("001CC0A2225E"), mac);
    assert_eq!(parse_mac("00:1c:c0:a2:22"), None);
    assert_eq!(parse_mac("00:1c:c0:a2:22:5e:0"), None);
    assert_eq!(echo_mode(true, true), Some(EchoMode::Live));
    assert_eq!(echo_mode(false, true), Some(EchoMode::Loop));
    assert_eq!(echo_mode(false, false), None);
    assert_eq!(echo_label(Some(EchoMode::Loop)), "loop");
    assert_eq!(echo_label(Some(EchoMode::Live)), "live");
    assert_eq!(echo_label(None), "off");
}

#[test]
fn random_addresses_are_local_and_differ() {
    assert_eq!(localized([0xFF, 1, 2, 3, 4, 5]), [0xFE, 1, 2, 3, 4, 5]);
    assert_eq!(localized([0x00, 1, 2, 3, 4, 5])[0], 0x02);
    let a = HwInfo::random_mac();
    assert_eq!(a[0] & 0x03, 0x02);
    assert!((0..8).any(|_| HwInfo::random_mac() != a));
}

#[test]
fn the_host_finds_the_emulated_radio() {
    let hw = HwInfo::new(HpsdrHw::HermesLite, [2, 1, 2, 3, 4, 5]);
    assert_eq!(hw.mac_string(), "02:01:02:03:04:05");
    let response = build_discovery_response(&hw, hw.hw.max_ddcs());
    assert_eq!(response.len(), 60);
    assert_eq!(&response[14..20], &[25; 6]);
    let found = parse_p1_discovery_response(&response, addr(1)).unwrap();
    assert_eq!(found.hw_type, HpsdrHw::HermesLite);
    assert_eq!(found.mac, hw.mac);
    assert_eq!((found.firmware_version, found.num_rxs), (25, 2));
}

const START: [u8; 4] = [0xEF, 0xFE, 0x04, 0x01];
const STOP: [u8; 4] = [0xEF, 0xFE, 0x04, 0x00];
const DATA: [u8; 4] = [0xEF, 0xFE, 0x01, 0x02];

#[test]
fn clients_are_started_served_and_stopped() {
    let mut server = P1Server::new(2);
    let find = server.on_packet(addr(1), &[0xEF, 0xFE, 0x02, 0]);
    assert_eq!(find.action, ServerAction::SendDiscovery);
    assert_eq!(server.on_packet(addr(1), &DATA).action, ServerAction::Ignore);
    assert_eq!(server.on_packet(addr(1), &START).action, ServerAction::StartClient { id: 0 });
    assert_eq!(server.on_packet(addr(1), &START).action, ServerAction::Ignore);
    assert_eq!(server.on_packet(addr(2), &START).action, ServerAction::StartClient { id: 1 });
    assert_eq!(server.on_packet(addr(3), &START).action, ServerAction::Ignore);
    assert_eq!(server.client_count(), 2);
    assert_eq!(server.on_packet(addr(2), &DATA).action, ServerAction::Forward { id: 1 });
    assert_eq!(server.on_packet(addr(1), &STOP).action, ServerAction::StopClient { id: 0 });
    assert_eq!(server.on_packet(addr(1), &STOP).action, ServerAction::Ignore);
    assert_eq!(server.on_packet(addr(1), &START).action, ServerAction::StartClient { id: 2 });
    server.forget(addr(2));
    server.forget(addr(9));
    assert_eq!(server.client_count(), 1);
    assert!(server.has_free_id());
    assert_eq!(server.on_packet(addr(1), &[0xEF, 0xFE, 0x01]).action, ServerAction::Ignore);
    assert_eq!(server.on_packet(addr(1), &[0xEF, 0xFE, 0x04, 0x07]).action, ServerAction::Ignore);
}

#[test]
fn gone_clients_are_looked_for_every_hundred_packets() {
    let mut server = P1Server::new(1);
    let sweeps: Vec<usize> = (1..=250)
        .filter(|_| server.on_packet(addr(1), &DATA).sweep)
        .collect();
    assert_eq!(sweeps, [100, 200]);
}

#[test]
fn host_commands_reach_the_radio() {
    let mut host = Protocol1Client::new(HpsdrHw::HermesLite);
    host.set_sample_rate(96_000);
    host.set_nddc(2);
    host.set_tx_drive(200);
    host.handle_command(P1Command::SetPtt(true));
    let mut radio = ClientState::new(7, 48_000);
    for _ in 0..7 {
        let p = host.host_data_packet();
        process_host_frame(&mut radio, &p, &mut None);
    }
    assert!(radio.is_transmitting());
    assert_eq!(radio.tx_drive(), 200);
    assert_eq!(radio.stream_params(), StreamParams { nddc: 2, sample_rate: 96_000 });
    assert_eq!(radio.samples_per_frame(), 36);
}

#[test]
fn packet_pace_of_the_radio() {
    let p = StreamParams { nddc: 1, sample_rate: 48_000 };
    assert_eq!(packet_interval_ns(&p), 2_625_000);
    let p = StreamParams { nddc: 2, sample_rate: 384_000 };
    assert_eq!(packet_interval_ns(&p), 187_500);
    let p = StreamParams { nddc: 4, sample_rate: 96_000 };
    assert_eq!(packet_interval_ns(&p), 395_833);
    // A half is rounded to the even nanosecond.
    let p = StreamParams { nddc: 1, sample_rate: 6144 };
    assert_eq!(packet_interval_ns(&p), 20_507_812);
    let p = StreamParams { nddc: 1, sample_rate: 2048 };
    assert_eq!(packet_interval_ns(&p), 61_523_438);
    // The number of seconds is a double, here a little below a half.
    let p = StreamParams { nddc: 1, sample_rate: 10_240 };
    assert_eq!(packet_interval_ns(&p), 12_304_687);
}

#[test]
fn control_bytes_set_the_client_up() {
    let mut cs = ClientState::new(1, 48_000);
    assert!(process_control(&mut cs, 0x13, 77, 0x08, 0, 0));
    assert_eq!(cs.tx_drive(), 77);
    assert!(!process_control(&mut cs, 0x01, 3, 0, 0, 3 << 3));
    assert_eq!(cs.stream_params(), StreamParams { nddc: 4, sample_rate: 384_000 });
    assert!(process_control(&mut cs, 0x1E, 0, 0, 0, 0));
    assert!(!cs.is_transmitting());
}

#[test]
fn the_radio_hears_what_the_host_sends() {
    let mut host = Protocol1Client::new(HpsdrHw::Hermes);
    host.handle_command(P1Command::SetPtt(true));
    host.queue_samples(&vec![IqSample { i: 3000, q: 4000 }; 126]);
    let mut radio = ClientState::new(7, 48_000);
    let mut echo = Some(EchoBuffer::new(EchoMode::Loop));
    let p = host.host_data_packet();
    let levels = process_host_frame(&mut radio, &p, &mut echo);
    assert_eq!(levels, [TxLevel::Peak(25_000_000), TxLevel::Peak(25_000_000)]);
    host.handle_command(P1Command::SetPtt(false));
    let p = host.host_data_packet();
    let levels = process_host_frame(&mut radio, &p, &mut echo);
    assert_eq!(levels, [TxLevel::Quiet, TxLevel::Quiet]);
    assert_eq!(radio.take_recording(), None);
    let plan = plan_subframe(&mut radio, &echo);
    assert_eq!(plan.len(), 1);
    match &plan[0] {
        DdcEcho::Loop(segments) => {
            assert_eq!(segments[0].samples[0].head, EchoSample { i: 3000, q: -4000 });
        }
        _ => panic!("no loop"),
    }
}

#[test]
fn a_recording_is_given_up_with_its_client() {
    let mut host = Protocol1Client::new(HpsdrHw::Hermes);
    host.handle_command(P1Command::SetPtt(true));
    let mut radio = ClientState::new(7, 48_000);
    let mut echo = Some(EchoBuffer::new(EchoMode::Live));
    process_host_frame(&mut radio, &host.host_data_packet(), &mut echo);
    assert_eq!(radio.take_recording(), Some(7_074_000));
    assert_eq!(radio.take_recording(), None);
    assert!(process_host_frame(&mut radio, &[0; 1032], &mut echo).is_empty());
}

#[test]
fn without_echo_receivers_are_silent() {
    let mut radio = ClientState::new(7, 48_000);
    let plan = plan_subframe(&mut radio, &None);
    assert!(matches!(plan[0], DdcEcho::Silent));
    let plan = plan_subframe(&mut radio, &Some(EchoBuffer::new(EchoMode::Live)));
    assert!(matches!(plan[0], DdcEcho::Silent));
}

#[test]
fn the_host_reads_samples_and_telemetry_of_the_radio() {
    let hw = HwInfo::new(HpsdrHw::Hermes, [2, 0, 0, 0, 0, 1]);
    let power = PowerReading {
        exciter: 800,
        forward: 3800,
        reverse: 494,
    };
    let mut radio = ClientState::new(7, 48_000);
    process_control(&mut radio, 0x13, 100, 0, 0, 0);
    let run: Vec<IqSample> = (0..63).map(|k| IqSample { i: k, q: -k }).collect();
    let samples = vec![run];
    let mut host = Protocol1Client::new(HpsdrHw::Hermes);
    let mut status = None;
    for seq in 0..3u32 {
        let p = build_data_packet_sync(&mut radio, &hw, &power, &samples, &samples);
        assert_eq!(p.len(), 1032);
        assert_eq!(&p[..4], &[0xEF, 0xFE, 0x01, 0x06]);
        assert_eq!(&p[4..8], &seq.to_be_bytes());
        for r in host.handle_radio_packet(&p) {
            assert_eq!(r.samples[0][62], IqSample { i: 62, q: 62 });
            status = r.status.or(status);
        }
    }
    let status = status.unwrap();
    assert!(status.ptt);
    assert_eq!((status.exciter_power, status.forward_power), (800, 3800));
    assert_eq!((status.reverse_power, status.supply_voltage), (494, 3200));
    assert_eq!(status.pa_current, 500);
}

#[test]
fn power_is_reported_only_while_driven() {
    let hw = HwInfo::new(HpsdrHw::Hermes, [2, 0, 0, 0, 0, 1]);
    let power = PowerReading {
        exciter: 1,
        forward: 2,
        reverse: 3,
    };
    let mut radio = ClientState::new(7, 48_000);
    let samples = vec![vec![IqSample { i: 0, q: 0 }; 63]];
    let p = build_data_packet_sync(&mut radio, &hw, &power, &samples, &samples);
    assert_eq!(&p[8..16], &[0x7F, 0x7F, 0x7F, 0x00, 0, 25, 25, 0]);
    assert_eq!(&p[523..528], &[0x08, 0, 0, 0, 0]);
    let p = build_data_packet_sync(&mut radio, &hw, &power, &samples, &samples);
    assert_eq!(&p[11..16], &[0x10, 0, 0, 0x0C, 0x80]);
    assert_eq!(&p[523..528], &[0x18, 0, 0, 0x0C, 0x80]);
}

#[test]
fn a_whole_recording_becomes_a_loop() {
    let mut echo = EchoBuffer::new(EchoMode::Loop);
    echo.start_recording(7_000_000, 1, 48_000);
    echo.feed(7_000_000, 1, &[at(0), at(0), at(1), at(2)]);
    echo.feed(7_000_000, 1, &[]);
    echo.feed(7_000_000, 1, &[at(0), at(4), at(0)]);
    echo.stop_recording(7_000_000, 1);
    assert!(echo.has_data());
    let mut ps = EchoPlaybackState::new();
    // Four samples, half a second of silence, 40 ms blended.
    let period = 4 + 24_000 - 1920;
    let seg = &echo.generate_echo_into(&mut ps, 2 * period, 7_000_000, 48_000)[0];
    let heads: Vec<EchoSample> = seg.samples[..5].iter().map(|s| s.head).collect();
    assert_eq!(heads, vec![at(1), at(2), at(0), at(4), at(0)]);
    assert_eq!(seg.samples[0].fade, 1920);
    for k in 0..period {
        assert_eq!(seg.samples[k], seg.samples[k + period]);
    }
}

#[test]
fn live_reads_are_consecutive() {
    let mut echo = EchoBuffer::new(EchoMode::Live);
    let mut ps = EchoPlaybackState::new();
    echo.start_recording(7_000_000, 5, 48_000);
    let all: Vec<EchoSample> = (1..=5000).map(at).collect();
    echo.feed(7_000_000, 5, &all[..1500]);
    let mut fed = 1500;
    let mut next = 1500 - 1024;
    for n in [10, 63, 500, 1, 0, 200, 63, 900] {
        let seg = &echo.generate_live_echo_into(&mut ps, n, 7_000_000, 48_000)[0];
        let count = n.min(fed - 1024 - next);
        assert_eq!(&seg.samples[..count], &all[next..next + count]);
        assert!(seg.samples[count..].iter().all(|s| *s == at(0)));
        next += count;
        echo.feed(7_000_000, 5, &all[fed..fed + 150]);
        fed += 150;
    }
}
