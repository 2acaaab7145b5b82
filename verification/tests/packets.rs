use radio_utils::protocol::packets::{
    build_control_bytes, build_tx_packet, parse_response_control_bytes, parse_rx_packet, P1Status,
};
use radio_utils::protocol::types::IqSample;

#[test]
fn parse_rx_packet_too_short() {
    let data = vec![0u8; 100];
    assert!(parse_rx_packet(&data, 1).is_none());
}

#[test]
fn parse_rx_packet_zero_nddc() {
    let data = vec![0u8; 1032];
    assert!(parse_rx_packet(&data, 0).is_none());
}

#[test]
fn parse_rx_packet_bad_sync() {
    let mut data = vec![0u8; 1032];
    // First sub-frame sync is wrong (all zeros)
    assert!(parse_rx_packet(&data, 1).is_none());

    // Set first sync correctly but second is wrong
    data[8] = 0x7F;
    data[9] = 0x7F;
    data[10] = 0x7F;
    assert!(parse_rx_packet(&data, 1).is_none());
}

#[test]
fn parse_rx_packet_valid_frame() {
    let mut data = vec![0u8; 1032];
    // Set sync for both sub-frames
    data[8] = 0x7F;
    data[9] = 0x7F;
    data[10] = 0x7F;
    data[520] = 0x7F;
    data[521] = 0x7F;
    data[522] = 0x7F;

    let frame = parse_rx_packet(&data, 1).unwrap();
    assert_eq!(frame.samples.len(), 1);
    // With 1 DDC: row = 6+2=8 bytes, 504/8 = 63 samples per sub-frame, 126 total
    assert_eq!(frame.samples[0].len(), 126);
}

#[test]
fn build_tx_packet_structure() {
    let tx_iq = vec![
        IqSample {
            i: (0.5 * 32_767.0) as i32,
            q: (-0.5 * 32_767.0) as i32,
        };
        126
    ];
    let cb1 = [0x00, 0x01, 0x00, 0x00, 0x00];
    let cb2 = [0x02, 0x00, 0x07, 0x07, 0x40];

    let pkt = build_tx_packet(42, &tx_iq, cb1, cb2);
    assert_eq!(pkt.len(), 1032);

    // Header
    assert_eq!(pkt[0], 0xEF);
    assert_eq!(pkt[1], 0xFE);
    assert_eq!(pkt[2], 0x01);
    assert_eq!(pkt[3], 0x02);

    // Sequence
    assert_eq!(u32::from_be_bytes([pkt[4], pkt[5], pkt[6], pkt[7]]), 42);

    // Sub-frame 0 sync
    assert_eq!(&pkt[8..11], &[0x7F, 0x7F, 0x7F]);
    // Sub-frame 0 control bytes
    assert_eq!(&pkt[11..16], &cb1);

    // Sub-frame 1 sync
    assert_eq!(&pkt[520..523], &[0x7F, 0x7F, 0x7F]);
    // Sub-frame 1 control bytes
    assert_eq!(&pkt[523..528], &cb2);
}

#[test]
fn build_control_bytes_address_0x00() {
    let cb = build_control_bytes(0x00, 7_074_000, 1, false, 2, 0, 0);
    assert_eq!(cb[0], 0x00); // address, no PTT
    assert_eq!(cb[1], 0x01); // sample rate index = 1 (96k)
    assert_eq!(cb[4], (1 << 3) | 0x04); // nddc-1 = 1, shifted left 3, plus duplex bit
}

#[test]
fn build_control_bytes_address_0x00_ptt() {
    let cb = build_control_bytes(0x00, 7_074_000, 0, true, 1, 0, 0);
    assert_eq!(cb[0], 0x01); // address 0x00 | PTT bit
}

#[test]
fn build_control_bytes_frequency() {
    let freq: u64 = 14_200_000;
    let cb = build_control_bytes(0x04, freq, 0, false, 1, 0, 0);
    assert_eq!(cb[0], 0x04);
    let parsed_freq = u32::from_be_bytes([cb[1], cb[2], cb[3], cb[4]]);
    assert_eq!(parsed_freq, freq as u32);
}

#[test]
fn build_control_bytes_attenuation() {
    let cb = build_control_bytes(0x14, 0, 0, false, 1, 20, 0);
    assert_eq!(cb[0], 0x14);
    assert_eq!(cb[4], 20);
}

#[test]
fn build_control_bytes_tx_drive() {
    let cb = build_control_bytes(0x12, 0, 0, false, 1, 0, 200);
    assert_eq!(cb[0], 0x12);
    assert_eq!(cb[1], 200);
}

#[test]
fn parse_response_control_bytes_addr_0x08() {
    let mut status = P1Status::default();
    // Simulate address 0x08 with exciter_power=0x1234, forward_power=0x5678
    parse_response_control_bytes(&mut status, 0x08, 0x12, 0x34, 0x56, 0x78);
    assert_eq!(status.response_addr, 0x08);
    assert_eq!(status.exciter_power, 0x1234);
    assert_eq!(status.forward_power, 0x5678);
    assert!(!status.ptt);
}

#[test]
fn parse_response_control_bytes_ptt() {
    let mut status = P1Status::default();
    parse_response_control_bytes(&mut status, 0x01, 0, 0, 0, 0); // addr 0x00 | PTT
    assert!(status.ptt);
    assert_eq!(status.response_addr, 0x00);
}

#[test]
fn roundtrip_tx_rx() {
    // Build a TX packet and verify it can be parsed back
    let tx_iq = vec![IqSample { i: 0, q: 0 }; 126];
    let cb1 = [0x00, 0x00, 0x00, 0x00, 0x00];
    let cb2 = [0x00, 0x00, 0x00, 0x00, 0x00];

    let pkt = build_tx_packet(0, &tx_iq, cb1, cb2);
    assert_eq!(pkt.len(), 1032);
    // TX packets have sync at [8..11] and [520..523]
    assert_eq!(&pkt[8..11], &[0x7F, 0x7F, 0x7F]);
    assert_eq!(&pkt[520..523], &[0x7F, 0x7F, 0x7F]);
}
