use radio_utils::protocol::types::{
    p1_code_to_sample_rate, pack_iq_24bit_into, pack_iq_24bit_into_negate_q, pack_tx_iq_16bit,
    sample_rate_to_p1_code, unpack_iq_24bit, unpack_tx_iq_16bit, HpsdrHw, IqSample, RadioStatus,
    SAMPLE_RATES_P1,
};
use radio_utils::protocol::wire::mac_to_string;

/// A baseband sample as a pair of real numbers.
#[derive(Clone, Copy)]
struct Sample {
    re: f64,
    im: f64,
}

impl Sample {
    fn new(re: f64, im: f64) -> Self {
        Sample { re, im }
    }

    /// In the units in which 24-bit samples are written.
    fn wire24(self) -> IqSample {
        IqSample {
            i: (self.re * 8_388_607.0) as i32,
            q: (self.im * 8_388_607.0) as i32,
        }
    }

    /// From the units in which 24-bit samples are read.
    fn read24(s: IqSample) -> Self {
        Sample::new(s.i as f64 / 8_388_608.0, s.q as f64 / 8_388_608.0)
    }
}

/// In the units in which 16-bit samples are written.
fn wire16(samples: &[Sample]) -> Vec<IqSample> {
    samples
        .iter()
        .map(|s| IqSample {
            i: (s.re * 32_767.0) as i32,
            q: (s.im * 32_767.0) as i32,
        })
        .collect()
}

/// From the units in which 16-bit samples are read.
fn read16(samples: &[IqSample]) -> Vec<Sample> {
    samples
        .iter()
        .map(|s| Sample::new(s.i as f64 / 32_768.0, s.q as f64 / 32_768.0))
        .collect()
}

// ---- IQ 24-bit pack/unpack roundtrips ----
// These tests use pack_iq_24bit_into_negate_q paired with unpack_iq_24bit,
// both of which apply Q-negation, so they form a correct roundtrip.

#[test]
fn iq_24bit_roundtrip_zero() {
    let sample = Sample::new(0.0, 0.0);
    let mut buf = [0u8; 6];
    pack_iq_24bit_into_negate_q(&mut buf, 0, sample.wire24());
    let out = Sample::read24(unpack_iq_24bit(&buf, 0));
    assert!(out.re.abs() < 1e-6);
    assert!(out.im.abs() < 1e-6);
}

#[test]
fn iq_24bit_roundtrip_positive_one() {
    let sample = Sample::new(1.0, 1.0);
    let mut buf = [0u8; 6];
    pack_iq_24bit_into_negate_q(&mut buf, 0, sample.wire24());
    let out = Sample::read24(unpack_iq_24bit(&buf, 0));
    // Should be close to 1.0 within 24-bit quantization error
    assert!((out.re - 1.0).abs() < 2e-7 + 1.0 / 8_388_607.0);
    assert!((out.im - 1.0).abs() < 2e-7 + 1.0 / 8_388_607.0);
}

#[test]
fn iq_24bit_roundtrip_negative_one() {
    let sample = Sample::new(-1.0, -1.0);
    let mut buf = [0u8; 6];
    pack_iq_24bit_into_negate_q(&mut buf, 0, sample.wire24());
    let out = Sample::read24(unpack_iq_24bit(&buf, 0));
    assert!((out.re - (-1.0)).abs() < 2e-7 + 1.0 / 8_388_607.0);
    assert!((out.im - (-1.0)).abs() < 2e-7 + 1.0 / 8_388_607.0);
}

#[test]
fn iq_24bit_roundtrip_half() {
    let sample = Sample::new(0.5, -0.5);
    let mut buf = [0u8; 6];
    pack_iq_24bit_into_negate_q(&mut buf, 0, sample.wire24());
    let out = Sample::read24(unpack_iq_24bit(&buf, 0));
    assert!((out.re - 0.5).abs() < 2e-7);
    assert!((out.im - (-0.5)).abs() < 2e-7);
}

#[test]
fn iq_24bit_known_bit_pattern() {
    // Pack a known value and verify bytes
    let sample = Sample::new(0.0, 0.0);
    let mut buf = [0u8; 6];
    pack_iq_24bit_into(&mut buf, 0, sample.wire24());
    assert_eq!(buf, [0, 0, 0, 0, 0, 0]);
}

#[test]
fn iq_24bit_clamps_out_of_range() {
    // Values > 1.0 should be clamped
    let sample = Sample::new(2.0, -2.0);
    let mut buf = [0u8; 6];
    pack_iq_24bit_into_negate_q(&mut buf, 0, sample.wire24());
    let out = Sample::read24(unpack_iq_24bit(&buf, 0));
    assert!((out.re - 1.0).abs() < 2e-7 + 1.0 / 8_388_607.0);
    assert!((out.im - (-1.0)).abs() < 2e-7 + 1.0 / 8_388_607.0);
}

#[test]
fn iq_24bit_offset_packing() {
    // Test with non-zero offset
    let sample = Sample::new(0.25, 0.75);
    let mut buf = [0u8; 12];
    pack_iq_24bit_into_negate_q(&mut buf, 6, sample.wire24());
    let out = Sample::read24(unpack_iq_24bit(&buf, 6));
    assert!((out.re - 0.25).abs() < 2e-7);
    assert!((out.im - 0.75).abs() < 2e-7);
}

// ---- IQ 16-bit roundtrip ----

#[test]
fn tx_iq_16bit_roundtrip() {
    let samples = vec![
        Sample::new(0.5, -0.5),
        Sample::new(0.0, 1.0),
        Sample::new(-1.0, 0.0),
    ];
    let packed = pack_tx_iq_16bit(&wire16(&samples));
    assert_eq!(packed.len(), 24); // 3 * 8 bytes
    let unpacked = read16(&unpack_tx_iq_16bit(&packed));
    assert_eq!(unpacked.len(), 3);
    for (orig, recovered) in samples.iter().zip(unpacked.iter()) {
        // 16-bit has ~3e-5 quantization error
        assert!((orig.re - recovered.re).abs() < 5e-5);
        assert!((orig.im - recovered.im).abs() < 5e-5);
    }
}

#[test]
fn tx_iq_16bit_lr_bytes_zero() {
    // L/R audio bytes should always be zero
    let samples = vec![Sample::new(0.5, 0.5)];
    let packed = pack_tx_iq_16bit(&wire16(&samples));
    assert_eq!(packed[0], 0); // L high
    assert_eq!(packed[1], 0); // L low
    assert_eq!(packed[2], 0); // R high
    assert_eq!(packed[3], 0); // R low
}

// ---- HpsdrHw P1 code roundtrip ----

#[test]
fn hpsdr_hw_p1_roundtrip() {
    for hw in [HpsdrHw::Hermes, HpsdrHw::HermesLite] {
        let code = hw.p1_code();
        assert_eq!(
            HpsdrHw::from_p1_code(code),
            Some(hw),
            "P1 roundtrip failed for {:?}",
            hw
        );
    }
}

#[test]
fn hpsdr_hw_unknown_code_returns_none() {
    assert_eq!(HpsdrHw::from_p1_code(99), None);
}

#[test]
fn from_name_accepts_canonical_and_alias() {
    assert_eq!(HpsdrHw::from_name("hermes"), Some(HpsdrHw::Hermes));
    assert_eq!(HpsdrHw::from_name("HERMES"), Some(HpsdrHw::Hermes));
    assert_eq!(HpsdrHw::from_name("hermeslite"), Some(HpsdrHw::HermesLite));
    // `hermeslite2` is the user-facing model name; map it to HermesLite.
    assert_eq!(HpsdrHw::from_name("hermeslite2"), Some(HpsdrHw::HermesLite));
    assert_eq!(HpsdrHw::from_name("nope"), None);
}

// ---- max_ddcs bound ----

#[test]
fn max_ddcs_positive() {
    for hw in [HpsdrHw::Hermes, HpsdrHw::HermesLite] {
        assert!(hw.max_ddcs() >= 1);
    }
}

// ---- Sample rate code roundtrips ----

#[test]
fn sample_rate_code_roundtrip() {
    for (rate, code) in SAMPLE_RATES_P1 {
        assert_eq!(sample_rate_to_p1_code(rate), code);
        assert_eq!(p1_code_to_sample_rate(code), Some(rate));
    }
}

#[test]
fn sample_rate_unknown_returns_zero() {
    assert_eq!(sample_rate_to_p1_code(12345), 0);
}

#[test]
fn p1_code_unknown_returns_none() {
    assert_eq!(p1_code_to_sample_rate(99), None);
}

// ---- mac_to_string format ----

#[test]
fn mac_to_string_format() {
    let mac = [0xDE, 0xAD, 0xBE, 0xEF, 0x01, 0x02];
    let s = mac_to_string(&mac);
    assert_eq!(s, "de:ad:be:ef:01:02");
}

#[test]
fn mac_to_string_zeros() {
    let mac = [0x00; 6];
    assert_eq!(mac_to_string(&mac), "00:00:00:00:00:00");
}

// ---- RadioStatus defaults ----

#[test]
fn radio_status_defaults() {
    let status = RadioStatus::default();
    assert!(!status.ptt);
    assert_eq!(status.adc_overflow, 0);
    assert_eq!(status.forward_power, 0);
    assert_eq!(status.reverse_power, 0);
    assert_eq!(status.exciter_power, 0);
}
