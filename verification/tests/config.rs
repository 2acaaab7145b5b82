use radio_utils::keyer::config::{KeyerConfig, KeyerMode, SerialPin};

#[test]
fn default_config_has_sane_values() {
    let cfg = KeyerConfig::default();
    assert_eq!(cfg.mode, KeyerMode::IambicB);
    assert_eq!(cfg.speed_wpm, 18);
    assert_eq!(cfg.weight, 50);
    assert_eq!(cfg.sidetone_freq, 600);
    assert!((f32::from_bits(cfg.sidetone_volume) - 0.7).abs() < f32::EPSILON);
    assert_eq!(cfg.sidetone_delay_ms, 0);
    assert_eq!(cfg.hang_time_ms, 300);
    assert!(!cfg.keys_reversed);
    assert!(!cfg.auto_spacing);
    assert!(cfg.serial_port.is_none());
    assert_eq!(cfg.dit_pin, SerialPin::CTS);
    assert_eq!(cfg.dash_pin, SerialPin::DSR);
    assert_eq!(cfg.dit_key, Some('z'));
    assert_eq!(cfg.dash_key, Some('x'));
    assert_eq!(cfg.macros.len(), 8);
    assert!(cfg.macros.iter().all(|m| m.is_empty()));
}

#[test]
fn dot_duration_at_standard_speeds() {
    let mut cfg = KeyerConfig::default();

    cfg.speed_wpm = 20;
    assert_eq!(cfg.dot_duration_ms(), 60);

    cfg.speed_wpm = 12;
    assert_eq!(cfg.dot_duration_ms(), 100);
}

#[test]
fn dash_duration_respects_weight() {
    let mut cfg = KeyerConfig::default();
    cfg.speed_wpm = 20; // dot = 60ms

    // Weight 50 → standard ratio: dash = 60 * (1 + 2*1.0) = 180
    cfg.weight = 50;
    assert_eq!(cfg.dash_duration_ms(), 180);

    // Heavier weight → longer dash
    cfg.weight = 75;
    assert_eq!(cfg.dash_duration_ms(), 240); // 60 * (1 + 2*1.5) = 60*4 = 240

    // Lighter weight → shorter dash
    cfg.weight = 25;
    assert_eq!(cfg.dash_duration_ms(), 120); // 60 * (1 + 2*0.5) = 60*2 = 120
}

#[test]
fn midi_config_defaults_to_none() {
    let cfg = KeyerConfig::default();
    assert!(cfg.midi_device.is_none());
    assert!(cfg.midi_dit.is_none());
    assert!(cfg.midi_dah.is_none());
}

#[test]
fn default_new_fields() {
    let cfg = KeyerConfig::default();
    assert_eq!(cfg.farnsworth_wpm, 0);
    assert_eq!(cfg.keying_compensation_ms, 0);
    assert!(!cfg.dynamic_ratio);
    assert_eq!(cfg.dynamic_ratio_low_wpm, 30);
    assert_eq!(cfg.dynamic_ratio_high_wpm, 70);
}

#[test]
fn farnsworth_disabled_when_zero() {
    let mut cfg = KeyerConfig::default();
    cfg.speed_wpm = 20;
    cfg.farnsworth_wpm = 0;
    assert_eq!(cfg.letter_gap_ms(), 60 * 3);
    assert_eq!(cfg.word_gap_ms(), 60 * 7);
}

#[test]
fn farnsworth_disabled_when_gte_speed() {
    let mut cfg = KeyerConfig::default();
    cfg.speed_wpm = 20;
    cfg.farnsworth_wpm = 20;
    assert_eq!(cfg.letter_gap_ms(), 60 * 3);
    assert_eq!(cfg.word_gap_ms(), 60 * 7);
}

#[test]
fn farnsworth_stretches_gaps() {
    let mut cfg = KeyerConfig::default();
    cfg.speed_wpm = 20;
    cfg.farnsworth_wpm = 10;
    assert!(cfg.letter_gap_ms() > 60 * 3);
    assert!(cfg.word_gap_ms() > 60 * 7);
    assert_eq!(cfg.element_gap_ms(), 60);
}

#[test]
fn keying_compensation_extends_elements() {
    let mut cfg = KeyerConfig::default();
    cfg.speed_wpm = 20;
    cfg.keying_compensation_ms = 5;
    assert_eq!(cfg.effective_dot_duration_ms(), 65);
    assert_eq!(cfg.effective_dash_duration_ms(), 185);
}

#[test]
fn dynamic_ratio_shortens_dash_at_high_wpm() {
    let mut cfg = KeyerConfig::default();
    cfg.dynamic_ratio = true;
    cfg.dynamic_ratio_low_wpm = 30;
    cfg.dynamic_ratio_high_wpm = 70;

    cfg.speed_wpm = 30;
    let dot30 = cfg.dot_duration_ms();
    assert_eq!(cfg.dash_duration_ms(), dot30 * 3);

    cfg.speed_wpm = 70;
    let dot70 = cfg.dot_duration_ms();
    let dash70 = cfg.dash_duration_ms();
    let ratio = dash70 as f64 / dot70 as f64;
    assert!(
        (ratio - 2.4).abs() < 0.2,
        "Ratio at 70 WPM should be ~2.4, got {ratio}"
    );
}

#[test]
fn dynamic_ratio_disabled_uses_weight() {
    let mut cfg = KeyerConfig::default();
    cfg.speed_wpm = 50;
    cfg.weight = 50;
    cfg.dynamic_ratio = false;
    assert_eq!(cfg.dash_duration_ms(), cfg.dot_duration_ms() * 3);
}

