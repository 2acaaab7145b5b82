use radio_utils::keyer::config::{KeyerConfig, KeyerMode, MidiBinding, SerialPin, UsbEmitStyle};
use radio_utils::keyer::control::{
    apply_command, plan_ticks, run_ticks, wait_timeout_ms, KeyerCommand, ACTIVE_WAIT_MS,
    IDLE_WAIT_MS,
};
use radio_utils::keyer::engine::{KeyerEngine, KeyerOutput, KeyerState, MAX_RECORDED_TRANSITIONS};

fn config(mode: KeyerMode, wpm: u8) -> KeyerConfig {
    KeyerConfig {
        mode,
        speed_wpm: wpm,
        ..KeyerConfig::default()
    }
}

fn engine(mode: KeyerMode, wpm: u8) -> KeyerEngine {
    KeyerEngine::new(config(mode, wpm))
}

/// Times, in ticks, at which the key goes down and up.
fn marks(engine: &mut KeyerEngine, ticks: u32) -> Vec<(u32, bool)> {
    let mut out = Vec::new();
    for t in 0..ticks {
        match engine.tick() {
            Some(KeyerOutput::KeyDown) => out.push((t, true)),
            Some(KeyerOutput::KeyUp) => out.push((t, false)),
            _ => {}
        }
    }
    out
}

fn pressed_for(marks: &[(u32, bool)]) -> Vec<u32> {
    marks
        .windows(2)
        .filter(|w| w[0].1 && !w[1].1)
        .map(|w| w[1].0 - w[0].0)
        .collect()
}

#[test]
fn durations_in_microseconds_are_exact() {
    let cfg = config(KeyerMode::IambicB, 28);
    assert_eq!(cfg.dot_duration_us(), 42_857);
    assert_eq!(cfg.dash_duration_us(), 128_571);
    assert_eq!(cfg.element_gap_us(), 42_857);
    assert_eq!(cfg.letter_gap_us(), 128_571);
    assert_eq!(cfg.word_gap_us(), 299_999);
}

#[test]
fn speed_zero_counts_as_one_word_per_minute() {
    let cfg = config(KeyerMode::IambicB, 0);
    assert_eq!(cfg.dot_duration_us(), 1_200_000);
}

#[test]
fn dash_length_is_rounded_like_a_double() {
    let mut cfg = config(KeyerMode::IambicB, 1);
    cfg.weight = 9;
    let by_formula = (cfg.dot_duration_us() as f64 * (1.0 + 2.0 * (9.0 / 50.0))) as u32;
    assert_eq!(cfg.dash_duration_us(), by_formula);
    for weight in 0..=255u8 {
        for wpm in [1u8, 7, 13, 20, 28, 33, 60, 255] {
            cfg.weight = weight;
            cfg.speed_wpm = wpm;
            let dot = cfg.dot_duration_us() as f64;
            let dash = (dot * (1.0 + 2.0 * (weight as f64 / 50.0))) as u32;
            assert_eq!(cfg.dash_duration_us(), dash, "weight {weight}, {wpm} wpm");
        }
    }
}

#[test]
fn dynamic_ratio_goes_from_three_to_two_point_four() {
    let mut cfg = config(KeyerMode::IambicB, 50);
    cfg.dynamic_ratio = true;
    // Half way between 30 and 70 words per minute: 3.0 - 0.6 / 2 = 2.7.
    assert_eq!(cfg.dot_duration_us(), 24_000);
    assert_eq!(cfg.dash_duration_us(), 64_800);
    cfg.speed_wpm = 20;
    assert_eq!(cfg.dash_duration_us(), 180_000);
    cfg.speed_wpm = 100;
    assert_eq!(cfg.dash_duration_us(), 28_800);
}

#[test]
fn compensation_lengthens_elements_and_not_gaps() {
    let mut cfg = config(KeyerMode::IambicB, 20);
    cfg.keying_compensation_ms = 7;
    assert_eq!(cfg.effective_dot_duration_us(), 67_000);
    assert_eq!(cfg.effective_dash_duration_us(), 187_000);
    assert_eq!(cfg.element_gap_us(), 60_000);
}

#[test]
fn default_config_holds_the_rest_too() {
    let cfg = KeyerConfig::default();
    assert_eq!(cfg.iambic_b_timing_percent, 33);
    assert_eq!(cfg.usb_emit_style, UsbEmitStyle::Paddle);
    assert_eq!(cfg.dash_pin, SerialPin::DSR);
    assert_eq!(cfg.midi_dit, None::<MidiBinding>);
}

#[test]
fn outputs_alternate_between_down_and_up() {
    let mut e = engine(KeyerMode::IambicB, 25);
    e.set_paddle(true, true);
    let m = marks(&mut e, 2000);
    assert!(m.len() > 10);
    assert!(m.windows(2).all(|w| w[0].1 != w[1].1));
    assert!(m[0].1);
}

#[test]
fn squeeze_gives_dit_and_dash_in_turn() {
    let mut e = engine(KeyerMode::IambicA, 20);
    e.set_paddle(true, true);
    let lengths = pressed_for(&marks(&mut e, 1500));
    assert!(lengths.len() >= 4);
    for (k, l) in lengths.iter().enumerate() {
        let want = if k % 2 == 0 { 60 } else { 180 };
        assert!(l.abs_diff(want) <= 1, "element {k} lasted {l}");
    }
}

#[test]
fn ptt_comes_before_the_key_and_goes_after_the_hang_time() {
    let mut e = engine(KeyerMode::IambicB, 20);
    e.set_paddle(true, false);
    assert_eq!(e.tick(), Some(KeyerOutput::PttRequest(true)));
    assert_eq!(e.tick(), Some(KeyerOutput::KeyDown));
    e.set_paddle(false, false);
    let mut up_at = None;
    let mut off_at = None;
    for t in 0..1000u32 {
        match e.tick() {
            Some(KeyerOutput::KeyUp) => up_at = Some(t),
            Some(KeyerOutput::PttRequest(false)) => off_at = Some(t),
            _ => {}
        }
    }
    let hang = e.config.hang_time_ms;
    assert!(off_at.unwrap() - up_at.unwrap() >= hang);
    assert_eq!(e.state(), KeyerState::Idle);
    assert!(!e.is_active());
}

#[test]
fn idle_engine_only_counts_time() {
    let mut e = KeyerEngine::new_with_tick(config(KeyerMode::IambicB, 20), 250);
    for _ in 0..40 {
        assert_eq!(e.tick(), None);
    }
    assert_eq!(e.elapsed_us(), 10_000);
    assert_eq!(e.tick_us(), 250);
    assert_eq!(e.state(), KeyerState::Idle);
}

#[test]
fn record_keeps_the_newest_transitions_in_order() {
    let mut e = engine(KeyerMode::IambicB, 60);
    e.set_paddle(true, false);
    for _ in 0..4000 {
        e.tick();
    }
    let record = e.drain_transitions();
    assert_eq!(record.len(), MAX_RECORDED_TRANSITIONS);
    assert!(record.windows(2).all(|w| w[0].timestamp_us < w[1].timestamp_us));
    assert!(record.windows(2).all(|w| w[0].key_down != w[1].key_down));
    assert!(record.last().unwrap().timestamp_us + 41_000 > e.elapsed_us());
}

#[test]
fn reversed_keys_exchange_the_paddles() {
    let mut plain = engine(KeyerMode::IambicB, 20);
    let mut turned = KeyerEngine::new(KeyerConfig {
        keys_reversed: true,
        ..config(KeyerMode::IambicB, 20)
    });
    plain.set_paddle(true, false);
    turned.set_paddle(false, true);
    assert_eq!(marks(&mut plain, 800), marks(&mut turned, 800));
}

#[test]
fn text_goes_out_element_by_element() {
    let mut e = engine(KeyerMode::IambicB, 20);
    e.send_text("AN");
    let lengths = pressed_for(&marks(&mut e, 2000));
    assert_eq!(lengths.len(), 4);
    let want = [60u32, 180, 180, 60];
    for (l, w) in lengths.iter().zip(want) {
        assert!(l.abs_diff(w) <= 1, "{lengths:?}");
    }
}

#[test]
fn abort_drops_the_rest_of_the_text() {
    let mut e = engine(KeyerMode::IambicB, 20);
    e.send_text("EEEE");
    for _ in 0..10 {
        e.tick();
    }
    e.abort_text();
    assert!(e.text_queue.is_empty());
    assert_eq!(pressed_for(&marks(&mut e, 1000)).len(), 0);
}

#[test]
fn commands_reach_the_engine() {
    let mut e = engine(KeyerMode::IambicB, 20);
    assert!(apply_command(&mut e, KeyerCommand::SendMacro("E".to_string())));
    assert_eq!(e.text_queue.len(), 1);
    assert!(apply_command(&mut e, KeyerCommand::AbortMacro));
    assert_eq!(e.text_queue.len(), 0);
    let slow = config(KeyerMode::IambicA, 12);
    assert!(apply_command(&mut e, KeyerCommand::UpdateConfig(Box::new(slow))));
    assert_eq!(e.config.dot_duration_ms(), 100);
    assert!(!apply_command(&mut e, KeyerCommand::Stop));
}

#[test]
fn waits_are_short_while_active() {
    let mut e = engine(KeyerMode::IambicB, 20);
    assert_eq!(wait_timeout_ms(&e), IDLE_WAIT_MS);
    e.send_text("E");
    assert_eq!(wait_timeout_ms(&e), ACTIVE_WAIT_MS);
}

#[test]
fn ticks_are_made_up_for_up_to_a_limit() {
    assert_eq!((plan_ticks(0).ticks, plan_ticks(0).resync), (0, false));
    assert_eq!((plan_ticks(3).ticks, plan_ticks(3).resync), (3, false));
    assert_eq!((plan_ticks(4).ticks, plan_ticks(4).resync), (4, false));
    assert_eq!((plan_ticks(5).ticks, plan_ticks(5).resync), (4, true));
}

#[test]
fn runs_of_ticks_equal_single_ticks() {
    let mut a = engine(KeyerMode::IambicB, 30);
    let mut b = engine(KeyerMode::IambicB, 30);
    a.send_text("K");
    b.send_text("K");
    let all = run_ticks(&mut a, 600);
    let mut single = Vec::new();
    for _ in 0..600 {
        single.extend(b.tick());
    }
    assert_eq!(all, single);
    assert_eq!(a.elapsed_us(), b.elapsed_us());
}

#[test]
fn bug_mode_repeats_dits_and_holds_dashes() {
    let mut e = engine(KeyerMode::Bug, 20);
    e.set_paddle(true, false);
    let dits = pressed_for(&marks(&mut e, 700));
    assert!(dits.len() >= 4);
    assert!(dits.iter().all(|d| d.abs_diff(60) <= 1));
    let mut e = engine(KeyerMode::Bug, 20);
    e.set_paddle(false, true);
    let m = marks(&mut e, 700);
    assert_eq!(m.len(), 1);
    assert!(m[0].1);
}

#[test]
fn dead_zone_counts_in_iambic_b_alone() {
    for mode in [KeyerMode::IambicA, KeyerMode::IambicB, KeyerMode::Ultimatic] {
        let mut runs = Vec::new();
        for percent in [0u8, 100] {
            let mut e = KeyerEngine::new(KeyerConfig {
                iambic_b_timing_percent: percent,
                ..config(mode, 20)
            });
            e.set_paddle(true, false);
            let mut m = marks(&mut e, 20);
            e.set_paddle(true, true);
            m.extend(marks(&mut e, 10));
            e.set_paddle(false, false);
            m.extend(marks(&mut e, 600));
            runs.push(m);
        }
        assert_eq!(runs[0] == runs[1], mode != KeyerMode::IambicB, "{mode:?}");
    }
}

#[test]
fn a_dash_lies_between_two_point_four_and_three_dits_or_follows_the_weight() {
    for wpm in 1..=255u8 {
        for low in [0u8, 10, 30, 200] {
            let c = KeyerConfig {
                dynamic_ratio: true,
                dynamic_ratio_low_wpm: low,
                dynamic_ratio_high_wpm: 70,
                ..config(KeyerMode::IambicA, wpm)
            };
            let (dot, dash) = (c.dot_duration_us(), c.dash_duration_us());
            assert!(dash <= 3 * dot);
            assert!(5 * dash + 5 >= 12 * dot);
        }
        for weight in [0u8, 1, 25, 75, 255] {
            let c = KeyerConfig {
                weight,
                ..config(KeyerMode::IambicA, wpm)
            };
            assert!(c.dash_duration_us() >= c.dot_duration_us());
        }
    }
}

#[test]
fn a_long_squeeze_keeps_exact_time() {
    // At 28 words per minute a dit lasts 42857 us and a dash 128571 us.
    let mut e = engine(KeyerMode::IambicB, 28);
    e.set_paddle(true, true);
    let m = marks(&mut e, 60_000);
    let downs: Vec<u32> = m.iter().filter(|x| x.1).map(|x| x.0).collect();
    let pair = 2 * 42_857 + 42_857 + 128_571;
    for pairs in 1..=200u64 {
        let exact = pairs * pair / 1000;
        let seen = (downs[1 + 2 * pairs as usize] - downs[1]) as u64;
        assert!(seen.abs_diff(exact) <= 1, "after {pairs} pairs: {seen} and {exact}");
    }
}

#[test]
fn a_long_dash_hold_keeps_exact_time() {
    let mut e = engine(KeyerMode::Ultimatic, 28);
    e.set_paddle(false, true);
    let m = marks(&mut e, 40_000);
    let downs: Vec<u32> = m.iter().filter(|x| x.1).map(|x| x.0).collect();
    for n in 1..=200u64 {
        let exact = n * (42_857 + 128_571) / 1000;
        let seen = (downs[1 + n as usize] - downs[1]) as u64;
        assert!(seen.abs_diff(exact) <= 1);
    }
}

#[test]
fn released_squeezes_end_by_mode() {
    for (mode, elements) in [(KeyerMode::IambicA, 1), (KeyerMode::IambicB, 2)] {
        let mut e = engine(mode, 20);
        e.set_paddle(true, true);
        run_ticks(&mut e, 20);
        e.set_paddle(false, false);
        let ups = marks(&mut e, 1000).iter().filter(|x| !x.1).count();
        assert_eq!(ups, elements, "{mode:?}");
    }
}

#[test]
fn a_text_keys_every_mark_once() {
    for mode in [
        KeyerMode::IambicA,
        KeyerMode::IambicB,
        KeyerMode::Bug,
        KeyerMode::Ultimatic,
        KeyerMode::SinglePaddle,
    ] {
        let mut e = engine(mode, 40);
        e.send_text("CQ DE K");
        let out = run_ticks(&mut e, 10_000);
        // C, Q, D, E and K have 4, 4, 3, 1 and 3 marks.
        assert_eq!(out[0], KeyerOutput::PttRequest(true));
        assert_eq!(out.len(), 1 + 2 * 15 + 1);
        for k in 0..15 {
            assert_eq!(out[1 + 2 * k], KeyerOutput::KeyDown);
            assert_eq!(out[2 + 2 * k], KeyerOutput::KeyUp);
        }
        assert_eq!(out[31], KeyerOutput::PttRequest(false));
    }
    let mut e = engine(KeyerMode::Straight, 40);
    e.send_text("E");
    assert!(run_ticks(&mut e, 1000).is_empty());
}
