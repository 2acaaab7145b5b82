use radio_utils::keyer::config::{KeyerConfig, KeyerMode};
use radio_utils::keyer::engine::{
    KeyerEngine, KeyerOutput, KeyerState, MAX_RECORDED_TRANSITIONS,
    STRAIGHT_KEY_RELEASE_DEBOUNCE_MS,
};

fn engine_at(wpm: u8, mode: KeyerMode) -> KeyerEngine {
    let mut config = KeyerConfig::default();
    config.speed_wpm = wpm;
    config.mode = mode;
    KeyerEngine::new(config)
}

fn collect_outputs(engine: &mut KeyerEngine, ticks: u32) -> Vec<KeyerOutput> {
    let mut outputs = Vec::new();
    for _ in 0..ticks {
        if let Some(out) = engine.tick() {
            outputs.push(out);
        }
    }
    outputs
}

#[test]
fn idle_no_output() {
    let mut engine = engine_at(20, KeyerMode::IambicB);
    let outputs = collect_outputs(&mut engine, 100);
    assert!(outputs.is_empty(), "Idle engine should produce no output");
}

#[test]
fn straight_key_follows_input() {
    let mut engine = engine_at(20, KeyerMode::Straight);

    // Press dit paddle
    engine.set_paddle(true, false);
    let outputs = collect_outputs(&mut engine, 5);
    assert!(
        outputs.contains(&KeyerOutput::PttRequest(true)),
        "Should request PTT on"
    );
    assert!(
        outputs.contains(&KeyerOutput::KeyDown),
        "Should emit KeyDown"
    );

    // Release. KeyUp is debounced by `STRAIGHT_KEY_RELEASE_DEBOUNCE_MS`
    // ticks; collect long enough for the grace window plus a few
    // ticks of slack so the assertion is robust if the constant
    // changes a little.
    engine.set_paddle(false, false);
    let outputs = collect_outputs(&mut engine, STRAIGHT_KEY_RELEASE_DEBOUNCE_MS + 5);
    assert!(
        outputs.contains(&KeyerOutput::KeyUp),
        "Should emit KeyUp on release"
    );

    // After hang time, PTT off
    let hang_ticks = engine.config.hang_time_ms + 5;
    let outputs = collect_outputs(&mut engine, hang_ticks);
    assert!(
        outputs.contains(&KeyerOutput::PttRequest(false)),
        "Should request PTT off after hang time"
    );
}

/// A mechanical / OS-level bounce on the initial press registers as
/// press → release → press within a few ms. The release is debounced,
/// so only ONE KeyDown reaches the wire (the carrier stays solid
/// through the bounce).
#[test]
fn straight_key_debounces_release_press_bounce_on_initial_press() {
    let mut engine = engine_at(20, KeyerMode::Straight);

    // Initial press
    engine.set_paddle(true, false);
    let mut outputs = collect_outputs(&mut engine, 3);

    // Bounce: brief release within the debounce window, then re-press.
    // This is exactly what a noisy switch / OS key-repeat boundary
    // produces on real hardware.
    let bounce_ticks = STRAIGHT_KEY_RELEASE_DEBOUNCE_MS / 2; // half of grace
    engine.set_paddle(false, false);
    outputs.extend(collect_outputs(&mut engine, bounce_ticks));
    engine.set_paddle(true, false);
    outputs.extend(collect_outputs(&mut engine, 50));

    let down_count = outputs
        .iter()
        .filter(|o| matches!(o, KeyerOutput::KeyDown))
        .count();
    let up_count = outputs
        .iter()
        .filter(|o| matches!(o, KeyerOutput::KeyUp))
        .count();
    assert_eq!(
        down_count, 1,
        "bounce on press must produce exactly one KeyDown, got {down_count} (events: {outputs:?})"
    );
    assert_eq!(
        up_count, 0,
        "bounce on press must NOT emit KeyUp, got {up_count} (events: {outputs:?})"
    );

    // Genuine release after the bounce should still produce KeyUp
    // once the debounce window expires.
    engine.set_paddle(false, false);
    let outputs = collect_outputs(&mut engine, STRAIGHT_KEY_RELEASE_DEBOUNCE_MS + 5);
    assert!(
        outputs.contains(&KeyerOutput::KeyUp),
        "genuine release must still emit KeyUp, got {outputs:?}"
    );
}

#[test]
fn iambic_b_dit_duration() {
    // At 20 WPM, dot_duration_ms = 1200/20 = 60
    let mut engine = engine_at(20, KeyerMode::IambicB);
    assert_eq!(engine.config.dot_duration_ms(), 60);

    engine.set_paddle(true, false);

    // Collect outputs for dit duration + element gap + some extra
    let total_ticks = 200;
    let mut key_down_tick: Option<u32> = None;
    let mut key_up_tick: Option<u32> = None;

    for i in 0..total_ticks {
        if let Some(out) = engine.tick() {
            match out {
                KeyerOutput::KeyDown if key_down_tick.is_none() => {
                    key_down_tick = Some(i);
                }
                KeyerOutput::KeyUp if key_up_tick.is_none() => {
                    key_up_tick = Some(i);
                }
                _ => {}
            }
        }
    }

    let down = key_down_tick.expect("Should have KeyDown");
    let up = key_up_tick.expect("Should have KeyUp");
    let duration = up - down;

    // Dit duration should be ~60 ticks (allow small variance for the first tick)
    assert!(
        (58..=62).contains(&duration),
        "Dit duration should be ~60ms at 20 WPM, got {duration}"
    );
}

#[test]
fn iambic_b_squeeze_alternates() {
    let mut engine = engine_at(20, KeyerMode::IambicB);

    // Squeeze both paddles
    engine.set_paddle(true, true);

    // Run for enough time to get several elements
    // dit=60, gap=60, dash=180, gap=60 = 360 per cycle
    let outputs = collect_outputs(&mut engine, 800);

    let key_events: Vec<_> = outputs
        .iter()
        .filter(|o| matches!(o, KeyerOutput::KeyDown | KeyerOutput::KeyUp))
        .collect();

    // Should have alternating KeyDown/KeyUp pairs (at least 3 pairs for dit-dash-dit)
    assert!(
        key_events.len() >= 6,
        "Squeeze should produce at least 3 elements, got {} key events",
        key_events.len()
    );

    // Verify alternation: KeyDown, KeyUp, KeyDown, KeyUp, ...
    for (i, event) in key_events.iter().enumerate() {
        if i % 2 == 0 {
            assert_eq!(
                **event,
                KeyerOutput::KeyDown,
                "Even index {i} should be KeyDown"
            );
        } else {
            assert_eq!(**event, KeyerOutput::KeyUp, "Odd index {i} should be KeyUp");
        }
    }
}

#[test]
fn iambic_a_stops_on_release() {
    let mut engine = engine_at(20, KeyerMode::IambicA);
    let dot = engine.config.dot_duration_ms();
    let gap = engine.config.element_gap_ms();

    // Press both paddles to start sending
    engine.set_paddle(true, true);

    // Run through first element (dit) + a bit into delay
    collect_outputs(&mut engine, dot + gap / 2);

    // Release both paddles during the delay
    engine.set_paddle(false, false);

    // Run enough to finish current element and any pending
    let outputs = collect_outputs(&mut engine, 500);

    // After releasing, iambic A should stop. There should be at most one more
    // KeyDown/KeyUp pair (for the element that was already triggered by memory).
    let key_downs: Vec<_> = outputs
        .iter()
        .filter(|o| **o == KeyerOutput::KeyDown)
        .collect();

    // In mode A, after releasing during the delay, at most one more element plays
    // (the one from the inter-element gap resolution, since paddles are released
    // and no memory fires in mode A)
    assert!(
        key_downs.len() <= 1,
        "Iambic A should stop shortly after release, got {} more key-downs",
        key_downs.len()
    );
}

#[test]
fn macro_sends_text() {
    let mut engine = engine_at(20, KeyerMode::IambicB);

    // "E" = single dit
    engine.send_text("E");

    // Run enough ticks to complete the dit
    let outputs = collect_outputs(&mut engine, 200);

    assert!(
        outputs.contains(&KeyerOutput::KeyDown),
        "Text macro should produce KeyDown"
    );
    assert!(
        outputs.contains(&KeyerOutput::KeyUp),
        "Text macro should produce KeyUp"
    );
}

#[test]
fn paddle_interrupts_macro() {
    let mut engine = engine_at(20, KeyerMode::IambicB);

    // Queue a long text
    engine.send_text("HELLO WORLD");
    assert!(!engine.text_queue.is_empty());

    // Run a few ticks to start sending
    collect_outputs(&mut engine, 10);

    // Hit paddle - should clear text queue
    engine.set_paddle(true, false);
    assert!(
        engine.text_queue.is_empty(),
        "Paddle should clear text queue"
    );
}

#[test]
fn hang_time_emits_ptt_off() {
    let mut engine = engine_at(20, KeyerMode::IambicB);
    let hang_ms = engine.config.hang_time_ms;

    // Send a dit: press and immediately release so only one dit is sent
    engine.set_paddle(true, false);
    // Run just 1 tick to start the dit, then release
    collect_outputs(&mut engine, 1);
    engine.set_paddle(false, false);

    // Run enough ticks to finish the dit + gap + hang time + margin
    let outputs = collect_outputs(&mut engine, 500 + hang_ms);

    assert!(
        outputs.contains(&KeyerOutput::PttRequest(false)),
        "Should emit PttRequest(false) after hang time"
    );
}

#[test]
fn network_transitions_captured() {
    let mut engine = engine_at(20, KeyerMode::IambicB);

    // Send a dit
    engine.set_paddle(true, false);
    collect_outputs(&mut engine, 200);
    engine.set_paddle(false, false);
    collect_outputs(&mut engine, 100);

    let transitions = engine.drain_transitions();
    assert!(!transitions.is_empty(), "Should have captured transitions");

    // Should have at least one key_down and one key_up
    let has_down = transitions.iter().any(|t| t.key_down);
    let has_up = transitions.iter().any(|t| !t.key_down);
    assert!(has_down, "Should have key_down transition");
    assert!(has_up, "Should have key_up transition");

    // Timestamps should be monotonically increasing
    for window in transitions.windows(2) {
        assert!(
            window[1].timestamp_us >= window[0].timestamp_us,
            "Timestamps should be monotonically increasing"
        );
    }

    // After draining, should be empty
    let again = engine.drain_transitions();
    assert!(again.is_empty(), "After drain, transitions should be empty");
}

// --- CMOS Super Keyer iambic B timing tests ---

fn engine_with_timing(wpm: u8, percent: u8) -> KeyerEngine {
    let mut config = KeyerConfig::default();
    config.speed_wpm = wpm;
    config.mode = KeyerMode::IambicB;
    config.iambic_b_timing_percent = percent;
    KeyerEngine::new(config)
}

/// Count KeyDown events produced by the engine over `ticks` ms.
fn count_key_downs(engine: &mut KeyerEngine, ticks: u32) -> usize {
    (0..ticks)
        .filter_map(|_| engine.tick())
        .filter(|o| *o == KeyerOutput::KeyDown)
        .count()
}

#[test]
fn timing_0_pct_full_iambic_b() {
    // 0% dead zone = classic iambic B: squeeze during the tail of a dit
    // must still latch the dash memory.
    let mut engine = engine_with_timing(20, 0);
    let dot = engine.config.dot_duration_ms(); // 60

    // Press dit only
    engine.set_paddle(true, false);
    // Run through most of the dit element
    collect_outputs(&mut engine, dot - 5);

    // Squeeze dash near the very end of the dit (last 5 ms)
    engine.set_paddle(true, true);
    collect_outputs(&mut engine, 3);

    // Release both
    engine.set_paddle(false, false);

    // Let the engine run — the dash should fire from memory
    let downs = count_key_downs(&mut engine, 500);
    assert!(
        downs >= 1,
        "At 0% timing, late squeeze should latch dash memory, got {downs} key-downs"
    );
}

#[test]
fn timing_100_pct_no_element_memory() {
    // 100% dead zone = memory never latches during element sending.
    // A squeeze during the dit should NOT produce a dash from memory
    // (only from held state at resolve time).
    let mut engine = engine_with_timing(20, 100);
    let dot = engine.config.dot_duration_ms(); // 60

    // Press dit only
    engine.set_paddle(true, false);
    // Advance into the middle of the dit
    collect_outputs(&mut engine, dot / 2);

    // Squeeze dash briefly in the middle of the dit
    engine.set_paddle(true, true);
    collect_outputs(&mut engine, 5);

    // Release BOTH before the dit ends
    engine.set_paddle(false, false);

    // Let engine finish — no dash should fire (memory was gated,
    // and paddle is no longer held at resolve time)
    let downs = count_key_downs(&mut engine, 500);
    assert_eq!(
        downs, 0,
        "At 100% timing, brief squeeze should not latch memory, got {downs} key-downs"
    );
}

#[test]
fn timing_33_pct_early_squeeze_latches() {
    // Default 33%: the first 67% of the element is the latch window.
    // A squeeze in the first half should latch.
    let mut engine = engine_with_timing(20, 33);
    // dot = 60ms, dead-zone threshold = 19 ticks

    engine.set_paddle(true, false);
    // Advance a few ticks into the dit (well within the 67% window)
    collect_outputs(&mut engine, 10);

    // Squeeze dash briefly
    engine.set_paddle(true, true);
    collect_outputs(&mut engine, 5);

    // Release both before dit ends
    engine.set_paddle(false, false);

    // Dash should fire from memory
    let downs = count_key_downs(&mut engine, 500);
    assert!(
        downs >= 1,
        "At 33% timing, early squeeze should latch, got {downs} key-downs"
    );
}

#[test]
fn timing_33_pct_late_squeeze_blocked() {
    // Default 33%: the last 33% of the element is the dead zone.
    // A squeeze only during the tail should NOT latch memory.
    let mut engine = engine_with_timing(20, 33);
    let dot = engine.config.dot_duration_ms(); // 60
    let gap = engine.config.element_gap_ms();
    // Dead zone starts when tick_counter <= 60*33/100 = 19
    // i.e. after 60-19 = 41 ticks have elapsed.

    engine.set_paddle(true, false);
    // Advance past the latch window into the dead zone
    collect_outputs(&mut engine, dot - 10); // at tick 50, counter ~10 < 19

    // Squeeze dash in the dead zone
    engine.set_paddle(true, true);
    collect_outputs(&mut engine, 3);

    // Release both before the inter-element gap ends
    engine.set_paddle(false, false);
    // Finish the dit + gap without paddles held
    collect_outputs(&mut engine, 10 + gap);

    // No dash should fire (memory blocked, paddle released before resolve)
    let downs = count_key_downs(&mut engine, 500);
    assert_eq!(
        downs, 0,
        "At 33% timing, late squeeze in dead zone should not latch, got {downs} key-downs"
    );
}

#[test]
fn timing_gate_does_not_affect_gap_latching() {
    // Even at 100% element dead zone, pressing the opposite paddle
    // during the inter-element gap should still latch memory.
    let mut engine = engine_with_timing(20, 100);

    engine.set_paddle(true, false);
    // Run through the full dit element + a few ticks into the gap
    let dot = engine.config.dot_duration_ms(); // 60
    collect_outputs(&mut engine, dot + 5);

    // Now in DitDelay — squeeze dash briefly
    engine.set_paddle(true, true);
    collect_outputs(&mut engine, 5);
    engine.set_paddle(false, false);

    // Dash should fire from gap-phase memory
    let downs = count_key_downs(&mut engine, 500);
    assert!(
        downs >= 1,
        "Gap-phase latch should work even at 100% timing, got {downs} key-downs"
    );
}

#[test]
fn timing_set_paddle_rising_edge_gated() {
    // Verify that set_paddle() rising-edge latch is also gated during
    // element sending.  At 100%, a rising edge during SendDit should
    // NOT set dash_memory.
    let mut engine = engine_with_timing(20, 100);
    let dot = engine.config.dot_duration_ms();

    engine.set_paddle(true, false);
    collect_outputs(&mut engine, dot / 2);

    // Rising edge of dash via set_paddle during element dead zone
    engine.set_paddle(true, true);
    // Immediately release dash
    engine.set_paddle(true, false);

    // Release dit before it finishes
    engine.set_paddle(false, false);

    // No dash should fire
    let downs = count_key_downs(&mut engine, 500);
    assert_eq!(
        downs, 0,
        "Rising-edge latch should be gated at 100%, got {downs} key-downs"
    );
}

#[test]
fn ultimatic_squeeze_repeats_last_paddle() {
    let mut engine = engine_at(20, KeyerMode::Ultimatic);

    // Press dit first
    engine.set_paddle(true, false);
    collect_outputs(&mut engine, 5);

    // Then squeeze dash (last paddle = dash)
    engine.set_paddle(true, true);

    // Run through several cycles
    let outputs = collect_outputs(&mut engine, 1000);
    let key_downs: Vec<_> = outputs
        .iter()
        .filter(|o| **o == KeyerOutput::KeyDown)
        .collect();

    assert!(
        key_downs.len() >= 3,
        "Ultimatic squeeze should produce multiple elements, got {}",
        key_downs.len()
    );
}

#[test]
fn ultimatic_single_paddle_repeats() {
    let mut engine = engine_at(20, KeyerMode::Ultimatic);

    // Hold only dit
    engine.set_paddle(true, false);
    let downs = count_key_downs(&mut engine, 500);
    assert!(
        downs >= 3,
        "Single dit paddle should auto-repeat in Ultimatic, got {downs}"
    );
}

#[test]
fn timing_does_not_affect_iambic_a() {
    // IambicA with 100% timing should behave identically to IambicA
    // with 0% — the dead zone must not interfere.
    let mut config = KeyerConfig::default();
    config.speed_wpm = 20;
    config.mode = KeyerMode::IambicA;
    config.iambic_b_timing_percent = 100;
    let mut engine = KeyerEngine::new(config);
    let dot = engine.config.dot_duration_ms(); // 60

    // Squeeze both paddles
    engine.set_paddle(true, true);
    // Run through first dit + gap + into dash
    collect_outputs(&mut engine, dot + dot + 10);

    // Release both during the dash
    engine.set_paddle(false, false);

    // IambicA: after release, at most one more element from the
    // current in-flight element.  Memory must NOT be suppressed.
    let outputs = collect_outputs(&mut engine, 500);
    let key_downs: Vec<_> = outputs
        .iter()
        .filter(|o| **o == KeyerOutput::KeyDown)
        .collect();
    assert!(
        key_downs.len() <= 1,
        "IambicA should still stop after release even at 100% timing, got {} key-downs",
        key_downs.len()
    );
}

#[test]
fn timing_33_pct_dash_first_symmetry() {
    // Verify the timing gate works symmetrically when sending a dash
    // and squeezing dit in the dead zone.
    let mut engine = engine_with_timing(20, 33);
    let dash = engine.config.dash_duration_ms(); // 180
    let gap = engine.config.element_gap_ms();

    // Press dash only
    engine.set_paddle(false, true);
    // Advance past the latch window into the dead zone (last 33% = last 59 ticks)
    collect_outputs(&mut engine, dash - 10); // well into the dead zone

    // Squeeze dit in the dead zone
    engine.set_paddle(true, true);
    collect_outputs(&mut engine, 3);

    // Release both before the gap ends
    engine.set_paddle(false, false);
    collect_outputs(&mut engine, 10 + gap);

    // No dit should fire from memory
    let downs = count_key_downs(&mut engine, 500);
    assert_eq!(
        downs, 0,
        "Dash-first: late dit squeeze in dead zone should not latch, got {downs} key-downs"
    );
}

#[test]
fn ultimatic_stops_on_release() {
    let mut engine = engine_at(20, KeyerMode::Ultimatic);
    let dot = engine.config.dot_duration_ms();
    let gap = engine.config.element_gap_ms();

    // Squeeze both paddles (last = dash)
    engine.set_paddle(true, false);
    collect_outputs(&mut engine, 3);
    engine.set_paddle(true, true);

    // Run through first element + into gap
    collect_outputs(&mut engine, dot + gap / 2);

    // Release both during the gap
    engine.set_paddle(false, false);
    collect_outputs(&mut engine, gap);

    // No more elements should fire after release
    let downs = count_key_downs(&mut engine, 500);
    assert_eq!(
        downs, 0,
        "Ultimatic should stop after both paddles released, got {downs} key-downs"
    );
}

#[test]
fn single_paddle_short_press_is_dit() {
    let mut engine = engine_at(20, KeyerMode::SinglePaddle);

    // Press and release before dit expires
    engine.set_paddle(true, false);
    collect_outputs(&mut engine, 30); // half dit
    engine.set_paddle(false, false);

    // Should get KeyUp (dit completed early)
    let outputs = collect_outputs(&mut engine, 200);
    let ups: Vec<_> = outputs
        .iter()
        .filter(|o| **o == KeyerOutput::KeyUp)
        .collect();
    assert!(!ups.is_empty(), "Short press should emit KeyUp for dit");
}

#[test]
fn single_paddle_long_press_is_dash() {
    let mut engine = engine_at(20, KeyerMode::SinglePaddle);
    let dot = engine.config.effective_dot_duration_ms(); // 60
    let dash = engine.config.effective_dash_duration_ms(); // 180

    // Press and hold past dit duration
    engine.set_paddle(true, false);

    let mut key_down_tick = None;
    let mut key_up_tick = None;

    for i in 0..(dash + 100) {
        if let Some(out) = engine.tick() {
            match out {
                KeyerOutput::KeyDown if key_down_tick.is_none() => key_down_tick = Some(i),
                KeyerOutput::KeyUp if key_up_tick.is_none() => key_up_tick = Some(i),
                _ => {}
            }
        }
    }

    let down = key_down_tick.expect("Should have KeyDown");
    let up = key_up_tick.expect("Should have KeyUp");
    let duration = up - down;

    // Should be close to dash duration (180ms), not dit (60ms)
    assert!(
        duration > dot + 10,
        "Long press should produce dash ({dash}ms), got {duration}ms"
    );
}

#[test]
fn single_paddle_either_paddle_works() {
    let mut engine = engine_at(20, KeyerMode::SinglePaddle);

    // Dash paddle should also work
    engine.set_paddle(false, true);
    let downs = count_key_downs(&mut engine, 200);
    assert!(
        downs >= 1,
        "Dash paddle should trigger in single paddle mode"
    );
}

/// Ultimatic alternation: hold dash so it auto-repeats, then add dit.
/// `last_paddle` becomes dit, so the next element after the in-flight
/// dash must be a dit (last-paddle-wins semantics).
#[test]
fn ultimatic_alternates_on_late_paddle_change() {
    let mut engine = engine_at(20, KeyerMode::Ultimatic);
    let dot = engine.config.dot_duration_ms();
    let dash = engine.config.dash_duration_ms();
    let gap = engine.config.element_gap_ms();

    // Press dash only — it should auto-repeat (last_paddle = dash).
    engine.set_paddle(false, true);
    // Run through one full dash + gap so dash is established.
    collect_outputs(&mut engine, dash + gap + 5);

    // Now squeeze dit alongside (rising edge → last_paddle = dit).
    engine.set_paddle(true, true);

    // Capture KeyDown→KeyUp pairs for the next two elements and measure
    // each element's duration. Last-paddle-wins: dit should appear soon.
    let mut events: Vec<(u32, KeyerOutput)> = Vec::new();
    for i in 0..(dash * 4) {
        if let Some(out) = engine.tick() {
            events.push((i, out));
        }
    }

    // Find element durations (KeyDown→KeyUp deltas).
    let mut durations = Vec::new();
    let mut last_down: Option<u32> = None;
    for (t, ev) in &events {
        match ev {
            KeyerOutput::KeyDown => last_down = Some(*t),
            KeyerOutput::KeyUp => {
                if let Some(d) = last_down.take() {
                    durations.push(*t - d);
                }
            }
            _ => {}
        }
    }

    // After last_paddle flips to dit, at least one of the next elements
    // must be a dit (close to dot duration), proving alternation took
    // effect.
    let has_dit = durations
        .iter()
        .any(|d| d.abs_diff(dot) < dot.min(dash - dot) / 2);
    assert!(
        has_dit,
        "Ultimatic should switch to dit after dit becomes last-paddle, durations: {durations:?}"
    );
}

/// Cross-session leak: a previous Ultimatic session sets `last_paddle`,
/// then full release + idle. A new single-paddle session must NOT inherit
/// the prior `last_paddle` and must just repeat the held paddle.
#[test]
fn ultimatic_no_cross_session_state_leak() {
    let mut engine = engine_at(20, KeyerMode::Ultimatic);
    let dash = engine.config.dash_duration_ms();
    let gap = engine.config.element_gap_ms();

    // Session 1: hold dash → last_paddle = dash, dash repeats.
    engine.set_paddle(false, true);
    collect_outputs(&mut engine, dash * 2 + gap * 2);

    // Release everything and let the engine return to Idle. We need
    // enough ticks so DashDelay → Idle (also drains hang time).
    engine.set_paddle(false, false);
    let hang = engine.config.hang_time_ms;
    collect_outputs(&mut engine, gap * 2 + hang + 50);
    assert!(
        !engine.is_active() || engine.state() == KeyerState::Idle,
        "engine should be idle after release + hang, state = {:?}",
        engine.state()
    );
    // After enter_idle_from_delay, last_paddle should be cleared.
    assert_eq!(
        engine.last_paddle(), None,
        "last_paddle must be cleared when engine returns to Idle"
    );

    // Session 2: hold dit only; dits must repeat.
    engine.set_paddle(true, false);
    let dot = engine.config.dot_duration_ms();
    let downs = count_key_downs(&mut engine, dot * 4 + gap * 4);
    assert!(
        downs >= 2,
        "dit-only session should auto-repeat, got {downs} key-downs"
    );
}

/// Stronger Ultimatic stop test: release while the dash is still being
/// transmitted (mid-element), not in the gap. Engine completes the
/// current dash and then must idle — no further elements.
#[test]
fn ultimatic_stops_on_release_during_active_element() {
    let mut engine = engine_at(20, KeyerMode::Ultimatic);
    let dash = engine.config.dash_duration_ms();

    // Squeeze, last_paddle = dash.
    engine.set_paddle(true, false);
    collect_outputs(&mut engine, 3);
    engine.set_paddle(true, true);
    // Get past the first dit + gap, into the dash.
    let dot = engine.config.dot_duration_ms();
    collect_outputs(&mut engine, dot + 70);

    // We should now be inside SendDash (or close to it). Release both
    // paddles mid-dash.
    engine.set_paddle(false, false);

    // Run long enough to finish the in-flight dash + gap, then watch
    // for any further key-downs.
    collect_outputs(&mut engine, dash + 200);
    let downs = count_key_downs(&mut engine, 500);
    assert_eq!(
        downs, 0,
        "Ultimatic must stop after mid-element release, got {downs} extra key-downs"
    );
}

/// Keying compensation must actually extend the key-down duration in
/// the engine, not only show up in `effective_*` getters.
#[test]
fn keying_compensation_extends_engine_keydown() {
    let mut config = KeyerConfig::default();
    config.speed_wpm = 20; // dot = 60ms
    config.mode = KeyerMode::IambicB;
    config.keying_compensation_ms = 8;
    let mut engine = KeyerEngine::new(config);

    engine.set_paddle(true, false);

    // Capture KeyDown and KeyUp ticks for the dit.
    let mut down_t = None;
    let mut up_t = None;
    for i in 0..400u32 {
        if let Some(out) = engine.tick() {
            match out {
                KeyerOutput::KeyDown if down_t.is_none() => down_t = Some(i),
                KeyerOutput::KeyUp if up_t.is_none() => up_t = Some(i),
                _ => {}
            }
        }
    }
    let down = down_t.expect("KeyDown");
    let up = up_t.expect("KeyUp");
    let duration = up - down;
    // Expect ~68ms (60 dit + 8 comp), tolerate ±2 for the first-tick
    // offset already accepted by `iambic_b_dit_duration`.
    assert!(
        (66..=70).contains(&duration),
        "keying compensation should extend dit to ~68ms, got {duration}ms"
    );
}

/// Farnsworth gap timing must be honored by the engine when sending a
/// macro that contains an inter-letter gap.
#[test]
fn farnsworth_gap_applied_in_engine() {
    // Two configs that send the same text "EE" (E = single dit).
    // With Farnsworth, the LetterGap between the two E's must be longer
    // than the standard 3 * dot_duration.
    let dot = 60u32; // 20 WPM
    let standard_letter_gap = dot * 3;

    let mut farns_cfg = KeyerConfig::default();
    farns_cfg.speed_wpm = 20;
    farns_cfg.mode = KeyerMode::IambicB;
    farns_cfg.farnsworth_wpm = 10; // slower spacing
    let expected_farns_gap = farns_cfg.letter_gap_ms();
    assert!(
        expected_farns_gap > standard_letter_gap,
        "precondition: Farnsworth gap must exceed standard"
    );

    let mut engine = KeyerEngine::new(farns_cfg);
    engine.send_text("EE");

    // Capture KeyUp / next KeyDown ticks.
    let mut events: Vec<(u32, KeyerOutput)> = Vec::new();
    for i in 0..2000u32 {
        if let Some(out) = engine.tick() {
            events.push((i, out));
        }
        if events
            .iter()
            .filter(|(_, o)| matches!(o, KeyerOutput::KeyDown))
            .count()
            >= 2
            && events
                .iter()
                .filter(|(_, o)| matches!(o, KeyerOutput::KeyUp))
                .count()
                >= 1
        {
            // Already have the gap data we need; keep running a bit
            // more in case the second KeyUp hasn't fired yet.
            if events.iter().any(|(_, o)| matches!(o, KeyerOutput::KeyUp))
                && events
                    .iter()
                    .filter(|(_, o)| matches!(o, KeyerOutput::KeyDown))
                    .count()
                    >= 2
            {
                break;
            }
        }
    }

    // Find first KeyUp and the next KeyDown after it.
    let first_up = events
        .iter()
        .find(|(_, o)| matches!(o, KeyerOutput::KeyUp))
        .map(|(t, _)| *t)
        .expect("first KeyUp");
    let next_down = events
        .iter()
        .find(|(t, o)| *t > first_up && matches!(o, KeyerOutput::KeyDown))
        .map(|(t, _)| *t)
        .expect("second KeyDown");
    let gap = next_down - first_up;

    // Gap should be roughly the Farnsworth letter gap. Allow ±5ms of
    // slop for the first-tick KeyDown latency.
    let lo = expected_farns_gap.saturating_sub(5);
    let hi = expected_farns_gap + 5;
    assert!(
        (lo..=hi).contains(&gap),
        "engine inter-letter gap should be ~{expected_farns_gap}ms (Farnsworth), got {gap}ms"
    );
}

/// Run the engine with only the dit paddle held until we've observed
/// `measured_cycles + 1` KeyDown emissions *after* a one-cycle
/// warmup, then return the signed drift between the measured span
/// and `measured_cycles × cycle_us`.
///
/// The warmup skip is load-bearing: the very first KeyDown is
/// emitted one tick *after* the dit timer started (PttRequest fires
/// first), which would otherwise contaminate the measurement with a
/// one-tick offset unrelated to the drift the µs scheduler is
/// meant to eliminate.
fn measure_dit_repeat_drift(
    mut engine: KeyerEngine,
    cycle_us: u64,
    measured_cycles: u32,
) -> i64 {
    engine.set_paddle(true, false);

    // (warmup + measured_cycles + 1) cycles' worth of ticks + slack —
    // scaled by the engine's actual tick quantum so a sub-ms engine
    // gets enough iterations to reach the target cycle count.
    let tick_us = engine.tick_us() as u64;
    let max_ticks = (((measured_cycles as u64 + 3) * cycle_us) / tick_us) as u32
        + (200 * 1000 / tick_us as u32);

    let warmup = 1u32;
    let target_downs = warmup + measured_cycles + 1;

    let mut first: Option<u64> = None;
    let mut last: Option<u64> = None;
    let mut down_count = 0u32;
    for _ in 0..max_ticks {
        if let Some(KeyerOutput::KeyDown) = engine.tick() {
            down_count += 1;
            if down_count <= warmup {
                continue;
            }
            if first.is_none() {
                first = Some(engine.elapsed_us());
            }
            last = Some(engine.elapsed_us());
            if down_count == target_downs {
                break;
            }
        }
    }
    assert_eq!(
        down_count, target_downs,
        "expected {target_downs} KeyDowns (warmup + measured), got {down_count}"
    );
    let span = last.unwrap() - first.unwrap();
    let ideal = measured_cycles as u64 * cycle_us;
    span as i64 - ideal as i64
}

/// At a WPM where `1200 / wpm` truncates badly (28 WPM: true dit =
/// 42.857 ms, so whole milliseconds would lose 0.857 ms per dit ≈ 1.2 s
/// of drift per minute), the µs-precision scheduler must keep the
/// long-run rate within the 1 ms tick quantum.
///
/// Holds the dit paddle in IambicB so dits auto-repeat (cycle =
/// dit + element-gap = 2 × dot_us) and keeps the drift over 50 cycles
/// inside one tick.
#[test]
fn no_accumulated_drift_at_28_wpm() {
    let dot_us = 1_200_000u64 / 28; // 42857
    let drift = measure_dit_repeat_drift(engine_at(28, KeyerMode::IambicB), 2 * dot_us, 50);
    assert!(
        drift.abs() < 1000,
        "28 WPM steady-state drift over 50 dits must stay under one tick quantum, got {drift} µs"
    );
}

/// Sweep the iambic-family modes (which all auto-repeat dits with
/// only the dit paddle held — cycle = 2 × dot_us) at WPMs chosen
/// to stress different parts of `1200 / wpm`:
///
/// * 22 WPM → 54.545 ms — worst non-divisor of the four,
/// * 25 WPM → 48.000 ms — exact divisor baseline (sanity check),
/// * 28 WPM → 42.857 ms — truncates badly,
/// * 35 WPM → 34.285 ms — fast end of typical contest use.
#[test]
fn no_accumulated_drift_across_modes_and_wpms() {
    let cases = [
        (KeyerMode::IambicA, 22u8),
        (KeyerMode::IambicA, 25),
        (KeyerMode::IambicA, 28),
        (KeyerMode::IambicA, 35),
        (KeyerMode::IambicB, 22),
        (KeyerMode::IambicB, 25),
        (KeyerMode::IambicB, 35),
        (KeyerMode::Ultimatic, 22),
        (KeyerMode::Ultimatic, 28),
        (KeyerMode::Ultimatic, 35),
    ];
    for (mode, wpm) in cases {
        let dot_us = 1_200_000u64 / wpm as u64;
        let engine = engine_at(wpm, mode);
        let drift = measure_dit_repeat_drift(engine, 2 * dot_us, 50);
        assert!(
            drift.abs() < 1000,
            "{mode:?} at {wpm} WPM: drift {drift} µs over 50 cycles exceeds one tick quantum"
        );
    }
}

/// SinglePaddle: dit held → dit window expires → upgrade to dash →
/// DashDelay → next element (which starts as a dit and upgrades
/// again). Cycle = dit + (dash − dit) + gap = dash + gap = 4 ×
/// dot_us at default weight. The upgrade path uses its own
/// `schedule_phase` call with the *remaining* duration, so this is
/// the test that catches residual mishandling there.
#[test]
fn no_accumulated_drift_single_paddle() {
    for wpm in [22u8, 25, 28] {
        let dot_us = 1_200_000u64 / wpm as u64;
        let engine = engine_at(wpm, KeyerMode::SinglePaddle);
        let drift = measure_dit_repeat_drift(engine, 4 * dot_us, 25);
        assert!(
            drift.abs() < 1000,
            "SinglePaddle at {wpm} WPM: drift {drift} µs over 25 cycles exceeds one tick quantum"
        );
    }
}

/// Sub-millisecond tick quantum (250 µs).
/// Drift across 50 cycles must stay inside that quantum, not the
/// default millisecond.
#[test]
fn no_accumulated_drift_at_28_wpm_250us_tick() {
    let mut config = KeyerConfig::default();
    config.speed_wpm = 28;
    config.mode = KeyerMode::IambicB;
    let engine = KeyerEngine::new_with_tick(config, 250);
    let dot_us = 1_200_000u64 / 28;
    let drift = measure_dit_repeat_drift(engine, 2 * dot_us, 50);
    assert!(
        drift.abs() < 250,
        "28 WPM @ 250 µs tick: drift {drift} µs over 50 cycles exceeds 250 µs quantum"
    );
}

/// At a sub-millisecond tick the per-cycle jitter — the variation
/// in element duration between successive cycles — must also stay
/// inside the tick quantum.  This is the user-perceived
/// non-uniformity: at 1 ms ticks, 28 WPM dits alternate 42 / 43
/// ms in a repeating pattern (1 ms swing); at 250 µs they vary by
/// at most 250 µs.
#[test]
fn dit_duration_jitter_within_tick_quantum_250us() {
    let mut config = KeyerConfig::default();
    config.speed_wpm = 28;
    config.mode = KeyerMode::IambicB;
    let mut engine = KeyerEngine::new_with_tick(config, 250);

    // Hold the dit paddle so dits auto-repeat.
    engine.set_paddle(true, false);

    // Walk far enough to see ~30 KeyDown→KeyUp cycles; max_us is
    // the worst-case wall time (with 1 ms tick this would never
    // overshoot by more than 30 ms — leave plenty of slack).
    let dot_us: i64 = 1_200_000 / 28; // 42857
    let cycles_wanted = 30;
    let max_ticks = 4 * 1000 * cycles_wanted; // 30 cycles ≈ 2.5 s

    let mut down_ts: Vec<u64> = Vec::new();
    for _ in 0..max_ticks {
        if let Some(KeyerOutput::KeyDown) = engine.tick() {
            down_ts.push(engine.elapsed_us());
            if down_ts.len() > cycles_wanted as usize {
                break;
            }
        }
    }
    assert!(
        down_ts.len() > cycles_wanted as usize,
        "expected > {cycles_wanted} KeyDown events, got {}",
        down_ts.len()
    );

    // First cycle includes the PttRequest pre-roll, so drop it.
    let intervals: Vec<i64> = down_ts
        .windows(2)
        .skip(1)
        .map(|w| (w[1] - w[0]) as i64)
        .collect();
    let min = *intervals.iter().min().unwrap();
    let max = *intervals.iter().max().unwrap();
    let span = max - min;
    // Expected cycle = 2 × dot_us = 85714 µs.  Each interval must
    // be inside [85714 - 250, 85714 + 250] and the swing must not
    // exceed one tick quantum.
    assert!(
        span <= 250,
        "dit cycle jitter {span} µs (min {min}, max {max}, ideal {}) exceeds 250 µs",
        2 * dot_us
    );
}

#[test]
fn the_dead_zone_is_ignored_outside_iambic_b_whatever_is_done() {
    for mode in [
        KeyerMode::Straight,
        KeyerMode::IambicA,
        KeyerMode::Bug,
        KeyerMode::Ultimatic,
        KeyerMode::SinglePaddle,
    ] {
        let mut a = engine_at(25, mode);
        let mut b = engine_at(25, mode);
        a.config.iambic_b_timing_percent = 0;
        b.config.iambic_b_timing_percent = 100;
        let mut seed = 12345u32;
        let mut key = false;
        let mut ptt = false;
        for _ in 0..20_000 {
            seed = seed.wrapping_mul(1_664_525).wrapping_add(1_013_904_223);
            let r = seed >> 16;
            if r % 37 == 0 {
                let (dit, dash) = (r & 64 != 0, r & 128 != 0);
                a.set_paddle(dit, dash);
                b.set_paddle(dit, dash);
            } else if r % 1009 == 1 {
                a.send_text("EN");
                b.send_text("EN");
            } else if r % 2003 == 2 {
                a.abort_text();
                b.abort_text();
            }
            let out = a.tick();
            assert_eq!(out, b.tick());
            match out {
                Some(KeyerOutput::KeyDown) => {
                    assert!(!key && ptt);
                    key = true;
                }
                Some(KeyerOutput::KeyUp) => {
                    assert!(key && ptt);
                    key = false;
                }
                Some(KeyerOutput::PttRequest(on)) => {
                    assert!(ptt != on && !key);
                    ptt = on;
                }
                None => {}
            }
        }
    }
}

#[test]
fn transitions_are_the_last_moves_since_they_were_handed_out() {
    let mut engine = engine_at(60, KeyerMode::IambicA);
    engine.set_paddle(true, true);
    let mut moves = Vec::new();
    for tick in 1..=6000u64 {
        match engine.tick() {
            Some(KeyerOutput::KeyDown) => moves.push((true, tick * 1000)),
            Some(KeyerOutput::KeyUp) => moves.push((false, tick * 1000)),
            _ => {}
        }
        if tick == 500 || tick == 6000 {
            let kept = &moves[moves.len().saturating_sub(MAX_RECORDED_TRANSITIONS)..];
            let drained: Vec<(bool, u64)> = engine
                .drain_transitions()
                .iter()
                .map(|t| (t.key_down, t.timestamp_us))
                .collect();
            assert_eq!(drained, kept);
            assert!(engine.drain_transitions().is_empty());
            assert_eq!(moves.len() > MAX_RECORDED_TRANSITIONS, tick == 6000);
            moves.clear();
        }
    }
}
