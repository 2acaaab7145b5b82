use radio_utils::decoder::{Decoder, HISTORY_CAPACITY};
use radio_utils::keyer::morse::{text_to_elements, MorseElement};

/// Drive a sequence of (key_down, duration_us) transitions through
/// a fresh decoder and return its decoded text (oldest-first).
/// After the final transition, polls once at the same timestamp so
/// any in-flight character that completed via the last `(false, ...)`
/// gap gets flushed without adding extra trailing silence.
fn decode(wpm: u8, durations: &[(bool, u64)]) -> String {
    let mut d = Decoder::new();
    let mut now = 0u64;
    for &(k, dur) in durations {
        d.on_transition(now, k, wpm);
        now += dur;
    }
    d.poll(now, wpm);
    let mut buf = [0u8; 64];
    let n = d.snapshot(&mut buf);
    let mut out = String::new();
    for &b in &buf[..n] {
        out.push(b as char);
    }
    out
}

fn dit_us(wpm: u8) -> u64 {
    1_200_000 / wpm as u64
}

#[test]
fn decodes_single_dit_as_e() {
    let d = dit_us(20);
    // Pulse 1 dit, then 4-dit gap to flush.
    let r = decode(20, &[(true, d), (false, 4 * d)]);
    assert_eq!(r.as_str(), "E");
}

#[test]
fn decodes_single_dah_as_t() {
    let d = dit_us(20);
    let r = decode(20, &[(true, 3 * d), (false, 4 * d)]);
    assert_eq!(r.as_str(), "T");
}

#[test]
fn decodes_paris() {
    let d = dit_us(20);
    let s = 3 * d;
    let g_intra = d;
    let g_inter = 3 * d;
    // Trailing gap < 6 × dit so we don't get a trailing space.
    let g_final = 4 * d;
    let seq = &[
        // P = .--.
        (true, d),
        (false, g_intra),
        (true, s),
        (false, g_intra),
        (true, s),
        (false, g_intra),
        (true, d),
        (false, g_inter),
        // A = .-
        (true, d),
        (false, g_intra),
        (true, s),
        (false, g_inter),
        // R = .-.
        (true, d),
        (false, g_intra),
        (true, s),
        (false, g_intra),
        (true, d),
        (false, g_inter),
        // I = ..
        (true, d),
        (false, g_intra),
        (true, d),
        (false, g_inter),
        // S = ...
        (true, d),
        (false, g_intra),
        (true, d),
        (false, g_intra),
        (true, d),
        (false, g_final),
    ];
    assert_eq!(decode(20, seq).as_str(), "PARIS");
}

#[test]
fn emits_word_space_after_7_dit_gap() {
    let d = dit_us(20);
    let s = 3 * d;
    let seq = &[
        (true, s),
        (false, 7 * d), // T then word break
        (true, d),
        (false, 4 * d), // E + flush
    ];
    assert_eq!(decode(20, seq).as_str(), "T E");
}

#[test]
fn space_at_exact_inter_word_threshold() {
    // Boundary: gap of exactly 6 × dit must emit the space (the
    // `>=` branch in `process_gap`). 7-dit and 5-dit cases are
    // covered by the surrounding tests; this nails the threshold
    // itself.
    let d = dit_us(20);
    let s = 3 * d;
    let seq = &[(true, s), (false, 6 * d), (true, d), (false, 4 * d)];
    assert_eq!(decode(20, seq).as_str(), "T E");
}

#[test]
fn no_space_below_inter_word_threshold() {
    let d = dit_us(20);
    let s = 3 * d;
    // 5 × dit gap is above inter-char (2 ×) but below inter-word
    // (6 ×) — flush the char but no space.
    let seq = &[(true, s), (false, 5 * d), (true, d), (false, 4 * d)];
    assert_eq!(decode(20, seq).as_str(), "TE");
}

#[test]
fn decodes_digits() {
    let d = dit_us(20);
    let s = 3 * d;
    let g_intra = d;
    let g_inter = 3 * d;
    let g_final = 4 * d;
    // "73"
    let seq = &[
        // 7 = --...
        (true, s),
        (false, g_intra),
        (true, s),
        (false, g_intra),
        (true, d),
        (false, g_intra),
        (true, d),
        (false, g_intra),
        (true, d),
        (false, g_inter),
        // 3 = ...--
        (true, d),
        (false, g_intra),
        (true, d),
        (false, g_intra),
        (true, d),
        (false, g_intra),
        (true, s),
        (false, g_intra),
        (true, s),
        (false, g_final),
    ];
    assert_eq!(decode(20, seq).as_str(), "73");
}

#[test]
fn poll_alone_flushes_pending_character() {
    // Don't feed a final inter-char gap — rely on poll to detect
    // the silence and emit. Mirrors a user interface where
    // the periodic poll is what produces the last char of a
    // transmission.
    let d = dit_us(20);
    let mut dec = Decoder::new();
    dec.on_transition(0, true, 20); // key down
    dec.on_transition(d, false, 20); // key up after 1 dit
                                     // No further transitions. Poll 4 dits after the last edge.
    dec.poll(d + 4 * d, 20);
    let mut buf = [0u8; 4];
    let n = dec.snapshot(&mut buf);
    assert_eq!(&buf[..n], b"E");
}

#[test]
fn repeated_poll_during_silence_emits_one_space() {
    let d = dit_us(20);
    let mut dec = Decoder::new();
    dec.on_transition(0, true, 20);
    dec.on_transition(d, false, 20);
    // Poll three times deep into the inter-word silence — should
    // produce "E " once, not "E   ".
    for _ in 0..3 {
        dec.poll(d + 10 * d, 20);
    }
    let mut buf = [0u8; 8];
    let n = dec.snapshot(&mut buf);
    assert_eq!(&buf[..n], b"E ");
}

#[test]
fn clear_resets_history_and_in_flight() {
    let d = dit_us(20);
    let mut dec = Decoder::new();
    dec.on_transition(0, true, 20);
    dec.on_transition(d, false, 20);
    dec.poll(d + 4 * d, 20);
    assert_eq!(dec.len(), 1);
    dec.clear();
    assert!(dec.is_empty());
    // After clear, a fresh transmission decodes from scratch.
    dec.on_transition(0, true, 20);
    dec.on_transition(3 * d, false, 20);
    dec.poll(3 * d + 4 * d, 20);
    let mut buf = [0u8; 4];
    let n = dec.snapshot(&mut buf);
    assert_eq!(&buf[..n], b"T");
}

#[test]
fn overflowed_character_silently_dropped() {
    // 10 dits in one "character" — way more than the 6 allowed by
    // valid Morse codes. Decoder should mark in-flight invalid and
    // emit nothing on the next gap.
    let d = dit_us(20);
    let mut dec = Decoder::new();
    let mut now = 0u64;
    let mut last_edge = 0u64;
    for _ in 0..10 {
        dec.on_transition(now, true, 20);
        now += d;
        dec.on_transition(now, false, 20);
        last_edge = now;
        now += d; // intra-char gap
    }
    // Poll at 3 × dit silence after the last edge — enough to
    // trigger inter-char emit (≥ 2 × dit), well below the 6 × dit
    // inter-word threshold so no trailing space is added.
    dec.poll(last_edge + 3 * d, 20);
    assert!(
        dec.is_empty(),
        "expected no decoded chars from overflow, got len={}",
        dec.len()
    );
}

#[test]
fn history_evicts_oldest_on_overflow() {
    // Send 40 dits with inter-char gaps; the ring holds only 32.
    let d = dit_us(20);
    let mut dec = Decoder::new();
    let mut now = 0u64;
    for _ in 0..40 {
        dec.on_transition(now, true, 20);
        now += d;
        dec.on_transition(now, false, 20);
        now += 3 * d;
    }
    dec.poll(now + 2 * d, 20);
    // Capacity is 32 — last 32 'E's retained, first 8 evicted.
    let mut buf = [0u8; 64];
    let n = dec.snapshot(&mut buf);
    assert_eq!(n, HISTORY_CAPACITY);
    assert!(buf[..n].iter().all(|&b| b == b'E'));
}

/// Keys the elements of a text with exact timing into a fresh decoder, polls once
/// behind it and returns what was read.
fn read_back(text: &str, wpm: u8) -> Vec<u8> {
    let d = dit_us(wpm);
    let mut dec = Decoder::new();
    let mut now = 1000u64;
    for e in text_to_elements(text) {
        let (mark, units) = match e {
            MorseElement::Dit => (true, 1),
            MorseElement::Dash => (true, 3),
            MorseElement::ElementGap => (false, 1),
            MorseElement::LetterGap => (false, 3),
            MorseElement::WordGap => (false, 7),
        };
        if mark {
            dec.on_transition(now, true, wpm);
            dec.on_transition(now + units * d, false, wpm);
        }
        now += units * d;
    }
    dec.poll(now + 4 * d, wpm);
    let mut buf = [0u8; 32];
    let n = dec.snapshot(&mut buf);
    buf[..n].to_vec()
}

#[test]
fn what_the_keyer_sends_is_read_back() {
    for text in ["E", "73", "PARIS", "T E", "CQ CQ DE W1AW/7 = QTH? 0.5,K", "ABCDEFGHIJKLMNOPQRSTUVWXYZ012345"] {
        for wpm in [1, 13, 20, 255] {
            assert_eq!(read_back(text, wpm), text.as_bytes());
        }
    }
}

#[test]
fn a_default_decoder_is_a_new_one() {
    let d = dit_us(20);
    let mut a = Decoder::default();
    let mut b = Decoder::new();
    for dec in [&mut a, &mut b] {
        dec.on_transition(0, true, 20);
        dec.on_transition(d, false, 20);
        dec.poll(8 * d, 20);
        let mut buf = [0u8; 8];
        assert_eq!(dec.snapshot(&mut buf), 2);
        assert_eq!(&buf[..2], b"E ");
    }
}
