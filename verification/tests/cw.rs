use radio_utils::decoder::{dit_duration_us, Decoder, LOOKUP};
use radio_utils::keyer::config::{KeyerConfig, KeyerMode};
use radio_utils::keyer::engine::{KeyerEngine, KeyerOutput};
use radio_utils::keyer::morse::{char_to_morse, text_to_elements, MorseElement, MORSE_TABLE};

fn text_of(dec: &Decoder) -> String {
    let mut buf = [0u8; 64];
    let n = dec.snapshot(&mut buf);
    buf[..n].iter().map(|&b| b as char).collect()
}

#[test]
fn dit_length_follows_the_speed() {
    assert_eq!(dit_duration_us(20), 60_000);
    assert_eq!(dit_duration_us(1), 1_200_000);
    assert_eq!(dit_duration_us(0), 1_200_000);
    assert_eq!(dit_duration_us(255), 4_705);
}

#[test]
fn every_letter_and_digit_is_decoded_from_its_pattern() {
    for (c, pattern) in MORSE_TABLE {
        if !c.is_ascii_alphanumeric() {
            continue;
        }
        let mut dec = Decoder::new();
        let mut now = 0u64;
        for mark in pattern.chars() {
            dec.on_transition(now, true, 20);
            now += if mark == '.' { 60_000 } else { 180_000 };
            dec.on_transition(now, false, 20);
            now += 60_000;
        }
        dec.poll(now + 120_000, 20);
        assert_eq!(text_of(&dec), c.to_string());
    }
}

#[test]
fn a_short_output_buffer_gets_the_oldest_characters() {
    let mut dec = Decoder::new();
    for k in 0..3u64 {
        dec.on_transition(k * 1_000_000, true, 20);
        dec.on_transition(k * 1_000_000 + if k == 1 { 180_000 } else { 60_000 }, false, 20);
        dec.poll(k * 1_000_000 + 360_000, 20);
    }
    let all = text_of(&dec);
    let mut two = [0u8; 2];
    assert_eq!(dec.snapshot(&mut two), 2);
    assert_eq!(two.to_vec(), all.as_bytes()[..2].to_vec());
}

#[test]
fn unknown_patterns_leave_no_character() {
    let mut dec = Decoder::new();
    let mut now = 0u64;
    // Six dits are no character of the table.
    for _ in 0..6 {
        dec.on_transition(now, true, 20);
        now += 60_000;
        dec.on_transition(now, false, 20);
        now += 60_000;
    }
    dec.poll(now + 120_000, 20);
    assert_eq!(LOOKUP[0b1000000], 0);
    assert!(dec.is_empty());
}

#[test]
fn text_that_the_engine_sends_is_decoded() {
    let mut engine = KeyerEngine::new(KeyerConfig {
        mode: KeyerMode::IambicB,
        speed_wpm: 20,
        ..KeyerConfig::default()
    });
    let mut dec = Decoder::new();
    engine.send_text("CQ TEST");
    for _ in 0..8000 {
        if let Some(KeyerOutput::KeyDown | KeyerOutput::KeyUp) = engine.tick() {
            for t in engine.drain_transitions() {
                dec.on_transition(t.timestamp_us, t.key_down, 20);
            }
        }
    }
    dec.poll(engine.elapsed_us(), 20);
    assert_eq!(text_of(&dec).trim_end(), "CQ TEST");
}

#[test]
fn texts_are_well_spaced() {
    let e = text_to_elements(" paris  73 ");
    let mark = |m: &MorseElement| matches!(m, MorseElement::Dit | MorseElement::Dash);
    assert_eq!(e[0], MorseElement::WordGap);
    assert!(mark(e.last().unwrap()));
    assert!(e.windows(2).all(|p| !(mark(&p[0]) && mark(&p[1]))));
    for p in e.windows(3) {
        if matches!(p[1], MorseElement::ElementGap | MorseElement::LetterGap) {
            assert!(mark(&p[0]) && mark(&p[2]));
        }
    }
}

#[test]
fn spaces_at_the_end_are_dropped() {
    assert_eq!(text_to_elements("HI   "), text_to_elements("HI"));
    assert!(text_to_elements("   ").is_empty());
}

#[test]
fn one_space_per_pause_of_the_key() {
    let mut dec = Decoder::new();
    dec.on_transition(0, true, 20);
    dec.on_transition(60_000, false, 20);
    dec.poll(1_000_000, 20);
    assert_eq!(text_of(&dec), "E ");
    dec.on_transition(1_500_000, false, 20);
    dec.poll(9_000_000, 20);
    assert_eq!(text_of(&dec), "E ");
    dec.on_transition(9_000_000, true, 20);
    dec.on_transition(9_180_000, false, 20);
    dec.poll(9_999_000, 20);
    assert_eq!(text_of(&dec), "E T ");
}

#[test]
fn words_are_sent_as_they_stand_alone() {
    let mut both = text_to_elements("CQ");
    both.push(MorseElement::WordGap);
    both.extend(text_to_elements("DX"));
    assert_eq!(text_to_elements("CQ DX"), both);
}

#[test]
fn table_has_no_character_twice() {
    for (k, (c, pattern)) in MORSE_TABLE.into_iter().enumerate() {
        assert_eq!(char_to_morse(c), Some(pattern));
        assert!(MORSE_TABLE[..k].iter().all(|(d, _)| *d != c));
        assert!(!pattern.is_empty());
        assert!(pattern.chars().all(|m| m == '.' || m == '-'));
    }
}

#[test]
fn a_keyed_text_is_read_with_its_word_gaps() {
    let mut dec = Decoder::new();
    let mut now = 0u64;
    let dit = 60_000u64;
    for c in "THE QUICK BROWN FOX 73".chars() {
        if c == ' ' {
            now += 4 * dit;
            dec.poll(now, 20);
            continue;
        }
        for mark in char_to_morse(c).unwrap().chars() {
            dec.on_transition(now, true, 20);
            now += if mark == '.' { dit } else { 3 * dit };
            dec.on_transition(now, false, 20);
            now += dit;
        }
        now += 2 * dit;
        dec.poll(now, 20);
    }
    assert_eq!(text_of(&dec), "THE QUICK BROWN FOX 73");
}

#[test]
fn many_polls_give_one_character_and_one_space() {
    let mut dec = Decoder::new();
    dec.on_transition(0, true, 20);
    dec.on_transition(60_000, false, 20);
    for k in 0..500u64 {
        dec.poll(60_000 + 5_000 * k, if k % 2 == 0 { 20 } else { 25 });
    }
    assert_eq!(text_of(&dec), "E ");
}
