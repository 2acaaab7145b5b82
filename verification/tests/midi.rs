use radio_utils::keyer::config::{MidiBindKind, MidiBinding};
use radio_utils::keyer::midi::{MidiLearnState, MidiLearnTarget, RawMidiEvent};
use std::time::Duration;
use web_time::Instant;

#[test]
fn note_off_status_byte_is_down_false() {
    let ev = RawMidiEvent::from_bytes(&[0x80, 45, 0]).unwrap();
    assert_eq!(ev.kind, MidiBindKind::NoteOn); // note-off normalises as NoteOn kind
    assert!(!ev.is_down);
    assert_eq!(ev.number, 45);
}

#[test]
fn note_on_velocity_zero_is_down_false() {
    let ev = RawMidiEvent::from_bytes(&[0x90, 45, 0]).unwrap();
    assert_eq!(ev.kind, MidiBindKind::NoteOn);
    assert!(!ev.is_down);
}

#[test]
fn note_on_velocity_nonzero_is_down_true() {
    let ev = RawMidiEvent::from_bytes(&[0x90, 45, 127]).unwrap();
    assert_eq!(ev.kind, MidiBindKind::NoteOn);
    assert!(ev.is_down);
    assert_eq!(ev.number, 45);
    assert_eq!(ev.channel, 1);
}

#[test]
fn control_change_nonzero_is_down_true() {
    let ev = RawMidiEvent::from_bytes(&[0xB1, 64, 127]).unwrap(); // CC on channel 2
    assert_eq!(ev.kind, MidiBindKind::ControlChange);
    assert!(ev.is_down);
    assert_eq!(ev.channel, 2);
    assert_eq!(ev.number, 64);
}

#[test]
fn control_change_zero_is_down_false() {
    let ev = RawMidiEvent::from_bytes(&[0xB0, 64, 0]).unwrap();
    assert!(!ev.is_down);
}

#[test]
fn from_bytes_empty_returns_none() {
    assert!(RawMidiEvent::from_bytes(&[]).is_none());
}

#[test]
fn from_bytes_truncated_two_bytes_returns_none() {
    // 2-byte NoteOn is malformed (status + note, missing velocity) — reject.
    assert!(RawMidiEvent::from_bytes(&[0x90, 45]).is_none());
}

#[test]
fn from_bytes_one_byte_note_on_accepted() {
    // 1-byte status-only NoteOn (USB MIDI CIN 0x0F single-byte) — accepted with number=0.
    let ev = RawMidiEvent::from_bytes(&[0x90]).unwrap();
    assert_eq!(ev.kind, MidiBindKind::NoteOn);
    assert_eq!(ev.channel, 1);
    assert_eq!(ev.number, 0);
    assert!(ev.is_down);
}

#[test]
fn from_bytes_one_byte_note_off_accepted() {
    let ev = RawMidiEvent::from_bytes(&[0x80]).unwrap();
    assert_eq!(ev.kind, MidiBindKind::NoteOn);
    assert_eq!(ev.channel, 1);
    assert_eq!(ev.number, 0);
    assert!(!ev.is_down);
}

#[test]
fn from_bytes_one_byte_realtime_returns_none() {
    // 1-byte realtime messages (0xF8 clock, 0xFE active sensing) — not NoteOn/Off/CC.
    assert!(RawMidiEvent::from_bytes(&[0xF8]).is_none());
    assert!(RawMidiEvent::from_bytes(&[0xFE]).is_none());
}

#[test]
fn from_bytes_unsupported_returns_none() {
    // SysEx (0xF0), clock (0xF8), active sensing (0xFE), program change (0xC0) → None
    assert!(RawMidiEvent::from_bytes(&[0xF0, 0x7E, 0x00]).is_none());
    assert!(RawMidiEvent::from_bytes(&[0xC0, 0x01, 0x00]).is_none()); // program change
}

#[test]
fn matches_binding() {
    let binding = MidiBinding {
        channel: 1,
        kind: MidiBindKind::NoteOn,
        number: 45,
    };
    let ev = RawMidiEvent::from_bytes(&[0x90, 45, 100]).unwrap();
    assert!(ev.matches(&binding));

    let ev2 = RawMidiEvent::from_bytes(&[0x90, 46, 100]).unwrap();
    assert!(!ev2.matches(&binding));
}

#[test]
fn channel_mismatch_does_not_match() {
    let ev = RawMidiEvent::from_bytes(&[0x91, 60, 100]).unwrap(); // ch 2 NoteOn
    let binding = MidiBinding {
        channel: 1,
        kind: MidiBindKind::NoteOn,
        number: 60,
    };
    assert!(!ev.matches(&binding), "different channel should not match");
}

#[test]
fn channel_match_does_match() {
    let ev = RawMidiEvent::from_bytes(&[0x90, 60, 100]).unwrap(); // ch 1 NoteOn
    let binding = MidiBinding {
        channel: 1,
        kind: MidiBindKind::NoteOn,
        number: 60,
    };
    assert!(ev.matches(&binding), "same channel should match");
}

// --- MidiLearnState tests ---

#[test]
fn learn_state_resolves_after_500ms() {
    let mut state = MidiLearnState::new();
    state.begin(MidiLearnTarget::Dit);

    let ev = RawMidiEvent {
        kind: MidiBindKind::NoteOn,
        channel: 1,
        number: 36,
        is_down: true,
    };

    // Feed the event with a time stamp that lies 500 ms back.
    state.feed_at(ev, Instant::now() - Duration::from_millis(500));

    let result = state.try_resolve();
    assert!(result.is_some(), "should resolve after 500ms");
    let (target, binding) = result.unwrap();
    assert_eq!(target, MidiLearnTarget::Dit);
    assert_eq!(binding.number, 36);
    assert_eq!(binding.kind, MidiBindKind::NoteOn);
    assert!(
        !state.is_learning(),
        "state should be cleared after resolution"
    );
}

#[test]
fn learn_state_does_not_resolve_before_500ms() {
    let mut state = MidiLearnState::new();
    state.begin(MidiLearnTarget::Dah);

    let ev = RawMidiEvent {
        kind: MidiBindKind::NoteOn,
        channel: 1,
        number: 36,
        is_down: true,
    };
    state.feed(ev);
    // Fed just now: less than 500 ms have passed.

    assert!(
        state.try_resolve().is_none(),
        "should not resolve before 500ms"
    );
    assert!(state.is_learning(), "session should still be active");
}

#[test]
fn learn_state_prefers_noteon_over_cc() {
    let mut state = MidiLearnState::new();
    state.begin(MidiLearnTarget::Dit);

    let cc = RawMidiEvent {
        kind: MidiBindKind::ControlChange,
        channel: 1,
        number: 7,
        is_down: true,
    };
    let note = RawMidiEvent {
        kind: MidiBindKind::NoteOn,
        channel: 1,
        number: 36,
        is_down: true,
    };

    state.feed_at(cc, Instant::now() - Duration::from_millis(500));
    state.feed(note);

    let (_, binding) = state.try_resolve().unwrap();
    assert_eq!(
        binding.kind,
        MidiBindKind::NoteOn,
        "NoteOn should win over CC"
    );
}

#[test]
fn learn_state_deduplicates_candidates() {
    let mut state = MidiLearnState::new();
    state.begin(MidiLearnTarget::Dit);

    let ev = RawMidiEvent {
        kind: MidiBindKind::NoteOn,
        channel: 1,
        number: 36,
        is_down: true,
    };
    state.feed(ev);
    state.feed(ev); // duplicate — same kind + channel + number
    state.feed(RawMidiEvent {
        kind: MidiBindKind::NoteOn,
        channel: 1,
        number: 36,
        is_down: false,
    });

    // Should only have one candidate
    assert_eq!(state.candidate_count(), 1);
}

#[test]
fn learn_state_does_not_deduplicate_different_channels() {
    let mut state = MidiLearnState::new();
    state.begin(MidiLearnTarget::Dit);

    // Same note number but different channels — both kept as distinct candidates.
    let ev_ch1 = RawMidiEvent {
        kind: MidiBindKind::NoteOn,
        channel: 1,
        number: 36,
        is_down: true,
    };
    let ev_ch2 = RawMidiEvent {
        kind: MidiBindKind::NoteOn,
        channel: 2,
        number: 36,
        is_down: true,
    };
    state.feed(ev_ch1);
    state.feed(ev_ch2);

    assert_eq!(
        state.candidate_count(),
        2,
        "different channels should not be deduplicated"
    );
}

#[test]
fn learn_state_cancel_clears_everything() {
    let mut state = MidiLearnState::new();
    state.begin(MidiLearnTarget::Dit);
    let ev = RawMidiEvent {
        kind: MidiBindKind::NoteOn,
        channel: 1,
        number: 36,
        is_down: true,
    };
    state.feed(ev);
    state.cancel();

    assert!(!state.is_learning());
    assert!(state.target().is_none());
    assert!(state.try_resolve().is_none());
}

#[test]
fn feed_is_noop_when_inactive() {
    let mut state = MidiLearnState::new();
    let ev = RawMidiEvent {
        kind: MidiBindKind::NoteOn,
        channel: 1,
        number: 36,
        is_down: true,
    };
    state.feed(ev); // no begin() called
    assert!(state.try_resolve().is_none());
    assert!(!state.is_learning());
}
