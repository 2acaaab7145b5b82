use radio_utils::keyer::config::{MidiBindKind, MidiBinding, SerialPin};
use radio_utils::keyer::midi::{
    midi_poll_action, MidiLearnState, MidiLearnTarget, MidiPaddles, MidiPollAction, RawMidiEvent,
};
use radio_utils::keyer::paddle::{
    format_usb_serial_description, pin_level, pin_mask, poll_pause_ms, serial_wait_is_over,
    MergedState, PaddleEvent, PaddleState, PollErrors, PollVerdict, BACKOFF_SLEEP_MS,
    IDLE_BACKOFF_THRESHOLD_MS, MAX_POLL_ERRORS,
};
use std::collections::VecDeque;
use std::time::Duration;
use web_time::Instant;

fn state(dit: bool, dash: bool) -> PaddleState {
    PaddleState {
        dit,
        dash,
        ..PaddleState::default()
    }
}

#[test]
fn paddle_events_set_and_clear_contacts() {
    let mut s = PaddleState::default();
    let before = s.timestamp;
    s.apply(PaddleEvent::DitDown);
    assert!(s.dit && !s.dash);
    assert!(s.timestamp >= before);
    s.apply(PaddleEvent::DashDown);
    s.apply(PaddleEvent::DitUp);
    assert!(!s.dit && s.dash);
    let now = Instant::now() + Duration::from_secs(3);
    s.apply_at(PaddleEvent::DashUp, now);
    assert!(!s.dit && !s.dash);
    assert_eq!(s.timestamp, now);
}

#[test]
fn merged_state_counts_changes_only() {
    let mut shared = MergedState::new();
    let idle = state(false, false);
    let down = state(true, false);
    assert!(!shared.publish(&idle, state(false, false)));
    assert_eq!(shared.generation, 0);
    assert!(shared.news_since(0).is_none());
    assert!(shared.publish(&idle, down));
    assert_eq!(shared.generation, 1);
    assert!(shared.news_since(0).unwrap().dit);
    assert!(shared.news_since(1).is_none());
}

#[test]
fn serial_wait_ends_with_a_change_or_at_the_deadline() {
    let a = state(true, false);
    assert!(!serial_wait_is_over(&a, &a, false));
    assert!(serial_wait_is_over(&a, &a, true));
    assert!(serial_wait_is_over(&a, &state(true, true), false));
}

#[test]
fn pins_have_their_bits_and_levels() {
    let pins = [SerialPin::CTS, SerialPin::DSR, SerialPin::DCD, SerialPin::RI];
    let masks = [1, 2, 4, 8];
    for (k, pin) in pins.into_iter().enumerate() {
        assert_eq!(pin_mask(pin), masks[k]);
        assert!(pin_level(pin, k == 0, k == 1, k == 2, k == 3));
        assert!(!pin_level(pin, k != 0, k != 1, k != 2, k != 3));
    }
}

#[test]
fn poller_gives_up_after_too_many_failures() {
    let mut errors = PollErrors { consecutive: 0 };
    for _ in 1..MAX_POLL_ERRORS {
        let v = errors.on_reading(Some(-1), SerialPin::CTS, SerialPin::DSR);
        assert_eq!(v, PollVerdict::Retry);
    }
    let v = errors.on_reading(None, SerialPin::CTS, SerialPin::DSR);
    assert_eq!(v, PollVerdict::GiveUp);
}

#[test]
fn a_good_reading_forgets_failures() {
    let mut errors = PollErrors { consecutive: 7 };
    let v = errors.on_reading(Some(0x06), SerialPin::CTS, SerialPin::DSR);
    assert_eq!(v, PollVerdict::Contacts { dit: false, dash: true });
    assert_eq!(errors.consecutive, 0);
}

#[test]
fn poller_slows_down_without_changes() {
    assert_eq!(poll_pause_ms(false, IDLE_BACKOFF_THRESHOLD_MS), Some(BACKOFF_SLEEP_MS));
    assert_eq!(poll_pause_ms(false, IDLE_BACKOFF_THRESHOLD_MS - 1), None);
    assert_eq!(poll_pause_ms(true, 10_000), None);
}

fn note(number: u8, down: bool) -> RawMidiEvent {
    RawMidiEvent {
        kind: MidiBindKind::NoteOn,
        channel: 1,
        number,
        is_down: down,
    }
}

fn bound(number: u8) -> Option<MidiBinding> {
    Some(MidiBinding {
        channel: 1,
        kind: MidiBindKind::NoteOn,
        number,
    })
}

#[test]
fn bound_buttons_move_the_paddles() {
    let mut p = MidiPaddles::new();
    assert!(p.apply(&note(20, true), &bound(20), &bound(21)));
    assert!(p.dit && !p.dash);
    assert!(!p.apply(&note(20, true), &bound(20), &bound(21)));
    assert!(!p.apply(&note(99, true), &bound(20), &bound(21)));
    assert!(p.apply(&note(21, true), &bound(20), &bound(21)));
    assert!(p.apply(&note(20, false), &bound(20), &bound(21)));
    assert!(!p.dit && p.dash);
    assert_eq!(p.generation, 3);
    assert!(!p.apply(&note(21, false), &None, &None));
    assert!(p.set_levels(false, false));
    assert!(!p.set_levels(false, false));
}

#[test]
fn one_button_may_move_both_paddles() {
    let mut p = MidiPaddles::new();
    assert!(p.apply(&note(20, true), &bound(20), &bound(20)));
    assert!(p.dit && p.dash);
    assert_eq!(p.generation, 1);
}

#[test]
fn waiting_events_are_taken_in_order() {
    let mut p = MidiPaddles::new();
    let mut queue: VecDeque<RawMidiEvent> =
        [note(20, true), note(21, true), note(99, true), note(20, false)].into();
    let events = p.drain(&mut queue, &bound(20), &bound(21));
    assert!(queue.is_empty());
    let numbers: Vec<u8> = events.iter().map(|e| e.number).collect();
    assert_eq!(numbers, [20, 21, 99, 20]);
    assert!(!p.dit && p.dash);
    assert_eq!(p.generation, 3);
    assert!(p.drain(&mut queue, &bound(20), &bound(21)).is_empty());
    assert!(!p.dit && p.dash);
}

#[test]
fn usb_serial_paddles_are_described() {
    assert_eq!(
        format_usb_serial_description("CH340", SerialPin::DCD, SerialPin::RI),
        "USB-serial paddle on CH340 (dit=DCD, dash=RI)"
    );
}

#[test]
fn midi_port_is_read_waited_for_or_given_up() {
    assert_eq!(midi_poll_action(1, 1), MidiPollAction::Read);
    assert_eq!(midi_poll_action(0, 1), MidiPollAction::Wait);
    assert_eq!(midi_poll_action(-5, 1), MidiPollAction::Stop);
    assert_eq!(midi_poll_action(1, 2), MidiPollAction::Stop);
}

#[test]
fn learning_takes_the_first_candidate_without_notes() {
    let mut s = MidiLearnState::new();
    s.begin(MidiLearnTarget::Dah);
    for number in [7, 8] {
        s.feed(RawMidiEvent {
            kind: MidiBindKind::ControlChange,
            channel: 3,
            number,
            is_down: true,
        });
    }
    assert_eq!(s.resolve_after(499), None);
    let (target, binding) = s.resolve_after(500).unwrap();
    assert_eq!(target, MidiLearnTarget::Dah);
    assert_eq!(binding.number, 7);
    assert_eq!(binding.channel, 3);
    assert!(!s.is_learning());
    assert_eq!(s.candidate_count(), 0);
}

#[test]
fn a_learned_binding_is_met_by_its_button() {
    let mut s = MidiLearnState::new();
    s.begin(MidiLearnTarget::Dit);
    assert_eq!(s.target(), Some(MidiLearnTarget::Dit));
    let ev = note(40, true);
    s.feed(ev);
    let (_, binding) = s.resolve_after(500).unwrap();
    assert!(ev.matches(&binding));
    assert!(note(40, false).matches(&binding));
    assert!(!note(41, true).matches(&binding));
}
