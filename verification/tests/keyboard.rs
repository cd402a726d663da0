use computeruse::keyboard::{parse_hotkey, HotkeyError, KeyboardPlayback};
use computeruse::playback::{PlaybackStep, Speed};
use computeruse::{
    Key, KeyState, KeyboardBackend, KeyboardController, KeyboardEvent, KeyboardPlaybackFilter,
    Timestamp,
};
use std::convert::Infallible;

#[derive(Default)]
struct FakeKeyboard(Vec<(u16, KeyState)>);

impl KeyboardBackend for FakeKeyboard {
    type Error = Infallible;

    fn key(&mut self, scan_code: u16, state: KeyState) -> Result<(), Self::Error> {
        self.0.push((scan_code, state));
        Ok(())
    }

    fn repeat(&mut self, scan_code: u16) -> Result<(), Self::Error> {
        self.0.push((scan_code, KeyState::Down));
        Ok(())
    }
}

struct FailingKeyboard {
    sent: Vec<(u16, KeyState)>,
    failing: (u16, KeyState),
}

impl KeyboardBackend for FailingKeyboard {
    type Error = &'static str;

    fn key(&mut self, scan_code: u16, state: KeyState) -> Result<(), Self::Error> {
        if (scan_code, state) == self.failing {
            return Err("injection failed");
        }
        self.sent.push((scan_code, state));
        Ok(())
    }
}

fn at(seconds: f64) -> Timestamp {
    Timestamp { bits: seconds.to_bits() }
}

fn speed(factor: f64) -> Speed {
    Speed { bits: factor.to_bits() }
}

/// Plays to the end and returns the delays that were asked for.
fn play_to_end<B: KeyboardBackend>(
    keyboard: &mut KeyboardController<B>,
    mut playback: KeyboardPlayback,
) -> (Vec<(f64, f64)>, Result<(), B::Error>) {
    let mut delays = Vec::new();
    loop {
        match keyboard.resume(&mut playback) {
            PlaybackStep::Delay { from, to } => {
                delays.push((f64::from_bits(from.bits), f64::from_bits(to.bits)));
            }
            PlaybackStep::Hold { .. } => panic!("keys are not held"),
            PlaybackStep::Continue => {}
            PlaybackStep::Finished(outcome) => return (delays, outcome),
        }
    }
}

fn key_event(name: &str, state: KeyState, repeat: bool, time: f64) -> KeyboardEvent {
    KeyboardEvent { key: name.parse().unwrap(), state, repeat, time: at(time) }
}

#[test]
fn hotkey_presses_in_order_and_releases_in_reverse() {
    let mut keyboard = KeyboardController::new(FakeKeyboard::default());
    keyboard.send_hotkey("ctrl+shift+a").unwrap();
    assert_eq!(
        keyboard.backend.0,
        [
            (29, KeyState::Down),
            (42, KeyState::Down),
            (30, KeyState::Down),
            (30, KeyState::Up),
            (42, KeyState::Up),
            (29, KeyState::Up),
        ]
    );
}

#[test]
fn playback_emits_repeat_events() {
    let event = KeyboardEvent {
        key: "a".parse().unwrap(),
        state: KeyState::Down,
        repeat: true,
        time: at(1.0),
    };
    let mut keyboard = KeyboardController::new(FakeKeyboard::default());
    let playback = keyboard.play(vec![event], speed(0.0), KeyboardPlaybackFilter::default());
    let (_, outcome) = play_to_end(&mut keyboard, playback);
    outcome.unwrap();
    assert_eq!(keyboard.backend.0, [(30, KeyState::Down)]);
}

#[test]
fn hotkey_releases_pressed_modifiers_after_backend_failure() {
    let mut keyboard = KeyboardController::new(FailingKeyboard {
        sent: Vec::new(),
        failing: (30, KeyState::Down),
    });
    assert!(matches!(
        keyboard.send_hotkey("ctrl+shift+a"),
        Err(HotkeyError::Backend("injection failed"))
    ));
    assert_eq!(
        keyboard.backend.sent,
        [
            (29, KeyState::Down),
            (42, KeyState::Down),
            (42, KeyState::Up),
            (29, KeyState::Up),
        ]
    );
}

#[test]
fn failed_release_does_not_keep_other_keys_down() {
    let mut keyboard = KeyboardController::new(FailingKeyboard {
        sent: Vec::new(),
        failing: (30, KeyState::Up),
    });
    let keys = parse_hotkey("ctrl+a").unwrap();
    assert_eq!(keyboard.send(&keys), Err("injection failed"));
    assert_eq!(
        keyboard.backend.sent,
        [(29, KeyState::Down), (30, KeyState::Down), (29, KeyState::Up)]
    );
}

#[test]
fn unknown_hotkey_sends_nothing() {
    let mut keyboard = KeyboardController::new(FakeKeyboard::default());
    match keyboard.send_hotkey("ctrl+nonsense+a") {
        Err(HotkeyError::Unknown(message)) => assert_eq!(
            message,
            "unknown key: nonsense; use a key name or code:<number>"
        ),
        _ => panic!("the hotkey is not known"),
    }
    assert!(keyboard.backend.0.is_empty());
}

#[test]
fn keys_read_back_from_their_names() {
    for code in 0..=u16::MAX {
        let key = Key::from_scan_code(code);
        assert_eq!(key.scan_code, code);
        assert_eq!(key.name.parse::<Key>(), Ok(key));
    }
    assert_eq!(Key::from_scan_code(1).name, "escape");
    assert_eq!(Key::from_scan_code(767).name, "code:767");
}

#[test]
fn names_are_normalized() {
    let key: Key = " Page-Up ".parse().unwrap();
    assert_eq!(key.name, "page_up");
    assert_eq!(key.scan_code, 104);
    assert_eq!("CODE:30".parse::<Key>().unwrap().scan_code, 30);
    assert!("code:65536".parse::<Key>().is_err());
    assert!("".parse::<Key>().is_err());
}

#[test]
fn press_and_release_send_one_event_each() {
    let mut keyboard = KeyboardController::new(FakeKeyboard::default());
    let key = Key::from_scan_code(57);
    keyboard.press(&key).unwrap();
    keyboard.release(&key).unwrap();
    assert_eq!(keyboard.backend.0, [(57, KeyState::Down), (57, KeyState::Up)]);
}

#[test]
fn keyboard_playback_waits_between_events_and_keeps_their_order() {
    let events = vec![
        key_event("a", KeyState::Down, false, 1.0),
        key_event("a", KeyState::Up, false, 1.5),
        key_event("b", KeyState::Down, false, 2.5),
    ];
    let mut keyboard = KeyboardController::new(FakeKeyboard::default());
    let filter = KeyboardPlaybackFilter { press: true, release: false };
    let playback = keyboard.play(events, speed(2.0), filter);
    let (delays, outcome) = play_to_end(&mut keyboard, playback);
    outcome.unwrap();
    assert_eq!(delays, [(1.0, 1.5), (1.5, 2.5)]);
    assert_eq!(keyboard.backend.0, [(30, KeyState::Down), (48, KeyState::Down)]);
}

#[test]
fn keyboard_playback_ends_with_the_first_error() {
    let events = vec![
        key_event("a", KeyState::Down, false, 1.0),
        key_event("b", KeyState::Down, false, 1.0),
    ];
    let mut keyboard = KeyboardController::new(FailingKeyboard {
        sent: Vec::new(),
        failing: (30, KeyState::Down),
    });
    let playback = keyboard.play(events, speed(0.0), KeyboardPlaybackFilter::default());
    let (_, outcome) = play_to_end(&mut keyboard, playback);
    assert_eq!(outcome, Err("injection failed"));
    assert!(keyboard.backend.sent.is_empty());
}

/// Notes which of its methods was called.
#[derive(Default)]
struct TellingKeyboard(Vec<String>);

impl KeyboardBackend for TellingKeyboard {
    type Error = Infallible;

    fn key(&mut self, scan_code: u16, state: KeyState) -> Result<(), Self::Error> {
        self.0.push(format!("key {scan_code} {state:?}"));
        Ok(())
    }

    fn repeat(&mut self, scan_code: u16) -> Result<(), Self::Error> {
        self.0.push(format!("repeat {scan_code}"));
        Ok(())
    }
}

#[test]
fn repeated_events_are_sent_as_repeats() {
    let events = || {
        vec![
            key_event("a", KeyState::Down, false, 1.0),
            key_event("a", KeyState::Down, true, 2.0),
            key_event("a", KeyState::Up, false, 3.0),
        ]
    };
    let mut keyboard = KeyboardController::new(TellingKeyboard::default());
    let playback = keyboard.play(events(), speed(0.0), KeyboardPlaybackFilter::default());
    let (delays, outcome) = play_to_end(&mut keyboard, playback);
    outcome.unwrap();
    assert!(delays.is_empty());
    assert_eq!(keyboard.backend.0, ["key 30 Down", "repeat 30", "key 30 Up"]);

    // A keyboard without a request of its own for it presses again.
    let mut keyboard = KeyboardController::new(FailingKeyboard {
        sent: Vec::new(),
        failing: (0, KeyState::Up),
    });
    let playback = keyboard.play(events(), speed(0.0), KeyboardPlaybackFilter::default());
    play_to_end(&mut keyboard, playback).1.unwrap();
    assert_eq!(
        keyboard.backend.sent,
        [(30, KeyState::Down), (30, KeyState::Down), (30, KeyState::Up)]
    );
}
