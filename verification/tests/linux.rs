use computeruse::linux::{
    button_key, convert_event, convert_keyboard_event, is_keyboard, is_mouse, InputRecord,
};
use computeruse::listen::ListenStep;
use computeruse::{
    Button, ButtonState, Key, KeyState, KeyboardEvent, KeyboardListener, LinuxKeyboard, LinuxMouse,
    Listener, MouseEvent, Timestamp, X11ButtonListener,
};
use evdev::{EventType, InputEvent, KeyCode, RelativeAxisCode};

const NOW: Timestamp = Timestamp { bits: 0x3ff8_0000_0000_0000 };

fn record(event: InputEvent) -> InputRecord {
    InputRecord {
        kind: event.event_type().0,
        code: event.code(),
        value: event.value(),
    }
}

#[test]
fn converts_linux_button_events() {
    let event = InputEvent::new(EventType::KEY.0, KeyCode::BTN_RIGHT.0, 1);
    assert!(matches!(
        convert_event(record(event), NOW),
        Some(MouseEvent::Button {
            button: Button::Right,
            state: ButtonState::Down,
            ..
        })
    ));
}

#[test]
fn ignores_unknown_linux_events() {
    let event = InputEvent::new(EventType::SYNCHRONIZATION.0, 0, 0);
    assert!(convert_event(record(event), NOW).is_none());
}

#[test]
fn converts_linux_keyboard_events_and_repeats() {
    let event = InputEvent::new(EventType::KEY.0, KeyCode::KEY_A.0, 2);
    assert!(matches!(
        convert_keyboard_event(record(event), NOW),
        Some(KeyboardEvent {
            key: Key { scan_code: 30, .. },
            state: KeyState::Down,
            repeat: true,
            ..
        })
    ));
}

#[test]
fn converts_movement_and_wheels() {
    for (axis, expected) in [
        (RelativeAxisCode::REL_X, Some(MouseEvent::Move { dx: -5, dy: 0, time: NOW })),
        (RelativeAxisCode::REL_Y, Some(MouseEvent::Move { dx: 0, dy: -5, time: NOW })),
        (
            RelativeAxisCode::REL_WHEEL,
            Some(MouseEvent::Wheel { delta: -5, horizontal: false, time: NOW }),
        ),
        (
            RelativeAxisCode::REL_HWHEEL,
            Some(MouseEvent::Wheel { delta: -5, horizontal: true, time: NOW }),
        ),
        (RelativeAxisCode::REL_Z, None),
    ] {
        let event = InputEvent::new(EventType::RELATIVE.0, axis.0, -5);
        assert_eq!(convert_event(record(event), NOW), expected);
    }
    let event = InputEvent::new(EventType::ABSOLUTE.0, 0, 5);
    assert_eq!(convert_event(record(event), NOW), None);
}

#[test]
fn codes_are_those_of_the_kernel() {
    for (button, key) in [
        (Button::Left, KeyCode::BTN_LEFT),
        (Button::Right, KeyCode::BTN_RIGHT),
        (Button::Middle, KeyCode::BTN_MIDDLE),
        (Button::Side, KeyCode::BTN_SIDE),
        (Button::Extra, KeyCode::BTN_EXTRA),
    ] {
        assert_eq!(button_key(button), key.0);
        for state in [ButtonState::Down, ButtonState::Up] {
            let sent = LinuxMouse::button(button, state);
            assert_eq!(sent.kind, EventType::KEY.0);
            assert_eq!(
                convert_event(sent, NOW),
                Some(MouseEvent::Button { button, state, time: NOW })
            );
            assert!(convert_keyboard_event(sent, NOW).is_none());
        }
    }
}

#[test]
fn movement_is_sent_on_both_axes() {
    let sent = LinuxMouse::move_relative(3, -4);
    assert_eq!(sent[0], InputRecord { kind: 2, code: 0, value: 3 });
    assert_eq!(sent[1], InputRecord { kind: 2, code: 1, value: -4 });
    let sent = LinuxMouse::move_absolute(7, 65_535);
    assert_eq!(sent[0], InputRecord { kind: 3, code: 0, value: 7 });
    assert_eq!(sent[1], InputRecord { kind: 3, code: 1, value: 65_535 });
    assert_eq!(
        LinuxMouse::wheel(-2, true),
        InputRecord { kind: 2, code: RelativeAxisCode::REL_HWHEEL.0, value: -2 }
    );
    assert_eq!(
        LinuxMouse::wheel(2, false),
        InputRecord { kind: 2, code: RelativeAxisCode::REL_WHEEL.0, value: 2 }
    );
}

#[test]
fn keyboard_has_keys_but_no_buttons() {
    for code in [1, 30, 0xff, 0x160, 0x2ff] {
        assert!(LinuxKeyboard::supports_scan_code(code), "{code:#x}");
    }
    for code in [0, 0x100, 0x110, 0x15f, 0x300, u16::MAX] {
        assert!(!LinuxKeyboard::supports_scan_code(code), "{code:#x}");
    }
    let codes = LinuxKeyboard::scan_codes();
    assert_eq!(codes.len(), 0x2ff - 0x60);
    assert_eq!(codes[0], 1);
    assert_eq!(codes[0xff], 0x160);
}

#[test]
fn keys_that_are_sent_are_heard() {
    let sent = LinuxKeyboard::key(30, KeyState::Down).unwrap();
    let heard = convert_keyboard_event(sent, NOW).unwrap();
    assert_eq!(heard.key, Key::from_scan_code(30));
    assert_eq!((heard.state, heard.repeat, heard.time), (KeyState::Down, false, NOW));
    let sent = LinuxKeyboard::key(30, KeyState::Up).unwrap();
    let heard = convert_keyboard_event(sent, NOW).unwrap();
    assert_eq!((heard.state, heard.repeat), (KeyState::Up, false));
    let sent = LinuxKeyboard::repeat(30).unwrap();
    let heard = convert_keyboard_event(sent, NOW).unwrap();
    assert_eq!((heard.state, heard.repeat), (KeyState::Down, true));
    assert_eq!(
        LinuxKeyboard::key(0x110, KeyState::Down),
        Err("scan code 272 is not a supported Linux keyboard key".to_string())
    );
    assert!(LinuxKeyboard::repeat(0).is_err());
    let negative = InputRecord { kind: 1, code: 30, value: -1 };
    assert!(convert_keyboard_event(negative, NOW).is_none());
}

#[test]
fn devices_are_told_by_their_keys() {
    let left = KeyCode::BTN_LEFT.0;
    assert!(is_mouse(&[left, KeyCode::BTN_RIGHT.0]));
    assert!(is_mouse(&[KeyCode::BTN_MIDDLE.0, left]));
    assert!(!is_mouse(&[left]));
    assert!(!is_mouse(&[KeyCode::BTN_RIGHT.0, KeyCode::BTN_MIDDLE.0]));
    let keys = [
        KeyCode::KEY_A.0,
        KeyCode::KEY_Z.0,
        KeyCode::KEY_ENTER.0,
        KeyCode::KEY_SPACE.0,
    ];
    assert!(is_keyboard(&keys));
    assert!(!is_keyboard(&keys[1..]));
    assert!(!is_keyboard(&[]));
}

#[test]
fn listeners_choose_their_devices() {
    let mouse = vec![KeyCode::BTN_LEFT.0, KeyCode::BTN_RIGHT.0];
    let keyboard = vec![
        KeyCode::KEY_A.0,
        KeyCode::KEY_Z.0,
        KeyCode::KEY_ENTER.0,
        KeyCode::KEY_SPACE.0,
    ];
    let both = [mouse.clone(), keyboard.clone()].concat();
    let devices = vec![vec![], mouse, keyboard, both, vec![1]];
    assert_eq!(Listener::new(&devices).unwrap().devices, [1, 3]);
    assert_eq!(KeyboardListener::new(&devices).unwrap().devices, [2, 3]);
    assert_eq!(
        Listener::new(&vec![vec![1]]).unwrap_err(),
        "no readable mouse devices found under /dev/input; check permissions"
    );
    assert_eq!(
        KeyboardListener::new(&vec![]).unwrap_err(),
        "no readable keyboard devices found under /dev/input; check permissions"
    );
}

#[test]
fn listening_pauses_after_a_silent_round_only() {
    let listener = Listener { devices: vec![4, 7] };
    let (mut listening, step) = listener.listen_until();
    assert_eq!(step, ListenStep::Poll { device: 0 });
    assert_eq!(listening.heard(false), ListenStep::Poll { device: 0 });
    assert_eq!(listening.drained(false), ListenStep::Poll { device: 1 });
    assert_eq!(listening.drained(false), ListenStep::Poll { device: 0 });
    assert_eq!(listening.drained(true), ListenStep::Poll { device: 1 });
    assert_eq!(listening.drained(false), ListenStep::Pause { nanoseconds: 2_000_000 });
    assert_eq!(listening.drained(false), ListenStep::Poll { device: 1 });
    assert_eq!(listening.heard(true), ListenStep::Finished);

    let (mut listening, step) = X11ButtonListener::listen_until_cancelled();
    assert_eq!(step, ListenStep::Poll { device: 0 });
    assert_eq!(listening.heard(false), ListenStep::Poll { device: 0 });
    assert_eq!(listening.drained(true), ListenStep::Finished);
}
