use computeruse::control::{control, ControlCommand, ControlPlan};
use computeruse::controller::{GestureKind, MouseRequest};
use computeruse::playback::Speed;
use computeruse::record::{
    check_recording, finish_recording, home_point, is_escape_press, is_recorded, KeyRecording,
    ESCAPE_SCAN_CODE,
};
use computeruse::{
    Button, ButtonState, Key, KeyState, KeyboardEvent, MouseEvent, Point, Timestamp,
};

fn at(seconds: f64) -> Timestamp {
    Timestamp { bits: seconds.to_bits() }
}

fn key(code: u16, state: KeyState, repeat: bool, seconds: f64) -> KeyboardEvent {
    KeyboardEvent { key: Key::from_scan_code(code), state, repeat, time: at(seconds) }
}

#[test]
fn escape_press_stops_mouse_recording() {
    let mut event = key(ESCAPE_SCAN_CODE, KeyState::Down, false, 0.0);
    assert!(is_escape_press(&event));

    event.repeat = true;
    assert!(!is_escape_press(&event));
    event.repeat = false;
    event.state = KeyState::Up;
    assert!(!is_escape_press(&event));
}

#[test]
fn key_recordings_end_with_the_release_of_their_key() {
    let mut recording = KeyRecording::new(1);
    assert!(!recording.push(key(1, KeyState::Up, false, 0.5)));
    assert!(!recording.push(key(30, KeyState::Down, false, 3.0)));
    assert!(!recording.push(key(1, KeyState::Down, true, 3.5)));
    assert!(!recording.push(key(1, KeyState::Up, false, 3.75)));
    assert!(!recording.push(key(1, KeyState::Down, false, 4.0)));
    assert!(!recording.push(key(30, KeyState::Up, false, 2.0)));
    assert!(recording.push(key(1, KeyState::Up, false, 5.0)));
    let times: Vec<f64> = recording
        .finish()
        .iter()
        .map(|event| f64::from_bits(event.time.bits))
        .collect();
    assert_eq!(times, [0.5, 2.0, 3.0, 3.5, 3.75, 4.0, 5.0]);
}

#[test]
fn mouse_recordings_are_put_in_order_and_checked() {
    let moved = |dx, seconds| MouseEvent::Move { dx, dy: 0, time: at(seconds) };
    let pressed = |seconds| MouseEvent::Button {
        button: Button::Left,
        state: ButtonState::Down,
        time: at(seconds),
    };
    assert_eq!(home_point(), Point { x: 960, y: 540 });
    assert_eq!(
        finish_recording(vec![moved(1, -1.0), moved(2, 3.0)], vec![pressed(2.0), pressed(0.5)]),
        Ok(vec![moved(1, -1.0), pressed(0.5), pressed(2.0), moved(2, 3.0)])
    );
    let far = vec![moved(i32::MAX - 960, 0.0), moved(1, 1.0)];
    assert!(check_recording(&far[..1]).is_ok());
    assert_eq!(
        check_recording(&far),
        Err("recording contains an invalid mouse trajectory".to_string())
    );
    assert_eq!(
        finish_recording(far, Vec::new()),
        Err("recorded mouse trajectory exceeds the coordinate range".to_string())
    );
    assert!(is_recorded(&moved(1, 0.0)));
    assert!(is_recorded(&MouseEvent::Wheel { delta: 1, horizontal: false, time: at(0.0) }));
    assert!(!is_recorded(&pressed(0.0)));
}

#[test]
fn commands_are_planned() {
    assert!(matches!(
        control(ControlCommand::Click { button: Button::Left, count: 2 }),
        Ok(ControlPlan::Gesture { kind: GestureKind::Clicks { button: Button::Left, count: 2 } })
    ));
    assert!(matches!(
        control(ControlCommand::Move { dx: 3, dy: 4, milliseconds: 0, ticks: 0 }),
        Ok(ControlPlan::Request { request: MouseRequest::MoveRelative { dx: 3, dy: 4 } })
    ));
    assert!(matches!(
        control(ControlCommand::Move { dx: 3, dy: 4, milliseconds: 100, ticks: 12 }),
        Ok(ControlPlan::Gesture { kind: GestureKind::Motion { .. } })
    ));
    assert!(matches!(
        control(ControlCommand::KeyRelease { scan_code: 30 }),
        Ok(ControlPlan::Key { scan_code: 30, state: KeyState::Up })
    ));
    let play = |speed: f64| ControlCommand::Play {
        speed: Speed { bits: speed.to_bits() },
        no_buttons: true,
        no_movement: false,
        no_wheel: true,
    };
    assert!(matches!(
        control(play(0.0)),
        Ok(ControlPlan::PlayMouse { filter, .. })
            if !filter.buttons && filter.movement && !filter.wheel
    ));
    assert_eq!(control(play(-0.5)).unwrap_err(), "speed must be zero or greater");
    assert!(control(play(-0.0)).is_ok());
    let play = |speed: f64| ControlCommand::KeyboardPlay {
        speed: Speed { bits: speed.to_bits() },
        no_press: false,
        no_release: true,
    };
    assert!(matches!(
        control(play(2.0)),
        Ok(ControlPlan::PlayKeyboard { filter, .. }) if filter.press && !filter.release
    ));
    assert_eq!(control(play(-1.0)).unwrap_err(), "speed must be zero or greater");
}
