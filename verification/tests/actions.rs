use computeruse::action::{validate_action, validate_actions};
use computeruse::batch::{execute_actions, BatchError, BatchStep};
use computeruse::cursor::{CursorError, CursorStep};
use computeruse::keyboard::HotkeyError;
use computeruse::{
    move_cursor_to, Action, Button, ButtonState, Controller, CursorBackend, CursorMotion, KeyState,
    KeyboardBackend, KeyboardController, MouseBackend, Point,
};
use std::convert::Infallible;

struct NoMouse;

impl MouseBackend for NoMouse {
    type Error = Infallible;

    fn button(&mut self, _: Button, _: ButtonState) -> Result<(), Self::Error> {
        unreachable!("keyboard actions must not emit mouse events")
    }

    fn move_relative(&mut self, _: i32, _: i32) -> Result<(), Self::Error> {
        unreachable!("keyboard actions must not emit mouse events")
    }

    fn move_absolute(&mut self, _: u16, _: u16) -> Result<(), Self::Error> {
        unreachable!("keyboard actions must not emit mouse events")
    }

    fn wheel(&mut self, _: i32, _: bool) -> Result<(), Self::Error> {
        unreachable!("keyboard actions must not emit mouse events")
    }
}

struct RecordingKeyboard<'a>(&'a mut Vec<(u16, KeyState)>);

impl KeyboardBackend for RecordingKeyboard<'_> {
    type Error = Infallible;

    fn key(&mut self, scan_code: u16, state: KeyState) -> Result<(), Self::Error> {
        self.0.push((scan_code, state));
        Ok(())
    }
}

struct RecordingMouse<'a>(&'a mut Vec<String>);

impl MouseBackend for RecordingMouse<'_> {
    type Error = Infallible;

    fn button(&mut self, button: Button, state: ButtonState) -> Result<(), Self::Error> {
        self.0.push(format!("{}:{state:?}", button.name()));
        Ok(())
    }

    fn move_relative(&mut self, dx: i32, dy: i32) -> Result<(), Self::Error> {
        self.0.push(format!("relative:{dx},{dy}"));
        Ok(())
    }

    fn move_absolute(&mut self, x: u16, y: u16) -> Result<(), Self::Error> {
        self.0.push(format!("absolute:{x},{y}"));
        Ok(())
    }

    fn wheel(&mut self, _: i32, _: bool) -> Result<(), Self::Error> {
        unreachable!("these actions must not scroll")
    }
}

struct ObservedCursor {
    reads: usize,
    fail_after: usize,
}

impl CursorBackend for ObservedCursor {
    type Error = &'static str;

    fn dimensions(&mut self) -> Result<(u16, u16), Self::Error> {
        Ok((1920, 1080))
    }

    fn position(&mut self) -> Result<Point, Self::Error> {
        self.reads += 1;
        if self.reads > self.fail_after {
            return Err("cursor feedback lost");
        }
        Ok(Point { x: 960, y: 540 })
    }

    fn move_to(&mut self, _: Point) -> Result<(), Self::Error> {
        unreachable!("cursor is already at the requested target")
    }
}

fn arrive(
    cursor: &mut ObservedCursor,
    x: u16,
    y: u16,
) -> Result<CursorMotion, CursorError<&'static str>> {
    let mut now: u128 = 0;
    let mut control = move_cursor_to(cursor, x, y)?;
    let mut step = control.resume(cursor, now);
    loop {
        step = match step {
            CursorStep::Clock => control.resume(cursor, now),
            CursorStep::Pause { nanoseconds } => {
                now += u128::from(nanoseconds);
                control.resume(cursor, now)
            }
            CursorStep::Steer { .. } => unreachable!("cursor is already at the requested target"),
            CursorStep::Finished(outcome) => return outcome,
        };
    }
}

/// Executes actions, with the nanoseconds of each pause.
fn execute<M: MouseBackend, K: KeyboardBackend>(
    mouse: &mut Controller<M>,
    keyboard: &mut KeyboardController<K>,
    mut cursor: Option<&mut ObservedCursor>,
    actions: &[Action],
    pauses: &mut Vec<u64>,
) -> Result<Vec<CursorMotion>, String> {
    let mut batch = execute_actions(actions, cursor.is_some())?;
    loop {
        let mut step = batch.resume::<M, K, CursorError<&'static str>>(mouse, keyboard);
        if let BatchStep::MoveCursor { x, y } = step {
            step = batch.arrived(arrive(cursor.as_mut().unwrap(), x, y));
        }
        match step {
            BatchStep::Continue => {}
            BatchStep::Pause { nanoseconds } => pauses.push(nanoseconds),
            BatchStep::MoveCursor { .. } => unreachable!(),
            BatchStep::Finished(Ok(())) => return Ok(batch.motions),
            BatchStep::Finished(Err(error)) => {
                return Err(match error {
                    BatchError::Mouse(_) => "mouse".to_string(),
                    BatchError::Keyboard(HotkeyError::Unknown(key)) => key,
                    BatchError::Keyboard(HotkeyError::Backend(_)) => "keyboard".to_string(),
                    BatchError::Cursor(CursorError::Backend(message)) => message.to_string(),
                    BatchError::Cursor(CursorError::Failed(failure)) => failure.message(),
                });
            }
        }
    }
}

#[test]
fn targeted_move_verifies_arrival_and_logs_feedback_before_clicking() {
    let mut mouse_events = Vec::new();
    let mut key_events = Vec::new();
    let mut pauses = Vec::new();
    let mut mouse = Controller::new(RecordingMouse(&mut mouse_events));
    let mut keyboard = KeyboardController::new(RecordingKeyboard(&mut key_events));
    let mut cursor = ObservedCursor {
        reads: 0,
        fail_after: 2,
    };
    let motion = execute(
        &mut mouse,
        &mut keyboard,
        Some(&mut cursor),
        &[
            Action::MouseMoveTo {
                x: 32_768,
                y: 32_768,
            },
            Action::MouseClick {
                button: Button::Left,
            },
        ],
        &mut pauses,
    )
    .unwrap();

    assert_eq!(cursor.reads, 2);
    assert_eq!(mouse_events, ["left:Down", "left:Up"]);
    assert!(key_events.is_empty());
    assert_eq!(motion.len(), 1);
    assert_eq!(motion[0].estimate.position, Point { x: 960, y: 540 });
    assert_eq!(motion[0].residual_squared, 0);
    assert_eq!(motion[0].target.x, 960);
    assert_eq!((motion[0].estimate.shift_x, motion[0].estimate.shift_y), (0, 0));
    assert_eq!(pauses, [20_000_000]);
}

#[test]
fn lost_arrival_feedback_prevents_following_click_and_typing() {
    let mut events = Vec::new();
    let mut mouse = Controller::new(NoMouse);
    let mut keyboard = KeyboardController::new(RecordingKeyboard(&mut events));
    let mut cursor = ObservedCursor {
        reads: 0,
        fail_after: 1,
    };
    let error = execute(
        &mut mouse,
        &mut keyboard,
        Some(&mut cursor),
        &[
            Action::MouseMoveTo {
                x: 32_768,
                y: 32_768,
            },
            Action::MouseClick {
                button: Button::Left,
            },
            Action::KeyTap { key: "a".into() },
        ],
        &mut Vec::new(),
    )
    .unwrap_err();

    assert!(error.contains("cursor feedback lost"));
    assert_eq!(cursor.reads, 2);
    assert!(events.is_empty());
}

#[test]
fn direct_absolute_and_raw_relative_movement_keep_their_units() {
    let mut mouse_events = Vec::new();
    let mut key_events = Vec::new();
    let mut mouse = Controller::new(RecordingMouse(&mut mouse_events));
    let mut keyboard = KeyboardController::new(RecordingKeyboard(&mut key_events));
    let mut cursor = ObservedCursor {
        reads: 0,
        fail_after: 0,
    };
    assert!(
        execute(
            &mut mouse,
            &mut keyboard,
            None,
            &[Action::MouseMoveTo { x: 1234, y: 56_789 }],
            &mut Vec::new(),
        )
        .unwrap()
        .is_empty()
    );
    assert!(
        execute(
            &mut mouse,
            &mut keyboard,
            Some(&mut cursor),
            &[Action::MouseMove { dx: -7, dy: 3 }],
            &mut Vec::new(),
        )
        .unwrap()
        .is_empty()
    );
    assert_eq!(mouse_events, ["absolute:1234,56789", "relative:-7,3"]);
    assert_eq!(cursor.reads, 0);
}

#[test]
fn invalid_batch_does_not_start_cursor_control() {
    let mut events = Vec::new();
    let mut mouse = Controller::new(NoMouse);
    let mut keyboard = KeyboardController::new(RecordingKeyboard(&mut events));
    let mut cursor = ObservedCursor {
        reads: 0,
        fail_after: 0,
    };
    assert!(
        execute(
            &mut mouse,
            &mut keyboard,
            Some(&mut cursor),
            &[
                Action::MouseMoveTo {
                    x: 32_768,
                    y: 32_768
                },
                Action::KeyTap {
                    key: "unknown".into()
                },
            ],
            &mut Vec::new(),
        )
        .is_err()
    );
    assert_eq!(cursor.reads, 0);
    assert!(events.is_empty());
}

#[test]
fn key_sequence_emits_each_tap_once_and_preserves_double_letters() {
    let mut events = Vec::new();
    let mut mouse = Controller::new(NoMouse);
    let mut keyboard = KeyboardController::new(RecordingKeyboard(&mut events));
    let mut keys: Vec<String> = "hello.realestate.com.au"
        .chars()
        .map(|key| key.to_string())
        .collect();
    keys.push("shift+a".into());
    keys.push("enter".into());

    execute(
        &mut mouse,
        &mut keyboard,
        None,
        &[Action::KeySequence { keys }],
        &mut Vec::new(),
    )
    .unwrap();

    let mut expected: Vec<_> = [
        35, 18, 38, 38, 24, 52, 19, 18, 30, 38, 18, 31, 20, 30, 20, 18, 52, 46, 24, 50, 52, 30,
        22,
    ]
    .into_iter()
    .flat_map(|code| [(code, KeyState::Down), (code, KeyState::Up)])
    .collect();
    expected.extend([
        (42, KeyState::Down),
        (30, KeyState::Down),
        (30, KeyState::Up),
        (42, KeyState::Up),
        (28, KeyState::Down),
        (28, KeyState::Up),
    ]);
    assert_eq!(events, expected);
}

#[test]
fn invalid_sequence_prevents_all_actions_from_executing() {
    let mut events = Vec::new();
    let mut mouse = Controller::new(NoMouse);
    let mut keyboard = KeyboardController::new(RecordingKeyboard(&mut events));
    let actions = [
        Action::KeyTap { key: "a".into() },
        Action::KeySequence {
            keys: vec!["b".into(), "ctrl+code:65535".into()],
        },
    ];

    assert!(execute(&mut mouse, &mut keyboard, None, &actions, &mut Vec::new()).is_err());
    assert!(events.is_empty());
}

#[test]
fn waiting_takes_its_time_between_actions() {
    let mut events = Vec::new();
    let mut pauses = Vec::new();
    let mut mouse = Controller::new(NoMouse);
    let mut keyboard = KeyboardController::new(RecordingKeyboard(&mut events));
    let actions = [
        Action::Wait { milliseconds: 7 },
        Action::Hotkey { keys: "ctrl+l".into() },
        Action::Wait { milliseconds: 30_000 },
    ];
    execute(&mut mouse, &mut keyboard, None, &actions, &mut pauses).unwrap();
    assert_eq!(pauses, [7_000_000, 30_000_000_000]);
    assert_eq!(
        events,
        [
            (29, KeyState::Down),
            (38, KeyState::Down),
            (38, KeyState::Up),
            (29, KeyState::Up),
        ]
    );
}

#[test]
fn each_limit_of_an_action_is_its_own() {
    for (good, bad) in [
        (
            Action::MouseMove { dx: 32_767, dy: -32_767 },
            Action::MouseMove { dx: 0, dy: -32_768 },
        ),
        (
            Action::Scroll { delta: -100, horizontal: true },
            Action::Scroll { delta: -101, horizontal: true },
        ),
        (
            Action::Wait { milliseconds: 30_000 },
            Action::Wait { milliseconds: u64::MAX },
        ),
        (
            Action::KeyTap { key: "code:767".into() },
            Action::KeyTap { key: "code:0".into() },
        ),
        (
            Action::Hotkey { keys: "ctrl+alt+t".into() },
            Action::Hotkey { keys: "ctrl++t".into() },
        ),
        (
            Action::MouseMove { dx: -1, dy: 1 },
            Action::MouseMove { dx: i32::MIN, dy: 0 },
        ),
    ] {
        assert!(validate_action(&good).is_ok(), "{good:?}");
        let message = validate_action(&bad).unwrap_err();
        assert!(!message.is_empty(), "{bad:?}");
        assert_eq!(validate_actions(&[good, bad]), Err(message));
    }
}

#[test]
fn key_sequences_are_bounded_and_validate_every_hotkey() {
    for keys in [
        vec![],
        vec!["a".into(); 257],
        vec!["a".into(), "".into()],
        vec!["a".into(), "ctrl+unknown".into()],
    ] {
        assert!(validate_actions(&[Action::KeySequence { keys }]).is_err());
    }
    assert!(
        validate_actions(&[Action::KeySequence {
            keys: vec!["a".into(); 256],
        }])
        .is_ok()
    );
    assert!(validate_actions(&vec![Action::KeyTap { key: "a".into() }; 17]).is_err());
}

#[test]
fn agent_actions_are_validated_before_execution() {
    assert!(validate_actions(&[Action::MouseMove { dx: 32_768, dy: 0 }]).is_err());
    assert!(
        validate_actions(&[Action::Wait {
            milliseconds: 30_001,
        }])
        .is_err()
    );
    assert!(
        validate_actions(&[Action::KeyTap {
            key: "code:65535".into(),
        }])
        .is_err()
    );
    assert!(
        validate_actions(&[
            Action::MouseMove { dx: -32_767, dy: 1 },
            Action::Scroll {
                delta: 100,
                horizontal: false,
            },
            Action::Hotkey {
                keys: "ctrl+a".into(),
            },
        ])
        .is_ok()
    );
}
