use computeruse::controller::{Gesture, GestureProgress};
use computeruse::mouse_playback::MousePlayback;
use computeruse::playback::{PlaybackStep, Speed};
use computeruse::{
    Button, ButtonState, Controller, MouseBackend, MouseEvent, PlaybackFilter, Timestamp,
};
use std::convert::Infallible;

#[derive(Default)]
struct FakeBackend(Vec<String>);

impl MouseBackend for FakeBackend {
    type Error = Infallible;

    fn button(&mut self, button: Button, state: ButtonState) -> Result<(), Self::Error> {
        self.0.push(format!("{}:{state:?}", button.name()));
        Ok(())
    }
    fn move_relative(&mut self, dx: i32, dy: i32) -> Result<(), Self::Error> {
        self.0.push(format!("move:{dx},{dy}"));
        Ok(())
    }
    fn move_absolute(&mut self, x: u16, y: u16) -> Result<(), Self::Error> {
        self.0.push(format!("absolute:{x},{y}"));
        Ok(())
    }
    fn wheel(&mut self, delta: i32, horizontal: bool) -> Result<(), Self::Error> {
        self.0.push(format!("wheel:{delta},{horizontal}"));
        Ok(())
    }
}

/// Fails from a number of requests on, but releases buttons.
struct Failing {
    sent: Vec<String>,
    left: usize,
}

impl Failing {
    fn ask(&mut self, what: String) -> Result<(), &'static str> {
        self.sent.push(what);
        if self.left == 0 {
            return Err("device lost");
        }
        self.left -= 1;
        Ok(())
    }
}

impl MouseBackend for Failing {
    type Error = &'static str;

    fn button(&mut self, button: Button, state: ButtonState) -> Result<(), Self::Error> {
        self.ask(format!("{}:{state:?}", button.name()))
    }
    fn move_relative(&mut self, dx: i32, dy: i32) -> Result<(), Self::Error> {
        self.ask(format!("move:{dx},{dy}"))
    }
    fn move_absolute(&mut self, x: u16, y: u16) -> Result<(), Self::Error> {
        self.ask(format!("absolute:{x},{y}"))
    }
    fn wheel(&mut self, delta: i32, horizontal: bool) -> Result<(), Self::Error> {
        self.ask(format!("wheel:{delta},{horizontal}"))
    }
}

/// Makes a gesture and returns the pauses that were asked for.
fn make<B: MouseBackend>(
    controller: &mut Controller<B>,
    mut gesture: Gesture<B::Error>,
) -> (Vec<u128>, Result<(), B::Error>) {
    let mut pauses = Vec::new();
    loop {
        match controller.resume(&mut gesture) {
            GestureProgress::Continue => {}
            GestureProgress::Pause { nanoseconds } => pauses.push(nanoseconds),
            GestureProgress::Finished(outcome) => return (pauses, outcome),
        }
    }
}

/// Plays a recording with a clock that moves with the holds only, and returns the delays
/// and the holds that were asked for.
fn play_to_end<B: MouseBackend>(
    controller: &mut Controller<B>,
    mut playback: MousePlayback,
) -> (Vec<(f64, f64)>, Vec<u64>, Result<(), B::Error>) {
    let mut now: u128 = 1_000;
    let mut delays = Vec::new();
    let mut holds = Vec::new();
    loop {
        match controller.resume_playback(&mut playback, now) {
            PlaybackStep::Delay { from, to } => {
                delays.push((f64::from_bits(from.bits), f64::from_bits(to.bits)));
            }
            PlaybackStep::Hold { nanoseconds } => {
                holds.push(nanoseconds);
                now += u128::from(nanoseconds);
            }
            PlaybackStep::Continue => now += 1_000,
            PlaybackStep::Finished(outcome) => return (delays, holds, outcome),
        }
    }
}

fn at(seconds: f64) -> Timestamp {
    Timestamp { bits: seconds.to_bits() }
}

fn speed(factor: f64) -> Speed {
    Speed { bits: factor.to_bits() }
}

#[test]
fn click_and_double_click_preserve_order() {
    let mut controller = Controller::new(FakeBackend::default());
    let gesture = controller.click(Button::Left);
    let (pauses, outcome) = make(&mut controller, gesture);
    outcome.unwrap();
    assert_eq!(pauses, [20_000_000]);
    let gesture = controller.double_click(Button::Right);
    let (pauses, outcome) = make(&mut controller, gesture);
    outcome.unwrap();
    assert_eq!(pauses, [20_000_000, 20_000_000]);
    assert_eq!(
        controller.backend.0,
        [
            "left:Down",
            "left:Up",
            "right:Down",
            "right:Up",
            "right:Down",
            "right:Up"
        ]
    );
}

#[test]
fn animated_motion_reaches_exact_destination() {
    let mut controller = Controller::new(FakeBackend::default());
    // 25 ms are three ticks of 1/120 second.
    let gesture = controller.move_relative_over(7, -5, 25_000_000, 3);
    let (pauses, outcome) = make(&mut controller, gesture);
    outcome.unwrap();
    assert_eq!(pauses, [8_333_333, 8_333_333]);
    assert_eq!(controller.backend.0, ["move:2,-1", "move:2,-2", "move:3,-2"]);
    let totals = controller.backend.0.iter().fold((0, 0), |(x, y), item| {
        let values = item.strip_prefix("move:").unwrap();
        let (dx, dy) = values.split_once(',').unwrap();
        (
            x + dx.parse::<i32>().unwrap(),
            y + dy.parse::<i32>().unwrap(),
        )
    });
    assert_eq!(totals, (7, -5));
}

#[test]
fn motion_of_no_duration_is_one_step() {
    let mut controller = Controller::new(FakeBackend::default());
    let gesture = controller.move_relative_over(i32::MIN, i32::MAX, 0, 0);
    let (pauses, outcome) = make(&mut controller, gesture);
    outcome.unwrap();
    assert!(pauses.is_empty());
    assert_eq!(controller.backend.0, ["move:-2147483648,2147483647"]);
}

#[test]
fn drag_presses_moves_and_releases() {
    let mut controller = Controller::new(FakeBackend::default());
    let gesture = controller.drag_relative(4, 0, 16_000_000, 2);
    let (pauses, outcome) = make(&mut controller, gesture);
    outcome.unwrap();
    assert_eq!(pauses, [8_000_000]);
    assert_eq!(
        controller.backend.0,
        ["left:Down", "move:2,0", "move:2,0", "left:Up"]
    );
}

#[test]
fn drag_that_fails_still_releases() {
    let mut controller = Controller::new(Failing { sent: Vec::new(), left: 1 });
    let gesture = controller.drag_relative(4, 0, 16_000_000, 2);
    let (_, outcome) = make(&mut controller, gesture);
    assert_eq!(outcome, Err("device lost"));
    assert_eq!(controller.backend.sent, ["left:Down", "move:2,0", "left:Up"]);

    let mut controller = Controller::new(Failing { sent: Vec::new(), left: 0 });
    let gesture = controller.drag_relative(4, 0, 16_000_000, 2);
    let (_, outcome) = make(&mut controller, gesture);
    assert_eq!(outcome, Err("device lost"));
    assert_eq!(controller.backend.sent, ["left:Down"]);
}

#[test]
fn click_that_fails_to_press_does_not_release() {
    let mut controller = Controller::new(Failing { sent: Vec::new(), left: 0 });
    let gesture = controller.double_click(Button::Middle);
    let (pauses, outcome) = make(&mut controller, gesture);
    assert_eq!(outcome, Err("device lost"));
    assert!(pauses.is_empty());
    assert_eq!(controller.backend.sent, ["middle:Down"]);
}

#[test]
fn home_moves_to_absolute_origin() {
    let mut controller = Controller::new(FakeBackend::default());
    controller.home().unwrap();
    assert_eq!(controller.backend.0, ["absolute:0,0"]);
}

#[test]
fn single_requests_reach_the_device() {
    let mut controller = Controller::new(FakeBackend::default());
    controller.press(Button::Side).unwrap();
    controller.release(Button::Extra).unwrap();
    controller.move_relative(-3, 4).unwrap();
    controller.move_absolute(7, 65_535).unwrap();
    controller.wheel(-2).unwrap();
    controller.horizontal_wheel(5).unwrap();
    assert_eq!(
        controller.backend.0,
        [
            "side:Down",
            "extra:Up",
            "move:-3,4",
            "absolute:7,65535",
            "wheel:-2,false",
            "wheel:5,true"
        ]
    );
}

#[test]
fn playback_filter_excludes_requested_event_types() {
    let events = vec![
        MouseEvent::Button {
            button: Button::Left,
            state: ButtonState::Down,
            time: at(1.0),
        },
        MouseEvent::Move { dx: 2, dy: 3, time: at(1.0) },
        MouseEvent::Wheel { delta: 1, horizontal: false, time: at(1.0) },
    ];
    let mut controller = Controller::new(FakeBackend::default());
    let playback = controller.play(
        events,
        speed(0.0),
        PlaybackFilter { buttons: false, ..Default::default() },
    );
    let (delays, holds, outcome) = play_to_end(&mut controller, playback);
    outcome.unwrap();
    assert!(delays.is_empty() && holds.is_empty());
    assert_eq!(controller.backend.0, ["move:2,3", "wheel:1,false"]);
}

#[test]
fn playback_preserves_a_minimum_button_hold() {
    let events = vec![
        MouseEvent::Button {
            button: Button::Left,
            state: ButtonState::Down,
            time: at(1.0),
        },
        MouseEvent::Button {
            button: Button::Left,
            state: ButtonState::Up,
            time: at(1.0),
        },
    ];
    let mut controller = Controller::new(FakeBackend::default());
    let playback = controller.play(events, speed(0.0), PlaybackFilter::default());
    let (_, holds, outcome) = play_to_end(&mut controller, playback);
    outcome.unwrap();
    // The press is noted when the playback comes back, so the whole hold is left.
    assert_eq!(holds, [20_000_000]);
    assert_eq!(controller.backend.0, ["left:Down", "left:Up"]);
}

#[test]
fn playback_does_not_hold_a_button_that_was_held() {
    let events = vec![
        MouseEvent::Button {
            button: Button::Right,
            state: ButtonState::Down,
            time: at(1.0),
        },
        MouseEvent::Move { dx: 1, dy: 1, time: at(1.5) },
        MouseEvent::Button {
            button: Button::Right,
            state: ButtonState::Up,
            time: at(2.0),
        },
    ];
    let mut controller = Controller::new(FakeBackend::default());
    let mut playback = controller.play(events, speed(1.0), PlaybackFilter::default());
    let mut now: u128 = 0;
    let mut steps = Vec::new();
    loop {
        match controller.resume_playback(&mut playback, now) {
            PlaybackStep::Delay { from, to } => {
                let seconds = f64::from_bits(to.bits) - f64::from_bits(from.bits);
                now += (seconds * 1e9) as u128;
                steps.push("delay");
            }
            PlaybackStep::Hold { .. } => steps.push("hold"),
            PlaybackStep::Continue => steps.push("event"),
            PlaybackStep::Finished(outcome) => {
                outcome.unwrap();
                break;
            }
        }
    }
    assert_eq!(steps, ["event", "delay", "event", "delay", "event"]);
    assert_eq!(controller.backend.0, ["right:Down", "move:1,1", "right:Up"]);
}

#[test]
fn playback_ends_with_the_first_error() {
    let events = vec![
        MouseEvent::Move { dx: 1, dy: 0, time: at(1.0) },
        MouseEvent::Move { dx: 2, dy: 0, time: at(3.0) },
        MouseEvent::Move { dx: 3, dy: 0, time: at(4.0) },
    ];
    let mut controller = Controller::new(Failing { sent: Vec::new(), left: 1 });
    let playback = controller.play(events, speed(1.0), PlaybackFilter::default());
    let (delays, _, outcome) = play_to_end(&mut controller, playback);
    assert_eq!(outcome, Err("device lost"));
    assert_eq!(delays, [(1.0, 3.0)]);
    assert_eq!(controller.backend.sent, ["move:1,0", "move:2,0"]);
}

#[test]
fn speeds_are_told_apart_by_their_sign() {
    for (factor, positive, negative) in [
        (1.0, true, false),
        (0.0, false, false),
        (-0.0, false, false),
        (-0.5, false, true),
        (f64::INFINITY, true, false),
        (f64::NEG_INFINITY, false, true),
        (f64::NAN, false, false),
        (5e-324, true, false),
    ] {
        assert_eq!(speed(factor).is_positive(), positive, "{factor}");
        assert_eq!(speed(factor).is_negative(), negative, "{factor}");
    }
}

#[test]
fn times_are_ordered_as_numbers() {
    let times = [f64::NEG_INFINITY, -2.0, -0.0, 0.0, 1.0, 1.5, f64::INFINITY];
    for (i, left) in times.iter().enumerate() {
        for (j, right) in times.iter().enumerate() {
            assert_eq!(at(*left).not_after(at(*right)), i <= j);
            assert_eq!(
                at(*left).not_after(at(*right)),
                left.total_cmp(right).is_le()
            );
        }
    }
}

#[test]
fn button_aliases_parse() {
    assert_eq!("x".parse(), Ok(Button::Side));
    assert_eq!("x2".parse(), Ok(Button::Extra));
    assert!("primary".parse::<Button>().is_err());
}

#[test]
fn button_names_read_back() {
    for button in [
        Button::Left,
        Button::Right,
        Button::Middle,
        Button::Side,
        Button::Extra,
    ] {
        assert_eq!(button.name().parse(), Ok(button));
        assert_eq!(button.name().to_uppercase().parse(), Ok(button));
    }
    assert_eq!(
        "primary".parse::<Button>(),
        Err("unknown mouse button: primary".to_string())
    );
}

#[test]
fn events_tell_their_time() {
    let event = MouseEvent::Wheel { delta: -2, horizontal: false, time: at(1.25) };
    assert_eq!(f64::from_bits(event.timestamp().bits), 1.25);
}
