use computeruse::cursor::{
    CursorControl, CursorError, CursorFailure, CursorPhase, CursorStep,
};
use computeruse::trajectory::Prediction;
use computeruse::{move_cursor_to, CursorBackend, CursorMotion, Point};
use std::collections::VecDeque;
use std::convert::Infallible;

const MILLISECOND: u128 = 1_000_000;
const SECOND: u128 = 1_000 * MILLISECOND;

struct FakeCursor {
    position: Point,
    size: (u16, u16),
    response: f64,
    observations: VecDeque<Point>,
    moves: Vec<(Point, Point)>,
}

impl FakeCursor {
    fn new(position: Point, size: (u16, u16)) -> Self {
        Self {
            position,
            size,
            response: 1.0,
            observations: VecDeque::new(),
            moves: Vec::new(),
        }
    }
}

impl CursorBackend for FakeCursor {
    type Error = Infallible;

    fn dimensions(&mut self) -> Result<(u16, u16), Infallible> {
        Ok(self.size)
    }

    fn position(&mut self) -> Result<Point, Infallible> {
        if let Some(position) = self.observations.pop_front() {
            self.position = position;
        }
        Ok(self.position)
    }

    fn move_to(&mut self, target: Point) -> Result<(), Infallible> {
        self.moves.push((self.position, target));
        self.position = Point {
            x: self.position.x
                + (f64::from(target.x - self.position.x) * self.response).round() as i32,
            y: self.position.y
                + (f64::from(target.y - self.position.y) * self.response).round() as i32,
        };
        Ok(())
    }
}

/// Half of the way, less a part of what the cursor will move by itself, and at most 96
/// pixels.
fn steer(error: [i32; 2], prediction: Prediction) -> (i32, i32) {
    let shifts = [prediction.shift_x, prediction.shift_y];
    let mut step = [0.0; 2];
    for axis in 0..2 {
        let drift = if prediction.interval == 0 {
            0.0
        } else {
            shifts[axis] as f64 / (prediction.interval as f64 / 1e9)
                * (prediction.horizon as f64 / 1e9)
        };
        let error = f64::from(error[axis]);
        step[axis] = (0.5 * error - 0.15 * drift).clamp(error.min(0.0), error.max(0.0));
    }
    let scale = (96.0 / step[0].hypot(step[1])).min(1.0);
    ((step[0] * scale) as i32, (step[1] * scale) as i32)
}

fn simulate_with<B: CursorBackend>(
    cursor: &mut B,
    x: u16,
    y: u16,
    mut clock: impl FnMut(u64) -> u128,
) -> Result<CursorMotion, CursorError<B::Error>> {
    let mut control = move_cursor_to(cursor, x, y)?;
    let mut step = control.resume(cursor, clock(0));
    loop {
        step = match step {
            CursorStep::Clock => control.resume(cursor, clock(0)),
            CursorStep::Pause { nanoseconds } => {
                let now = clock(nanoseconds);
                control.resume(cursor, now)
            }
            CursorStep::Steer { error_x, error_y, prediction } => {
                let (dx, dy) = steer([error_x, error_y], prediction);
                assert!(control.admits(dx, dy));
                control.correct(cursor, dx, dy)
            }
            CursorStep::Finished(outcome) => return outcome,
        };
    }
}

fn simulate(
    cursor: &mut FakeCursor,
    x: u16,
    y: u16,
) -> Result<CursorMotion, CursorError<Infallible>> {
    let mut now = 0;
    simulate_with(cursor, x, y, |delay| {
        now += u128::from(delay);
        now
    })
}

fn message(error: CursorError<Infallible>) -> String {
    match error {
        CursorError::Failed(failure) => failure.message(),
        CursorError::Backend(never) => match never {},
    }
}

fn at_rest(report: &CursorMotion) -> bool {
    report.estimate.shift_x == 0 && report.estimate.shift_y == 0
}

#[test]
fn proportional_steps_are_bounded_and_shrink_near_the_target() {
    let mut cursor = FakeCursor::new(Point { x: 0, y: 0 }, (1920, 1080));
    let report = simulate(&mut cursor, 32_768, 32_768).unwrap();

    assert_eq!(report.target, Point { x: 960, y: 540 });
    assert!(report.residual_squared <= 4);
    assert_eq!(report.estimate.position, cursor.position);
    assert!(at_rest(&report));
    assert!(report.peak.interval > 0);
    assert!(report.peak.shift_x > 0 || report.peak.shift_y > 0);
    assert_eq!(report.corrections, cursor.moves.len() as u64);
    let lengths: Vec<_> = cursor
        .moves
        .iter()
        .map(|(from, to)| f64::from(to.x - from.x).hypot(f64::from(to.y - from.y)))
        .collect();
    assert!(lengths.len() > 2);
    assert!(lengths.iter().all(|length| *length <= 96.0));
    assert!(lengths.last().unwrap() < lengths.first().unwrap());
}

#[test]
fn normalized_targets_use_pixel_bounds_even_on_large_desktops() {
    for (size, input, target) in [
        ((1920, 1080), (0, 0), Point { x: 0, y: 0 }),
        ((1920, 1080), (65_535, 65_535), Point { x: 1919, y: 1079 }),
        ((3840, 2160), (32_768, 32_768), Point { x: 1920, y: 1080 }),
        ((11520, 2160), (65_535, 65_535), Point { x: 11519, y: 2159 }),
        ((1, 1), (65_535, 65_535), Point { x: 0, y: 0 }),
    ] {
        let mut cursor = FakeCursor::new(Point { x: 0, y: 0 }, size);
        let report = simulate(&mut cursor, input.0, input.1).unwrap();
        assert_eq!(report.target, target);
        assert!(report.residual_squared <= 4);
    }
}

#[test]
fn controller_corrects_observed_undertravel_instead_of_trusting_commands() {
    let mut cursor = FakeCursor::new(Point { x: 50, y: 50 }, (1920, 1080));
    cursor.response = 0.5;
    let report = simulate(&mut cursor, 32_768, 32_768).unwrap();
    assert!(report.residual_squared <= 4);
    assert_eq!(report.estimate.position, cursor.position);
    assert!(report.corrections > 15);
}

#[test]
fn delayed_and_overshooting_observations_require_consecutive_arrival_checks() {
    let mut cursor = FakeCursor::new(Point { x: 0, y: 0 }, (201, 1));
    cursor.observations = [
        Point { x: 0, y: 0 },
        Point { x: 0, y: 0 },
        Point { x: 110, y: 0 },
        Point { x: 100, y: 0 },
        Point { x: 105, y: 0 },
        Point { x: 100, y: 0 },
        Point { x: 100, y: 0 },
    ]
    .into();
    let report = simulate(&mut cursor, 32_768, 0).unwrap();

    assert!(cursor.observations.is_empty());
    assert_eq!(report.elapsed, 96 * MILLISECOND);
    assert_eq!(report.residual_squared, 0);
    assert!(
        cursor
            .moves
            .iter()
            .any(|(from, to)| from.x == 110 && to.x < from.x)
    );
    assert!(
        cursor
            .moves
            .iter()
            .any(|(from, to)| from.x == 105 && to.x < from.x)
    );
}

#[test]
fn already_arrived_cursor_is_observed_without_emitting_movement() {
    let mut cursor = FakeCursor::new(Point { x: 960, y: 540 }, (1920, 1080));
    let report = simulate(&mut cursor, 32_768, 32_768).unwrap();
    assert!(cursor.moves.is_empty());
    assert_eq!(report.elapsed, 16 * MILLISECOND);
}

#[test]
fn stuck_cursor_exhausts_a_bounded_budget_without_claiming_arrival() {
    let mut cursor = FakeCursor::new(Point { x: 0, y: 0 }, (1920, 1080));
    cursor.response = 0.0;
    let error = simulate(&mut cursor, 32_768, 32_768).unwrap_err();
    assert!(message(error).contains("did not settle"));
    assert!(!cursor.moves.is_empty());
    assert!(cursor.moves.len() < 150);
}

#[test]
fn slow_feedback_can_settle_while_making_progress() {
    let mut cursor = FakeCursor::new(Point { x: 300, y: 300 }, (1920, 1080));
    let mut now = 0;
    let report = simulate_with(&mut cursor, 8_504, 790, |delay| {
        if delay != 0 {
            now += 500 * MILLISECOND;
        }
        now
    })
    .unwrap();

    assert_eq!(report.target, Point { x: 249, y: 13 });
    assert!(report.elapsed > 2_064 * MILLISECOND);
    assert!(report.residual_squared <= 4);
    assert!(at_rest(&report));
}

#[test]
fn delayed_confirmation_accepts_observed_arrival() {
    let mut cursor = FakeCursor::new(Point { x: 960, y: 540 }, (1920, 1080));
    let mut now = 0;
    let report = simulate_with(&mut cursor, 32_768, 32_768, |delay| {
        if delay != 0 {
            now += 3 * SECOND;
        }
        now
    })
    .unwrap();

    assert!(cursor.moves.is_empty());
    assert_eq!(report.elapsed, 3_000 * MILLISECOND);
    assert_eq!(report.residual_squared, 0);
}

#[test]
fn progress_followed_by_a_stall_still_times_out() {
    let mut cursor = FakeCursor::new(Point { x: 300, y: 300 }, (1920, 1080));
    cursor.observations = [Point { x: 300, y: 300 }, Point { x: 255, y: 36 }].into();
    cursor.response = 0.0;
    let error = message(simulate(&mut cursor, 8_504, 790).unwrap_err());

    assert!(error.contains("did not settle"));
    assert!(error.contains("observed (255, 36), residual 23.77 pixels"));
    assert!(cursor.moves.len() < 150);
}

#[test]
fn continuous_small_progress_has_a_hard_timeout() {
    let mut cursor = FakeCursor::new(Point { x: 0, y: 0 }, (1920, 1080));
    cursor.observations = (0..100).map(|x| Point { x, y: 0 }).collect();
    let mut now = 0;
    let error = simulate_with(&mut cursor, 65_535, 0, |delay| {
        if delay != 0 {
            now += 500 * MILLISECOND;
        }
        now
    })
    .unwrap_err();

    assert!(message(error).contains("did not settle"));
    assert!(now >= 10 * SECOND);
    assert!(now < 11 * SECOND);
    assert!(!cursor.observations.is_empty());
}

#[test]
fn invalid_cursor_geometry_or_observation_fails_before_movement() {
    for (position, size) in [
        (Point { x: 0, y: 0 }, (0, 1080)),
        (Point { x: 0, y: 0 }, (1920, 0)),
        (Point { x: -1, y: 0 }, (1920, 1080)),
        (Point { x: 1920, y: 0 }, (1920, 1080)),
    ] {
        let mut cursor = FakeCursor::new(position, size);
        assert!(simulate(&mut cursor, 32_768, 32_768).is_err());
        assert!(cursor.moves.is_empty());
    }
}

#[test]
fn failures_say_what_happened() {
    let mut cursor = FakeCursor::new(Point { x: 0, y: 0 }, (0, 1));
    let error = message(simulate(&mut cursor, 0, 0).unwrap_err());
    assert_eq!(error, "cursor desktop dimensions must be nonzero");

    let mut cursor = FakeCursor::new(Point { x: -1, y: 7 }, (1920, 1080));
    let error = message(simulate(&mut cursor, 0, 0).unwrap_err());
    assert_eq!(error, "observed cursor (-1, 7) is outside the 1920x1080 desktop");

    let mut cursor = FakeCursor::new(Point { x: 0, y: 0 }, (1920, 1080));
    let error = simulate_with(&mut cursor, 65_535, 0, |_| 5).unwrap_err();
    assert!(matches!(error, CursorError::Failed(CursorFailure::Order)));
    assert_eq!(
        message(error),
        "cursor observation timestamps must strictly increase"
    );

    let mut cursor = FakeCursor::new(Point { x: 0, y: 0 }, (193, 1));
    cursor.response = 0.0;
    let error = message(simulate(&mut cursor, 65_535, 0).unwrap_err());
    assert_eq!(
        error,
        "cursor did not settle at (192, 0) after 2000 ms and 125 corrections: \
         observed (0, 0), residual 192.00 pixels; no progress for 2000 ms \
         (stall limit 2000 ms, total limit 10032 ms); remaining actions were not executed"
    );
}

#[test]
fn budget_counts_whole_steps() {
    for (size, budget) in [
        (1, 10_000_000_000),
        (2, 10_016_000_000),
        (97, 10_016_000_000),
        (98, 10_032_000_000),
        (65_535, 10_000_000_000 + 683 * 16_000_000),
    ] {
        let mut cursor = FakeCursor::new(Point { x: 0, y: 0 }, (size, 1));
        let mut control = move_cursor_to(&mut cursor, 65_535, 0).unwrap();
        control.resume(&mut cursor, 1_000);
        assert_eq!(control.budget, budget, "{size}");
    }
}

struct Failing {
    reads: usize,
}

impl CursorBackend for Failing {
    type Error = &'static str;

    fn dimensions(&mut self) -> Result<(u16, u16), Self::Error> {
        Ok((100, 100))
    }

    fn position(&mut self) -> Result<Point, Self::Error> {
        self.reads += 1;
        if self.reads > 1 {
            return Err("feedback lost");
        }
        Ok(Point { x: 0, y: 0 })
    }

    fn move_to(&mut self, _: Point) -> Result<(), Self::Error> {
        Err("pointer grabbed")
    }
}

#[test]
fn errors_of_the_desktop_end_the_movement() {
    let mut cursor = Failing { reads: 0 };
    let mut now = 0;
    let error = simulate_with(&mut cursor, 0, 0, |delay| {
        now += u128::from(delay);
        now
    })
    .unwrap_err();
    assert!(matches!(error, CursorError::Backend("feedback lost")));

    let mut cursor = Failing { reads: 0 };
    let error = simulate_with(&mut cursor, 65_535, 0, |_| 0).unwrap_err();
    assert!(matches!(error, CursorError::Backend("pointer grabbed")));
}

#[test]
fn corrections_lead_towards_the_target() {
    let mut cursor = FakeCursor::new(Point { x: 10, y: 90 }, (101, 101));
    let mut control: CursorControl = move_cursor_to(&mut cursor, 65_535, 0).unwrap();
    assert!(matches!(
        control.resume(&mut cursor, 0),
        CursorStep::Steer { error_x: 90, error_y: -90, .. }
    ));
    assert!(control.admits(0, 0));
    assert!(control.admits(60, -70));
    assert!(!control.admits(-1, 0));
    assert!(!control.admits(0, 1));
    assert!(!control.admits(91, 0));
    assert!(!control.admits(90, -90));
    assert!(matches!(
        control.correct(&mut cursor, 0, 0),
        CursorStep::Pause { nanoseconds: 16_000_000 }
    ));
    assert_eq!(control.corrections, 0);
    assert!(matches!(control.phase, CursorPhase::Polling));
    assert!(cursor.moves.is_empty());
}

#[test]
fn peak_speed_is_the_fastest_observation() {
    let mut cursor = FakeCursor::new(Point { x: 0, y: 0 }, (1001, 1));
    cursor.observations = [0, 10, 90, 100, 1000, 1000]
        .into_iter()
        .map(|x| Point { x, y: 0 })
        .collect();
    let mut now = 0;
    let mut pauses = 0;
    let report = simulate_with(&mut cursor, 65_535, 0, |delay| {
        if delay != 0 {
            pauses += 1;
            // The long way is observed after a gap, so that it tells no speed.
            now += if pauses == 4 { 400 * MILLISECOND } else { 20 * MILLISECOND };
        }
        now
    })
    .unwrap();
    assert_eq!((report.peak.shift_x, report.peak.interval), (80, 20_000_000));
}
