use computeruse::trajectory::Prediction;
use computeruse::{
    CursorEstimate, MouseEvent, MouseTrajectory, Point, Segment, Timestamp, TrajectoryError, Turn,
};

const MILLISECOND: u128 = 1_000_000;
const SECOND: u128 = 1_000 * MILLISECOND;

/// The velocity in pixels a second.
fn velocity(estimate: &CursorEstimate) -> [f64; 2] {
    if estimate.interval == 0 {
        return [0.0, 0.0];
    }
    let seconds = estimate.interval as f64 / 1e9;
    [estimate.shift_x as f64 / seconds, estimate.shift_y as f64 / seconds]
}

/// The place that is predicted.
fn place(prediction: Prediction) -> [f64; 2] {
    let position = [f64::from(prediction.position.x), f64::from(prediction.position.y)];
    if prediction.interval == 0 {
        return position;
    }
    let share = prediction.horizon as f64 / prediction.interval as f64;
    [
        position[0] + prediction.shift_x as f64 * share,
        position[1] + prediction.shift_y as f64 * share,
    ]
}

fn at(seconds: f64) -> Timestamp {
    Timestamp { bits: seconds.to_bits() }
}

#[test]
fn cursor_estimate_uses_irregular_observation_intervals() {
    let mut estimate = CursorEstimate::new(Point { x: 10, y: 20 }, 42 * SECOND);
    assert_eq!(velocity(&estimate), [0.0, 0.0]);
    assert_eq!(place(estimate.predict(100 * MILLISECOND)), [10.0, 20.0]);

    estimate
        .observe(Point { x: 18, y: 16 }, 42_125 * MILLISECOND)
        .unwrap();
    assert_eq!(velocity(&estimate), [64.0, -32.0]);

    estimate
        .observe(Point { x: 26, y: 12 }, 42_375 * MILLISECOND)
        .unwrap();
    assert_eq!(estimate.position, Point { x: 26, y: 12 });
    assert_eq!(velocity(&estimate), [32.0, -16.0]);
}

#[test]
fn cursor_estimate_stops_on_stationary_observation() {
    let mut estimate = CursorEstimate::new(Point { x: 0, y: 0 }, 0);
    estimate
        .observe(Point { x: 8, y: -4 }, 125 * MILLISECOND)
        .unwrap();
    assert_eq!(velocity(&estimate), [64.0, -32.0]);

    estimate
        .observe(Point { x: 8, y: -4 }, 250 * MILLISECOND)
        .unwrap();
    assert_eq!(velocity(&estimate), [0.0, 0.0]);
    assert_eq!(place(estimate.predict(100 * MILLISECOND)), [8.0, -4.0]);
}

#[test]
fn cursor_estimate_caps_prediction_horizon() {
    let mut estimate = CursorEstimate::new(Point { x: 0, y: 0 }, 0);
    estimate
        .observe(Point { x: 25, y: -50 }, 125 * MILLISECOND)
        .unwrap();

    assert_eq!(place(estimate.predict(0)), [25.0, -50.0]);
    assert_eq!(place(estimate.predict(50 * MILLISECOND)), [35.0, -70.0]);
    assert_eq!(place(estimate.predict(100 * MILLISECOND)), [45.0, -90.0]);
    assert_eq!(place(estimate.predict(u128::MAX)), [45.0, -90.0]);
}

#[test]
fn cursor_estimate_resets_after_stale_observation_gap() {
    let mut estimate = CursorEstimate::new(Point { x: 0, y: 0 }, 0);
    estimate
        .observe(Point { x: 1, y: 2 }, 250 * MILLISECOND)
        .unwrap();
    assert_eq!(velocity(&estimate), [4.0, 8.0]);

    estimate
        .observe(Point { x: 100, y: -100 }, 501 * MILLISECOND)
        .unwrap();
    assert_eq!(velocity(&estimate), [0.0, 0.0]);
    assert_eq!(place(estimate.predict(100 * MILLISECOND)), [100.0, -100.0]);

    estimate
        .observe(Point { x: 101, y: -98 }, 751 * MILLISECOND)
        .unwrap();
    assert_eq!(velocity(&estimate), [4.0, 8.0]);
}

#[test]
fn cursor_estimate_rejects_invalid_timestamps_without_mutation() {
    let mut estimate = CursorEstimate::new(Point { x: 0, y: 0 }, SECOND);
    estimate
        .observe(Point { x: 8, y: -4 }, 1_125 * MILLISECOND)
        .unwrap();
    let previous = estimate;

    for observed_at in [1_125 * MILLISECOND, SECOND] {
        let error = estimate
            .observe(Point { x: 100, y: 200 }, observed_at)
            .unwrap_err();
        assert_eq!(
            error.message(),
            "cursor observation timestamps must strictly increase"
        );
        assert_eq!(estimate.position, previous.position);
        assert_eq!(velocity(&estimate), velocity(&previous));
        assert_eq!(estimate.observed_at, previous.observed_at);
    }
}

#[test]
fn cursor_estimate_handles_extreme_coordinates_without_overflow() {
    let mut estimate = CursorEstimate::new(
        Point {
            x: i32::MIN,
            y: i32::MAX,
        },
        0,
    );
    estimate
        .observe(
            Point {
                x: i32::MAX,
                y: i32::MIN,
            },
            250 * MILLISECOND,
        )
        .unwrap();
    assert_eq!(velocity(&estimate), [17_179_869_180.0, -17_179_869_180.0]);
}

#[test]
fn trajectory_preserves_edges_and_classifies_turns() {
    let events = [
        MouseEvent::Move { dx: 10, dy: 0, time: at(1.0) },
        MouseEvent::Move { dx: 0, dy: 5, time: at(2.0) },
        MouseEvent::Move { dx: -2, dy: 0, time: at(3.0) },
    ];
    let trajectory = MouseTrajectory::from_events(Point { x: 960, y: 540 }, &events).unwrap();

    assert_eq!(
        trajectory.vertices(),
        [
            Point { x: 960, y: 540 },
            Point { x: 970, y: 540 },
            Point { x: 970, y: 545 },
            Point { x: 968, y: 545 },
        ]
    );
    assert_eq!(
        trajectory.turns(),
        [Turn::CounterClockwise, Turn::CounterClockwise]
    );
}

#[test]
fn trajectory_rejects_coordinate_overflow() {
    let event = MouseEvent::Move { dx: 1, dy: 0, time: at(0.0) };
    assert!(MouseTrajectory::from_events(Point { x: i32::MAX, y: 0 }, &[event]).is_err());
}

#[test]
fn trajectory_tells_its_segments_and_other_turns() {
    let events = [
        MouseEvent::Move { dx: 1, dy: 0, time: at(0.0) },
        MouseEvent::Wheel { delta: 3, horizontal: true, time: at(0.0) },
        MouseEvent::Move { dx: 2, dy: 0, time: at(0.0) },
        MouseEvent::Move { dx: 0, dy: -1, time: at(0.0) },
    ];
    let trajectory = MouseTrajectory::from_events(Point { x: 0, y: 0 }, &events).unwrap();
    assert_eq!(
        trajectory.segments(),
        [
            Segment { start: Point { x: 0, y: 0 }, end: Point { x: 1, y: 0 } },
            Segment { start: Point { x: 1, y: 0 }, end: Point { x: 3, y: 0 } },
            Segment { start: Point { x: 3, y: 0 }, end: Point { x: 3, y: -1 } },
        ]
    );
    assert_eq!(trajectory.turns(), [Turn::Collinear, Turn::Clockwise]);
    assert_eq!(
        TrajectoryError.message(),
        "mouse trajectory exceeds the supported coordinate range"
    );
}

#[test]
fn path_without_movement_is_its_origin() {
    let trajectory = MouseTrajectory::from_events(Point { x: 7, y: 8 }, &[]).unwrap();
    assert_eq!(trajectory.vertices(), [Point { x: 7, y: 8 }]);
    assert!(trajectory.segments().is_empty());
    assert!(trajectory.turns().is_empty());
}
