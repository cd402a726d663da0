//! Paths of the mouse and short-term estimates of where the cursor goes.

use crate::event::MouseEvent;
use vstd::prelude::*;

verus! {

/// A point in pixels or in device units.
#[derive(Clone, Copy, Debug, Eq, PartialEq, Structural)]
pub struct Point {
    pub x: i32,
    pub y: i32,
}

/// A gap between observations above which nothing is said of the velocity, in
/// nanoseconds.
pub const STALE_GAP: u64 = 250_000_000;

/// The furthest that an estimate is carried forward, in nanoseconds.
pub const MAX_HORIZON: u64 = 100_000_000;

/// An observation that is not later than the one before it.
#[derive(Clone, Copy, Debug, Eq, PartialEq, Structural)]
pub struct ObservationOrder;

impl ObservationOrder {
    /// What is said of such an observation.
    pub fn message(self) -> (message: &'static str)
        ensures
            message@ == "cursor observation timestamps must strictly increase"@,
    {
        "cursor observation timestamps must strictly increase"
    }
}

/// A short-term estimate of where the cursor is and how it moves, in observed
/// pixels. The velocity is a displacement over an interval.
#[derive(Clone, Copy, Debug, Eq, PartialEq, Structural)]
pub struct CursorEstimate {
    /// Where the cursor was last observed.
    pub position: Point,
    /// How far it had moved to the right since the observation before.
    pub shift_x: i64,
    /// How far it had moved down since the observation before.
    pub shift_y: i64,
    /// How many nanoseconds that took; zero where the cursor counts as at rest.
    pub interval: u64,
    /// When it was last observed, in nanoseconds from a fixed time.
    pub observed_at: u128,
}

/// Where the cursor will be after `horizon` nanoseconds: as far from `position`
/// as it moves in that time when it moves by the shift in each `interval`. An
/// interval of zero stands for a cursor at rest.
#[derive(Clone, Copy, Debug, Eq, PartialEq, Structural)]
pub struct Prediction {
    pub position: Point,
    pub shift_x: i64,
    pub shift_y: i64,
    pub interval: u64,
    pub horizon: u64,
}

impl CursorEstimate {
    /// Whether the estimate says that the cursor is at rest.
    pub open spec fn at_rest(self) -> bool {
        self.shift_x == 0 && self.shift_y == 0 && self.interval == 0
    }

    /// Starts at an observed position, at rest.
    pub fn new(position: Point, observed_at: u128) -> (estimate: CursorEstimate)
        ensures
            estimate.position == position,
            estimate.at_rest(),
            estimate.observed_at == observed_at,
    {
        CursorEstimate { position, shift_x: 0, shift_y: 0, interval: 0, observed_at }
    }

    /// Takes in an observation. One that is not later than the last is an error
    /// and changes nothing. After a long gap the cursor counts as at rest.
    pub fn observe(&mut self, position: Point, observed_at: u128) -> (outcome: Result<
        (),
        ObservationOrder,
    >)
        ensures
            outcome is Ok <==> observed_at > old(self).observed_at,
            outcome is Err ==> *final(self) == *old(self),
            outcome is Ok ==> {
                &&& final(self).position == position
                &&& final(self).observed_at == observed_at
                &&& if observed_at - old(self).observed_at > STALE_GAP {
                    final(self).at_rest()
                } else {
                    &&& final(self).shift_x == position.x - old(self).position.x
                    &&& final(self).shift_y == position.y - old(self).position.y
                    &&& final(self).interval == observed_at - old(self).observed_at
                }
            },
    {
        if observed_at <= self.observed_at {
            return Err(ObservationOrder);
        }
        let elapsed: u128 = observed_at - self.observed_at;
        if elapsed > STALE_GAP as u128 {
            *self = CursorEstimate::new(position, observed_at);
        } else {
            *self = CursorEstimate {
                position,
                shift_x: position.x as i64 - self.position.x as i64,
                shift_y: position.y as i64 - self.position.y as i64,
                interval: elapsed as u64,
                observed_at,
            };
        }
        Ok(())
    }

    /// Carries the estimate forward at constant velocity, for a time of at most
    /// 100 milliseconds.
    pub fn predict(&self, horizon: u128) -> (prediction: Prediction)
        ensures
            prediction == (Prediction {
                position: self.position,
                shift_x: self.shift_x,
                shift_y: self.shift_y,
                interval: self.interval,
                horizon: if horizon < MAX_HORIZON {
                    horizon as u64
                } else {
                    MAX_HORIZON
                },
            }),
            prediction.horizon <= 100_000_000,
            horizon <= 100_000_000 ==> prediction.horizon == horizon,
            horizon > 100_000_000 ==> prediction.horizon == 100_000_000,
    {
        Prediction {
            position: self.position,
            shift_x: self.shift_x,
            shift_y: self.shift_y,
            interval: self.interval,
            horizon: if horizon < MAX_HORIZON as u128 {
                horizon as u64
            } else {
                MAX_HORIZON
            },
        }
    }
}

/// A straight piece of a path.
#[derive(Clone, Copy, Debug, Eq, PartialEq, Structural)]
pub struct Segment {
    pub start: Point,
    pub end: Point,
}

/// How a path turns.
#[derive(Clone, Copy, Debug, Eq, PartialEq, Structural)]
pub enum Turn {
    Clockwise,
    Collinear,
    CounterClockwise,
}

/// The path of the mouse in a recording.
#[derive(Clone, Debug, Eq, PartialEq)]
pub struct MouseTrajectory {
    vertices: Vec<Point>,
}

/// A path that leaves the range of coordinates.
#[derive(Clone, Copy, Debug, Eq, PartialEq, Structural)]
pub struct TrajectoryError;

impl TrajectoryError {
    /// What is said of such a path.
    pub fn message(self) -> (message: &'static str)
        ensures
            message@ == "mouse trajectory exceeds the supported coordinate range"@,
    {
        "mouse trajectory exceeds the supported coordinate range"
    }
}

/// Whether a number is a coordinate.
pub open spec fn in_range(value: int) -> bool {
    i32::MIN <= value <= i32::MAX
}

/// The points of the path that starts at `origin` and takes each movement in
/// turn, where none of them leaves the range of coordinates.
pub open spec fn path(origin: Point, events: Seq<MouseEvent>) -> Option<Seq<Point>>
    decreases events.len(),
{
    if events.len() == 0 {
        Some(seq![origin])
    } else {
        let before = path(origin, events.drop_last());
        match (before, events.last()) {
            (Some(points), MouseEvent::Move { dx, dy, .. }) => {
                let from = points.last();
                if in_range(from.x + dx) && in_range(from.y + dy) {
                    Some(points.push(Point { x: (from.x + dx) as i32, y: (from.y + dy) as i32 }))
                } else {
                    None
                }
            },
            _ => before,
        }
    }
}

/// The movements of a recording, in order.
pub open spec fn moves(events: Seq<MouseEvent>) -> Seq<(int, int)>
    decreases events.len(),
{
    if events.len() == 0 {
        Seq::empty()
    } else {
        match events.last() {
            MouseEvent::Move { dx, dy, .. } => moves(events.drop_last()).push(
                (dx as int, dy as int),
            ),
            _ => moves(events.drop_last()),
        }
    }
}

/// Twice the signed area of the triangle that two steps span.
pub open spec fn cross(a: Point, b: Point, c: Point) -> int {
    (b.x - a.x) * (c.y - b.y) - (b.y - a.y) * (c.x - b.x)
}

/// How a path turns at the second of three points.
pub open spec fn turn(a: Point, b: Point, c: Point) -> Turn {
    if cross(a, b, c) < 0 {
        Turn::Clockwise
    } else if cross(a, b, c) == 0 {
        Turn::Collinear
    } else {
        Turn::CounterClockwise
    }
}

/// Where a path has left the range of coordinates, more events do not bring it
/// back.
proof fn lemma_no_path_stays(origin: Point, events: Seq<MouseEvent>, size: int)
    requires
        0 <= size <= events.len(),
        path(origin, events.take(size)) is None,
    ensures
        path(origin, events) is None,
    decreases events.len() - size,
{
    if size < events.len() {
        assert(events.take(size + 1).drop_last() == events.take(size));
        lemma_no_path_stays(origin, events, size + 1);
    } else {
        assert(events.take(size) == events);
    }
}

impl MouseTrajectory {
    /// The points of the path.
    pub closed spec fn points(&self) -> Seq<Point> {
        self.vertices@
    }

    /// Builds the path of the movements in a recording.
    pub fn from_events(origin: Point, events: &[MouseEvent]) -> (trajectory: Result<
        MouseTrajectory,
        TrajectoryError,
    >)
        ensures
            match trajectory {
                Ok(found) => path(origin, events@) == Some(found.points()),
                Err(_) => path(origin, events@) is None,
            },
    {
        let mut vertices: Vec<Point> = Vec::new();
        vertices.push(origin);
        let mut position: Point = origin;
        let mut index: usize = 0;
        assert(vertices@ == seq![origin]);
        while index < events.len()
            invariant
                index <= events.len(),
                path(origin, events@.take(index as int)) == Some(vertices@),
                vertices@.len() >= 1,
                position == vertices@.last(),
            decreases events.len() - index,
        {
            assert(events@.take(index + 1).drop_last() == events@.take(index as int));
            if let MouseEvent::Move { dx, dy, .. } = events[index] {
                match (position.x.checked_add(dx), position.y.checked_add(dy)) {
                    (Some(x), Some(y)) => {
                        position = Point { x, y };
                        vertices.push(position);
                    },
                    _ => {
                        proof {
                            lemma_no_path_stays(origin, events@, index + 1);
                        }
                        return Err(TrajectoryError);
                    },
                }
            }
            index += 1;
        }
        assert(events@.take(index as int) == events@);
        Ok(MouseTrajectory { vertices })
    }

    /// The points of the path.
    pub fn vertices(&self) -> (points: &[Point])
        ensures
            points@ == self.points(),
    {
        &self.vertices
    }

    /// The straight pieces of the path.
    pub fn segments(&self) -> (segments: Vec<Segment>)
        ensures
            segments@.len() == if self.points().len() == 0 {
                0
            } else {
                self.points().len() - 1
            },
            forall|index: int|
                0 <= index < segments@.len() ==> #[trigger] segments@[index] == (Segment {
                    start: self.points()[index],
                    end: self.points()[index + 1],
                }),
    {
        let mut segments: Vec<Segment> = Vec::new();
        let mut index: usize = 1;
        while index < self.vertices.len()
            invariant
                1 <= index,
                index <= self.vertices@.len() || (index == 1 && self.vertices@.len() == 0),
                segments@.len() == index - 1,
                forall|at: int|
                    0 <= at < segments@.len() ==> #[trigger] segments@[at] == (Segment {
                        start: self.vertices@[at],
                        end: self.vertices@[at + 1],
                    }),
            decreases self.vertices.len() - index,
        {
            segments.push(
                Segment { start: self.vertices[index - 1], end: self.vertices[index] },
            );
            index += 1;
        }
        segments
    }

    /// How the path turns at each point but the first and the last.
    pub fn turns(&self) -> (turns: Vec<Turn>)
        ensures
            turns@.len() == if self.points().len() < 2 {
                0
            } else {
                self.points().len() - 2
            },
            forall|index: int|
                0 <= index < turns@.len() ==> #[trigger] turns@[index] == turn(
                    self.points()[index],
                    self.points()[index + 1],
                    self.points()[index + 2],
                ),
    {
        let mut turns: Vec<Turn> = Vec::new();
        let mut index: usize = 2;
        while index < self.vertices.len()
            invariant
                2 <= index,
                index <= self.vertices@.len() || (index == 2 && self.vertices@.len() < 2),
                turns@.len() == index - 2,
                forall|at: int|
                    0 <= at < turns@.len() ==> #[trigger] turns@[at] == turn(
                        self.vertices@[at],
                        self.vertices@[at + 1],
                        self.vertices@[at + 2],
                    ),
            decreases self.vertices.len() - index,
        {
            let a: Point = self.vertices[index - 2];
            let b: Point = self.vertices[index - 1];
            let c: Point = self.vertices[index];
            turns.push(turn_at(a, b, c));
            index += 1;
        }
        turns
    }
}

/// How a path turns at the second of three points.
fn turn_at(a: Point, b: Point, c: Point) -> (found: Turn)
    ensures
        found == turn(a, b, c),
{
    let ab_x: i128 = b.x as i128 - a.x as i128;
    let ab_y: i128 = b.y as i128 - a.y as i128;
    let bc_x: i128 = c.x as i128 - b.x as i128;
    let bc_y: i128 = c.y as i128 - b.y as i128;
    assert(-0x1_0000_0000_0000_0000 <= ab_x * bc_y <= 0x1_0000_0000_0000_0000) by (nonlinear_arith)
        requires
            -0x1_0000_0000 <= ab_x <= 0x1_0000_0000,
            -0x1_0000_0000 <= bc_y <= 0x1_0000_0000,
    ;
    assert(-0x1_0000_0000_0000_0000 <= ab_y * bc_x <= 0x1_0000_0000_0000_0000) by (nonlinear_arith)
        requires
            -0x1_0000_0000 <= ab_y <= 0x1_0000_0000,
            -0x1_0000_0000 <= bc_x <= 0x1_0000_0000,
    ;
    let area: i128 = ab_x * bc_y - ab_y * bc_x;
    if area < 0 {
        Turn::Clockwise
    } else if area == 0 {
        Turn::Collinear
    } else {
        Turn::CounterClockwise
    }
}

/// A path starts at its origin and goes on by each movement in turn, so that it
/// has one point more than there are movements.
pub proof fn law_path_follows_moves(origin: Point, events: Seq<MouseEvent>)
    ensures
        path(origin, events) matches Some(points) ==> {
            &&& points.len() == moves(events).len() + 1
            &&& points[0] == origin
            &&& forall|index: int|
                0 <= index < moves(events).len() ==> points[index + 1].x - points[index].x
                    == (#[trigger] moves(events)[index]).0 && points[index + 1].y - points[index].y
                    == moves(events)[index].1
        },
    decreases events.len(),
{
    if events.len() > 0 {
        law_path_follows_moves(origin, events.drop_last());
    }
}

/// The movements of two recordings in a row are those of the one and then of the other;
/// a movement is one, and nothing else is.
pub proof fn law_moves_follow_each_other(first: Seq<MouseEvent>, second: Seq<MouseEvent>)
    ensures
        moves(first + second) == moves(first) + moves(second),
        forall|event: MouseEvent|
            #[trigger] moves(seq![event]) == match event {
                MouseEvent::Move { dx, dy, .. } => seq![(dx as int, dy as int)],
                _ => Seq::empty(),
            },
    decreases second.len(),
{
    assert forall|event: MouseEvent|
        #[trigger] moves(seq![event]) == match event {
            MouseEvent::Move { dx, dy, .. } => seq![(dx as int, dy as int)],
            _ => Seq::empty(),
        } by {
        assert(seq![event].drop_last() =~= Seq::empty());
        assert(moves(seq![event].drop_last()) =~= Seq::empty());
        if let MouseEvent::Move { dx, dy, .. } = event {
            assert(Seq::<(int, int)>::empty().push((dx as int, dy as int)) =~= seq![
                (dx as int, dy as int),
            ]);
        }
    }
    if second.len() == 0 {
        assert(first + second =~= first);
        assert(moves(first) + Seq::<(int, int)>::empty() =~= moves(first));
    } else {
        law_moves_follow_each_other(first, second.drop_last());
        assert((first + second).drop_last() =~= first + second.drop_last());
        assert((first + second).last() == second.last());
        assert(moves(first + second) =~= moves(first) + moves(second));
    }
}

/// Where some movements lead from a point.
pub open spec fn reached(origin: Point, moves: Seq<(int, int)>) -> (int, int)
    decreases moves.len(),
{
    if moves.len() == 0 {
        (origin.x as int, origin.y as int)
    } else {
        let from = reached(origin, moves.drop_last());
        (from.0 + moves.last().0, from.1 + moves.last().1)
    }
}

/// There is a path exactly where each movement ends in the range of coordinates, and it
/// ends where all movements together lead.
pub proof fn law_path_stays_in_range(origin: Point, events: Seq<MouseEvent>)
    ensures
        path(origin, events) is Some <==> forall|size: int|
            0 <= size <= moves(events).len() ==> in_range(
                (#[trigger] reached(origin, moves(events).take(size))).0,
            ) && in_range(reached(origin, moves(events).take(size)).1),
        path(origin, events) matches Some(points) ==> points.last().x == reached(
            origin,
            moves(events),
        ).0 && points.last().y == reached(origin, moves(events)).1,
    decreases events.len(),
{
    let all = moves(events);
    assert(all.take(all.len() as int) =~= all);
    if events.len() == 0 {
        assert forall|size: int| 0 <= size <= all.len() implies in_range(
            (#[trigger] reached(origin, all.take(size))).0,
        ) && in_range(reached(origin, all.take(size)).1) by {}
    } else {
        law_path_stays_in_range(origin, events.drop_last());
        law_path_follows_moves(origin, events.drop_last());
        let before = moves(events.drop_last());
        if let MouseEvent::Move { dx, dy, .. } = events.last() {
            assert(all.drop_last() =~= before);
            assert forall|size: int| 0 <= size <= before.len() implies #[trigger] before.take(size)
                == all.take(size) by {
                assert(before.take(size) =~= all.take(size));
            }
            if path(origin, events) is Some {
                assert forall|size: int| 0 <= size <= all.len() implies in_range(
                    (#[trigger] reached(origin, all.take(size))).0,
                ) && in_range(reached(origin, all.take(size)).1) by {
                    if size <= before.len() {
                        assert(before.take(size) == all.take(size));
                        assert(in_range(reached(origin, before.take(size)).0));
                    }
                }
            }
            if forall|size: int|
                0 <= size <= all.len() ==> in_range(
                    (#[trigger] reached(origin, all.take(size))).0,
                ) && in_range(reached(origin, all.take(size)).1) {
                assert forall|size: int| 0 <= size <= before.len() implies in_range(
                    (#[trigger] reached(origin, before.take(size))).0,
                ) && in_range(reached(origin, before.take(size)).1) by {
                    assert(before.take(size) == all.take(size));
                    assert(in_range(reached(origin, all.take(size)).0));
                }
                assert(in_range(reached(origin, all.take(all.len() as int)).0));
            }
        }
    }
}

/// How a path turns is told by its two steps, wherever it lies: by which of the products of
/// the one across and the other down is larger. The same path the other way round turns
/// the other way.
pub proof fn law_turns_are_sides(a: Point, b: Point, c: Point)
    ensures
        ({
            let first = (b.x - a.x, b.y - a.y);
            let second = (c.x - b.x, c.y - b.y);
            &&& turn(a, b, c) is Clockwise <==> first.0 * second.1 < first.1 * second.0
            &&& turn(a, b, c) is CounterClockwise <==> first.0 * second.1 > first.1 * second.0
            &&& turn(a, b, c) is Collinear <==> first.0 * second.1 == first.1 * second.0
        }),
        turn(a, b, c) is Clockwise <==> turn(c, b, a) is CounterClockwise,
        turn(a, b, c) is Collinear <==> turn(c, b, a) is Collinear,
{
    let x = b.x - a.x;
    let y = b.y - a.y;
    let u = c.x - b.x;
    let v = c.y - b.y;
    assert((-u) * (-y) - (-v) * (-x) == -(x * v - y * u)) by (nonlinear_arith);
    assert(b.x - c.x == -u && b.y - c.y == -v && a.x - b.x == -x && a.y - b.y == -y);
}

} // verus!
