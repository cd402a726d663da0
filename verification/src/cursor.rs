//! Moving the cursor to a place and making sure that it got there.

use crate::number::{
    self, append_hundredths, append_number, append_signed, nearest_root, square_root,
};
use crate::text::{self, append, copy_text};
use crate::trajectory::{CursorEstimate, Point, Prediction};
use vstd::prelude::*;

verus! {

/// The time between two observations of the cursor, in nanoseconds.
pub const POLL_INTERVAL: u64 = 16_000_000;

/// How long the cursor may fail to come nearer, in nanoseconds.
pub const STALL_LIMIT: u64 = 2_000_000_000;

/// What a movement may take beyond its nominal travel time, in nanoseconds.
pub const EXTRA_TIME: u64 = 10_000_000_000;

/// How far from its target the cursor may rest, in pixels.
pub const TOLERANCE: i64 = 2;

/// How far one correction may move the cursor, in pixels.
pub const MAX_STEP: i64 = 96;

/// What a cursor was asked for, and what came of it.
#[derive(Debug)]
pub enum CursorCall<E> {
    Dimensions { dimensions: Result<(u16, u16), E> },
    Position { observed: Result<Point, E> },
    MoveTo { position: Point, outcome: Result<(), E> },
}

/// Observes and moves the cursor, both in pixels of the desktop. Unlike the counts
/// of relative input, these do not depend on acceleration.
pub trait CursorBackend: Sized {
    type Error;

    /// What the cursor was asked for so far, and what came of it.
    closed spec fn calls(&self) -> Seq<CursorCall<Self::Error>> {
        Seq::empty()
    }

    /// The width and the height of the desktop.
    fn dimensions(&mut self) -> (dimensions: Result<(u16, u16), Self::Error>)
        ensures
            final(self).calls() == old(self).calls().push(CursorCall::Dimensions { dimensions }),
    ;

    /// Where the cursor is.
    fn position(&mut self) -> (observed: Result<Point, Self::Error>)
        ensures
            final(self).calls() == old(self).calls().push(CursorCall::Position { observed }),
    ;

    /// Moves the cursor.
    fn move_to(&mut self, position: Point) -> (outcome: Result<(), Self::Error>)
        ensures
            final(self).calls() == old(self).calls().push(
                CursorCall::MoveTo { position, outcome },
            ),
    ;
}

/// A speed: how far the cursor moved on each axis in so many nanoseconds. An
/// interval of zero stands for a cursor at rest.
#[derive(Clone, Copy, Debug, Eq, PartialEq, Structural)]
pub struct PeakSpeed {
    pub shift_x: i64,
    pub shift_y: i64,
    pub interval: u64,
}

/// What was measured while the cursor moved to a target. Places are in pixels.
#[derive(Clone, Copy, Debug, Eq, PartialEq, Structural)]
pub struct CursorMotion {
    pub start: Point,
    pub target: Point,
    pub estimate: CursorEstimate,
    /// How often the cursor was moved.
    pub corrections: u64,
    /// How long it took, in nanoseconds.
    pub elapsed: u128,
    /// The square of the distance that is left.
    pub residual_squared: u64,
    /// The highest speed that was observed.
    pub peak: PeakSpeed,
}

/// Why the cursor is not known to be at its target.
#[derive(Clone, Copy, Debug, Eq, PartialEq, Structural)]
pub enum CursorFailure {
    /// The desktop has no pixels.
    NoDesktop,
    /// The cursor was observed outside the desktop.
    Outside { position: Point, width: u16, height: u16 },
    /// An observation is not later than the one before it.
    Order,
    /// The cursor took too long, or came no nearer for too long.
    Unsettled {
        target: Point,
        position: Point,
        /// How long it took, in nanoseconds.
        elapsed: u128,
        corrections: u64,
        /// The distance that is left, in hundredths of a pixel.
        residual: u64,
        /// How long it came no nearer, in nanoseconds.
        stalled: u128,
        /// How long it could have taken, in nanoseconds.
        budget: u64,
    },
}

/// A place in a message.
pub open spec fn place(point: Point) -> Seq<char> {
    "("@ + number::signed(point.x as int) + ", "@ + number::signed(point.y as int) + ")"@
}

/// A time in a message: whole milliseconds.
pub open spec fn milliseconds(nanoseconds: int) -> Seq<char> {
    number::decimal((nanoseconds / 1_000_000) as nat)
}

impl CursorFailure {
    /// What is said of the failure.
    pub open spec fn said(self) -> Seq<char> {
        match self {
            CursorFailure::NoDesktop => "cursor desktop dimensions must be nonzero"@,
            CursorFailure::Outside { position, width, height } => "observed cursor "@ + place(
                position,
            ) + " is outside the "@ + number::decimal(width as nat) + "x"@ + number::decimal(
                height as nat,
            ) + " desktop"@,
            CursorFailure::Order => "cursor observation timestamps must strictly increase"@,
            CursorFailure::Unsettled {
                target,
                position,
                elapsed,
                corrections,
                residual,
                stalled,
                budget,
            } => "cursor did not settle at "@ + place(target) + " after "@ + milliseconds(
                elapsed as int,
            ) + " ms and "@ + number::decimal(corrections as nat) + " corrections: observed "@
                + place(position) + ", residual "@ + number::hundredths(residual as nat)
                + " pixels; no progress for "@ + milliseconds(stalled as int)
                + " ms (stall limit 2000 ms, total limit "@ + milliseconds(budget as int)
                + " ms); remaining actions were not executed"@,
        }
    }

    /// What is said of the failure.
    pub fn message(self) -> (message: String)
        ensures
            message@ == self.said(),
    {
        match self {
            CursorFailure::NoDesktop => copy_text("cursor desktop dimensions must be nonzero"),
            CursorFailure::Outside { position, width, height } => {
                let m: String = append_place(copy_text("observed cursor "), position);
                let m: String = append_number(append(m, " is outside the "), width as u128);
                let m: String = append_number(append(m, "x"), height as u128);
                append(m, " desktop")
            },
            CursorFailure::Order => copy_text(
                "cursor observation timestamps must strictly increase",
            ),
            CursorFailure::Unsettled {
                target,
                position,
                elapsed,
                corrections,
                residual,
                stalled,
                budget,
            } => {
                let m: String = append_place(copy_text("cursor did not settle at "), target);
                let m: String = append_number(append(m, " after "), elapsed / 1_000_000);
                let m: String = append_number(append(m, " ms and "), corrections as u128);
                let m: String = append_place(append(m, " corrections: observed "), position);
                let m: String = append_hundredths(append(m, ", residual "), residual);
                let m: String = append_number(
                    append(m, " pixels; no progress for "),
                    stalled / 1_000_000,
                );
                let m: String = append_number(
                    append(m, " ms (stall limit 2000 ms, total limit "),
                    (budget / 1_000_000) as u128,
                );
                append(m, " ms); remaining actions were not executed")
            },
        }
    }
}

/// Writes a place behind a text.
fn append_place(text: String, point: Point) -> (longer: String)
    ensures
        longer@ == text@ + place(point),
{
    let m: String = append_signed(append(text, "("), point.x as i64);
    let m: String = append_signed(append(m, ", "), point.y as i64);
    let longer: String = append(m, ")");
    assert(longer@ =~= text@ + place(point));
    longer
}

/// Why a movement of the cursor ended early.
#[derive(Debug)]
pub enum CursorError<E> {
    /// The desktop reported an error.
    Backend(E),
    /// The cursor did not do what was asked for.
    Failed(CursorFailure),
}

/// What is to be done next in a movement of the cursor.
#[derive(Debug)]
pub enum CursorStep<E> {
    /// The time is to be read.
    Clock,
    /// So many nanoseconds are to pass.
    Pause { nanoseconds: u64 },
    /// A correction is to be chosen, for a cursor so far from its target that
    /// is expected at a place.
    Steer { error_x: i32, error_y: i32, prediction: Prediction },
    /// The movement is over.
    Finished(Result<CursorMotion, CursorError<E>>),
}

/// How far a movement has come.
#[derive(Clone, Copy, Debug, Eq, PartialEq, Structural)]
pub enum CursorPhase {
    /// It begins when the time is known.
    Starting,
    /// A correction is to be chosen.
    Steering,
    /// The cursor is to be observed.
    Polling,
    /// The cursor was observed; the time is to be read.
    Observed { position: Point },
    /// It is over.
    Over,
}

/// A movement of the cursor to a target.
#[derive(Clone, Copy, Debug, Eq, PartialEq, Structural)]
pub struct CursorControl {
    pub width: u16,
    pub height: u16,
    pub start: Point,
    pub target: Point,
    pub phase: CursorPhase,
    /// When it began, in nanoseconds.
    pub started: u128,
    /// How long it may take, in nanoseconds.
    pub budget: u64,
    /// When the cursor last came nearer.
    pub last_progress: u128,
    /// The square of the smallest distance that counts as progress so far.
    pub best: u64,
    pub estimate: CursorEstimate,
    /// Whether the cursor was at its target when it was judged last.
    pub settled: bool,
    pub corrections: u64,
    pub peak: PeakSpeed,
}

/// What an observation says of a movement.
#[derive(Clone, Copy, Debug, Eq, PartialEq, Structural)]
pub enum Verdict {
    /// The cursor is outside the desktop.
    Outside,
    /// The cursor was at its target twice in a row.
    Arrived,
    /// The cursor took too long, or came no nearer for too long.
    Overdue,
    /// The cursor is not at its target.
    Away,
    /// The cursor is at its target for the first time.
    Near,
}

/// The pixel for a normalized coordinate between 0 and 65535, to the nearest.
pub open spec fn pixel(coordinate: u16, size: u16) -> int {
    (coordinate * (size - 1) + 32_767) / 65_535
}

/// The square of the distance between two points.
pub open spec fn square_distance(left: Point, right: Point) -> int {
    (left.x - right.x) * (left.x - right.x) + (left.y - right.y) * (left.y - right.y)
}

/// Whether so many steps of 96 pixels are what a distance takes, and no fewer.
pub open spec fn covers(square: int, steps: int) -> bool {
    &&& 0 <= steps
    &&& square <= 9216 * (steps * steps)
    &&& steps > 0 ==> 9216 * ((steps - 1) * (steps - 1)) < square
}

/// How many steps of 96 pixels a distance takes.
pub open spec fn travel_steps(square: int) -> int {
    choose|steps: int| #[trigger] covers(square, steps)
}

/// Whether one distance is at least a pixel shorter than another, both given by
/// their squares.
pub open spec fn pixel_nearer(square: int, best: int) -> bool {
    best - square - 1 >= 0 && (best - square - 1) * (best - square - 1) >= 4 * square
}

/// The square of a distance on two axes.
pub open spec fn shift_square(x: i64, y: i64) -> int {
    x * x + y * y
}

/// Whether the cursor moves faster than before.
pub open spec fn outpaces(estimate: CursorEstimate, peak: PeakSpeed) -> bool {
    let now = shift_square(estimate.shift_x, estimate.shift_y);
    let before = shift_square(peak.shift_x, peak.shift_y);
    if estimate.interval == 0 {
        false
    } else if peak.interval == 0 {
        now > 0
    } else {
        now * (peak.interval * peak.interval) > before * (estimate.interval * estimate.interval)
    }
}

impl CursorControl {
    /// Whether a point is on the desktop.
    pub open spec fn inside(self, point: Point) -> bool {
        0 <= point.x < self.width && 0 <= point.y < self.height
    }

    /// The square of the distance that is left.
    pub open spec fn residual(self) -> int {
        square_distance(self.target, self.estimate.position)
    }

    /// Whether the cursor is at its target, give or take two pixels.
    pub open spec fn near(self) -> bool {
        self.residual() <= TOLERANCE * TOLERANCE
    }

    /// When the cursor last came nearer, the last observation included.
    pub open spec fn progress_at(self) -> u128 {
        if pixel_nearer(self.residual(), self.best as int) {
            self.estimate.observed_at
        } else {
            self.last_progress
        }
    }

    /// What the last observation says.
    pub open spec fn verdict(self) -> Verdict {
        if !self.inside(self.estimate.position) {
            Verdict::Outside
        } else if self.near() && self.settled {
            Verdict::Arrived
        } else if self.estimate.observed_at - self.started >= self.budget
            || self.estimate.observed_at - self.progress_at() >= STALL_LIMIT {
            Verdict::Overdue
        } else if self.near() {
            Verdict::Near
        } else {
            Verdict::Away
        }
    }

    /// The movement after the last observation was judged.
    pub open spec fn judged(self, phase: CursorPhase) -> CursorControl {
        CursorControl {
            phase,
            settled: self.near(),
            best: if pixel_nearer(self.residual(), self.best as int) {
                self.residual() as u64
            } else {
                self.best
            },
            last_progress: self.progress_at(),
            ..self
        }
    }

    /// The movement that begins at a time.
    pub open spec fn begun(self, now: u128) -> CursorControl {
        let square = square_distance(self.target, self.start);
        CursorControl {
            started: now,
            budget: (EXTRA_TIME + POLL_INTERVAL * travel_steps(square)) as u64,
            last_progress: now,
            best: square as u64,
            estimate: CursorEstimate {
                position: self.start,
                shift_x: 0,
                shift_y: 0,
                interval: 0,
                observed_at: now,
            },
            settled: false,
            corrections: 0,
            peak: PeakSpeed { shift_x: 0, shift_y: 0, interval: 0 },
            ..self
        }
    }

    /// Whether a movement is another after the cursor was observed at a place
    /// and a time.
    pub open spec fn sees(self, before: CursorControl, position: Point, now: u128) -> bool {
        let estimate = self.estimate;
        &&& self == (CursorControl {
            estimate,
            peak: if outpaces(estimate, before.peak) {
                PeakSpeed {
                    shift_x: estimate.shift_x,
                    shift_y: estimate.shift_y,
                    interval: estimate.interval,
                }
            } else {
                before.peak
            },
            ..before
        })
        &&& estimate.position == position
        &&& estimate.observed_at == now
        &&& if now - before.estimate.observed_at > crate::trajectory::STALE_GAP {
            estimate.at_rest()
        } else {
            &&& estimate.shift_x == position.x - before.estimate.position.x
            &&& estimate.shift_y == position.y - before.estimate.position.y
            &&& estimate.interval == now - before.estimate.observed_at
        }
    }

    /// What was measured.
    pub open spec fn report(self) -> CursorMotion {
        CursorMotion {
            start: self.start,
            target: self.target,
            estimate: self.estimate,
            corrections: self.corrections,
            elapsed: (self.estimate.observed_at - self.started) as u128,
            residual_squared: self.residual() as u64,
            peak: self.peak,
        }
    }

    /// Whether a failure says that this movement took too long.
    pub open spec fn overdue(self, failure: CursorFailure) -> bool {
        failure matches CursorFailure::Unsettled {
            target,
            position,
            elapsed,
            corrections,
            residual,
            stalled,
            budget,
        } && target == self.target && position == self.estimate.position && elapsed
            == self.estimate.observed_at - self.started && corrections == self.corrections
            && number::is_nearest_root(10_000 * self.residual(), residual as int) && stalled
            == self.estimate.observed_at - self.progress_at() && budget == self.budget
    }

    /// The step that asks for a correction.
    pub open spec fn steer<E>(self) -> CursorStep<E> {
        CursorStep::Steer {
            error_x: (self.target.x - self.estimate.position.x) as i32,
            error_y: (self.target.y - self.estimate.position.y) as i32,
            prediction: Prediction {
                position: self.estimate.position,
                shift_x: self.estimate.shift_x,
                shift_y: self.estimate.shift_y,
                interval: self.estimate.interval,
                horizon: POLL_INTERVAL,
            },
        }
    }

    /// What follows from what an observation says: the step, and the movement
    /// after it.
    pub open spec fn concludes<E>(self, step: CursorStep<E>, after: CursorControl) -> bool {
        match self.verdict() {
            Verdict::Outside => {
                &&& after.phase is Over
                &&& step == CursorStep::Finished(
                    Err(
                        CursorError::<E>::Failed(
                            CursorFailure::Outside {
                                position: self.estimate.position,
                                width: self.width,
                                height: self.height,
                            },
                        ),
                    ),
                )
            },
            Verdict::Arrived => {
                &&& after.phase is Over
                &&& step == CursorStep::Finished(Ok::<CursorMotion, CursorError<E>>(self.report()))
            },
            Verdict::Overdue => {
                &&& after.phase is Over
                &&& step matches CursorStep::Finished(Err(CursorError::Failed(failure)))
                    && self.overdue(failure)
            },
            Verdict::Near => {
                &&& after == self.judged(CursorPhase::Polling)
                &&& step == (CursorStep::<E>::Pause { nanoseconds: POLL_INTERVAL })
            },
            Verdict::Away => {
                &&& after == self.judged(CursorPhase::Steering)
                &&& step == self.steer::<E>()
            },
        }
    }

    /// Whether the last correction is not yet followed by an observation.
    pub open spec fn moved_since(self) -> int {
        if self.phase is Steering {
            0
        } else {
            1
        }
    }

    /// The movement is in a state that it can come to. It steers the cursor only while
    /// that is not at its target, moves it at most once between two observations, and
    /// these are at least a nanosecond apart.
    pub open spec fn wf(self) -> bool {
        &&& self.width > 0 && self.height > 0
        &&& self.inside(self.target)
        &&& self.phase is Steering ==> !self.near()
        &&& self.phase !is Starting && self.phase !is Over ==> {
            &&& self.inside(self.estimate.position)
            &&& self.started <= self.last_progress <= self.estimate.observed_at
            &&& self.estimate.observed_at - self.started < self.budget <= 26_000_000_000
            &&& self.best <= 8_600_000_000
            &&& self.corrections <= self.estimate.observed_at - self.started + self.moved_since()
            &&& -0x1_0000_0000 <= self.estimate.shift_x <= 0x1_0000_0000
            &&& -0x1_0000_0000 <= self.estimate.shift_y <= 0x1_0000_0000
            &&& self.estimate.interval <= 250_000_000
            &&& -0x1_0000_0000 <= self.peak.shift_x <= 0x1_0000_0000
            &&& -0x1_0000_0000 <= self.peak.shift_y <= 0x1_0000_0000
            &&& self.peak.interval <= 250_000_000
        }
    }

    /// Whether a correction is one that may be made: on each axis it goes towards
    /// the target and not past it, and it is at most 96 pixels long.
    pub open spec fn admissible(self, dx: i32, dy: i32) -> bool {
        let error_x = self.target.x - self.estimate.position.x;
        let error_y = self.target.y - self.estimate.position.y;
        &&& (0 <= dx <= error_x || error_x <= dx <= 0)
        &&& (0 <= dy <= error_y || error_y <= dy <= 0)
        &&& dx * dx + dy * dy <= MAX_STEP * MAX_STEP
    }
}

/// A distance takes one number of steps only.
proof fn lemma_covers_one(square: int, steps: int)
    requires
        covers(square, steps),
    ensures
        travel_steps(square) == steps,
{
    let other = travel_steps(square);
    assert(covers(square, other));
    if other < steps {
        assert(other * other <= (steps - 1) * (steps - 1)) by (nonlinear_arith)
            requires
                0 <= other <= steps - 1,
        ;
    }
    if steps < other {
        assert(steps * steps <= (other - 1) * (other - 1)) by (nonlinear_arith)
            requires
                0 <= steps <= other - 1,
        ;
    }
}

/// How many steps of 96 pixels a distance takes.
fn count_steps(square: u64) -> (steps: u64)
    requires
        square <= 8_600_000_000,
    ensures
        steps == travel_steps(square as int),
        steps <= 967,
{
    let below: u64 = square_root(square / 9216);
    let ghost r = below as int;
    let ghost m = (square / 9216) as int;
    assert(r <= 966) by (nonlinear_arith)
        requires
            r * r <= m,
            m <= 933_160,
            0 <= r,
    ;
    assert(below * below <= 966 * 966) by (nonlinear_arith)
        requires
            0 <= below <= 966,
    ;
    if 9216 * (below * below) >= square {
        if below > 0 {
            assert((r - 1) * (r - 1) < r * r) by (nonlinear_arith)
                requires
                    r >= 1,
            ;
        }
        proof {
            lemma_covers_one(square as int, r);
        }
        below
    } else {
        proof {
            lemma_covers_one(square as int, r + 1);
        }
        below + 1
    }
}

/// The square of a difference of places on a desktop.
proof fn lemma_square_bounds(left: int, right: int)
    requires
        0 <= left < 65535,
        0 <= right < 65535,
    ensures
        0 <= (left - right) * (left - right) <= 4_294_705_156,
{
    let d = left - right;
    assert(0 <= d * d <= 65534 * 65534) by (nonlinear_arith)
        requires
            -65534 <= d <= 65534,
    ;
}

/// The square of the distance between two points of a desktop.
fn distance(left: Point, right: Point) -> (square: u64)
    requires
        0 <= left.x < 65535,
        0 <= left.y < 65535,
        0 <= right.x < 65535,
        0 <= right.y < 65535,
    ensures
        square == square_distance(left, right),
        square <= 8_600_000_000,
{
    proof {
        lemma_square_bounds(left.x as int, right.x as int);
        lemma_square_bounds(left.y as int, right.y as int);
    }
    let dx: i64 = left.x as i64 - right.x as i64;
    let dy: i64 = left.y as i64 - right.y as i64;
    (dx * dx + dy * dy) as u64
}

/// Whether one distance is at least a pixel shorter than another.
fn is_nearer(square: u64, best: u64) -> (yes: bool)
    requires
        square <= 8_600_000_000,
        best <= 8_600_000_000,
    ensures
        yes == pixel_nearer(square as int, best as int),
{
    if best < square || best - square < 1 {
        return false;
    }
    let gain: u128 = (best - square - 1) as u128;
    assert(gain * gain <= 8_600_000_000 * 8_600_000_000) by (nonlinear_arith)
        requires
            0 <= gain <= 8_600_000_000,
    ;
    gain * gain >= 4 * (square as u128)
}

/// The square of a shift fits.
proof fn lemma_shift_bounds(x: i64, y: i64)
    requires
        -0x1_0000_0000 <= x <= 0x1_0000_0000,
        -0x1_0000_0000 <= y <= 0x1_0000_0000,
    ensures
        0 <= x * x <= 0x1_0000_0000_0000_0000,
        0 <= y * y <= 0x1_0000_0000_0000_0000,
        0 <= shift_square(x, y) <= 0x2_0000_0000_0000_0000,
{
    assert(0 <= x * x <= 0x1_0000_0000 * 0x1_0000_0000) by (nonlinear_arith)
        requires
            -0x1_0000_0000 <= x <= 0x1_0000_0000,
    ;
    assert(0 <= y * y <= 0x1_0000_0000 * 0x1_0000_0000) by (nonlinear_arith)
        requires
            -0x1_0000_0000 <= y <= 0x1_0000_0000,
    ;
}

/// Whether the cursor moves faster than before.
fn is_faster(estimate: CursorEstimate, peak: PeakSpeed) -> (yes: bool)
    requires
        -0x1_0000_0000 <= estimate.shift_x <= 0x1_0000_0000,
        -0x1_0000_0000 <= estimate.shift_y <= 0x1_0000_0000,
        estimate.interval <= 250_000_000,
        -0x1_0000_0000 <= peak.shift_x <= 0x1_0000_0000,
        -0x1_0000_0000 <= peak.shift_y <= 0x1_0000_0000,
        peak.interval <= 250_000_000,
    ensures
        yes == outpaces(estimate, peak),
{
    proof {
        lemma_shift_bounds(estimate.shift_x, estimate.shift_y);
        lemma_shift_bounds(peak.shift_x, peak.shift_y);
    }
    let ex: i128 = estimate.shift_x as i128;
    let ey: i128 = estimate.shift_y as i128;
    let px: i128 = peak.shift_x as i128;
    let py: i128 = peak.shift_y as i128;
    let now: i128 = ex * ex + ey * ey;
    let before: i128 = px * px + py * py;
    if estimate.interval == 0 {
        return false;
    }
    if peak.interval == 0 {
        return now > 0;
    }
    let ei: i128 = estimate.interval as i128;
    let pi: i128 = peak.interval as i128;
    assert(0 <= ei * ei <= 62_500_000_000_000_000) by (nonlinear_arith)
        requires
            0 <= ei <= 250_000_000,
    ;
    assert(0 <= pi * pi <= 62_500_000_000_000_000) by (nonlinear_arith)
        requires
            0 <= pi <= 250_000_000,
    ;
    let ghost a = now as int;
    let ghost b = before as int;
    let ghost es = ei * ei;
    let ghost ps = pi * pi;
    assert(0 <= a * ps <= 0x2_0000_0000_0000_0000 * 62_500_000_000_000_000) by (nonlinear_arith)
        requires
            0 <= a <= 0x2_0000_0000_0000_0000,
            0 <= ps <= 62_500_000_000_000_000,
    ;
    assert(0 <= b * es <= 0x2_0000_0000_0000_0000 * 62_500_000_000_000_000) by (nonlinear_arith)
        requires
            0 <= b <= 0x2_0000_0000_0000_0000,
            0 <= es <= 62_500_000_000_000_000,
    ;
    now * (pi * pi) > before * (ei * ei)
}

/// A normalized coordinate has its pixel on the desktop.
proof fn lemma_pixel(coordinate: u16, size: u16)
    requires
        size > 0,
    ensures
        0 <= coordinate * (size - 1) <= 65535 * 65534,
        0 <= pixel(coordinate, size) < size,
{
    let product = coordinate * (size - 1);
    assert(0 <= product <= 65535 * (size - 1)) by (nonlinear_arith)
        requires
            product == coordinate * (size - 1),
            0 <= coordinate <= 65535,
            1 <= size <= 65535,
    ;
}

/// The pixel for a normalized coordinate.
fn to_pixel(coordinate: u16, size: u16) -> (place: i32)
    requires
        size > 0,
    ensures
        place == pixel(coordinate, size),
        0 <= place < size,
{
    proof {
        lemma_pixel(coordinate, size);
    }
    (((coordinate as u32) * ((size - 1) as u32) + 32_767) / 65_535) as i32
}

/// Begins to move the cursor to a normalized place, where 65535 is the far edge of
/// the desktop. Reads how large the desktop is and where the cursor is.
///
/// The movement approaches its target in steps of at most 96 pixels and ends after
/// two observations in a row within two pixels of it. It fails after two seconds
/// without coming nearer, or after the nominal travel time and ten seconds. A call
/// of the desktop has to return soon: none is cut short.
pub fn move_cursor_to<B: CursorBackend>(cursor: &mut B, x: u16, y: u16) -> (control: Result<
    CursorControl,
    CursorError<B::Error>,
>)
    ensures
        begins_movement(old(cursor).calls(), final(cursor).calls(), x, y, control),
{
    let ghost before = cursor.calls();
    let (width, height): (u16, u16) = match cursor.dimensions() {
        Ok(size) => size,
        Err(error) => {
            return Err(CursorError::Backend(error));
        },
    };
    if width == 0 || height == 0 {
        return Err(CursorError::Failed(CursorFailure::NoDesktop));
    }
    let target: Point = Point { x: to_pixel(x, width), y: to_pixel(y, height) };
    match cursor.position() {
        Err(error) => Err(CursorError::Backend(error)),
        Ok(start) => Ok(
            CursorControl {
                width,
                height,
                start,
                target,
                phase: CursorPhase::Starting,
                started: 0,
                budget: 0,
                last_progress: 0,
                best: 0,
                estimate: CursorEstimate::new(start, 0),
                settled: false,
                corrections: 0,
                peak: PeakSpeed { shift_x: 0, shift_y: 0, interval: 0 },
            },
        ),
    }
}

/// What beginning a movement asks the desktop for, and what comes of it.
pub open spec fn begins_movement<E>(
    before: Seq<CursorCall<E>>,
    after: Seq<CursorCall<E>>,
    x: u16,
    y: u16,
    control: Result<CursorControl, CursorError<E>>,
) -> bool {
    let first = after[before.len() as int];
    let second = after[before.len() as int + 1];
    match first {
        CursorCall::Dimensions { dimensions: Err(error) } => {
            &&& after == before.push(first)
            &&& control == Err::<CursorControl, CursorError<E>>(CursorError::Backend(error))
        },
        CursorCall::Dimensions { dimensions: Ok((width, height)) } => if width == 0 || height == 0 {
            &&& after == before.push(first)
            &&& control == Err::<CursorControl, CursorError<E>>(
                CursorError::Failed(CursorFailure::NoDesktop),
            )
        } else {
            &&& after == before.push(first).push(second)
            &&& match second {
                CursorCall::Position { observed: Err(error) } => control == Err::<
                    CursorControl,
                    CursorError<E>,
                >(CursorError::Backend(error)),
                CursorCall::Position { observed: Ok(position) } => {
                    &&& control matches Ok(movement)
                    &&& movement.wf()
                    &&& movement.phase is Starting
                    &&& movement.width == width && movement.height == height
                    &&& movement.start == position
                    &&& movement.target.x == pixel(x, width)
                    &&& movement.target.y == pixel(y, height)
                },
                _ => false,
            }
        },
        _ => false,
    }
}

impl CursorControl {
    /// Judges the last observation and decides what follows from it.
    fn judge<E>(&mut self) -> (step: CursorStep<E>)
        requires
            old(self).width > 0 && old(self).height > 0,
            old(self).inside(old(self).target),
            old(self).inside(old(self).estimate.position) ==> {
                &&& old(self).started <= old(self).last_progress
                    <= old(self).estimate.observed_at
                &&& old(self).best <= 8_600_000_000
            },
        ensures
            old(self).concludes(step, *final(self)),
            final(self).width == old(self).width,
            final(self).height == old(self).height,
            final(self).target == old(self).target,
            final(self).phase !is Over ==> final(self).best <= 8_600_000_000,
    {
        let position: Point = self.estimate.position;
        if position.x < 0 || position.x >= self.width as i32 || position.y < 0 || position.y
            >= self.height as i32 {
            self.phase = CursorPhase::Over;
            return CursorStep::Finished(
                Err(
                    CursorError::Failed(
                        CursorFailure::Outside {
                            position,
                            width: self.width,
                            height: self.height,
                        },
                    ),
                ),
            );
        }
        let now: u128 = self.estimate.observed_at;
        let residual: u64 = distance(self.target, position);
        let near: bool = residual <= 4;
        if near && self.settled {
            self.phase = CursorPhase::Over;
            return CursorStep::Finished(
                Ok(
                    CursorMotion {
                        start: self.start,
                        target: self.target,
                        estimate: self.estimate,
                        corrections: self.corrections,
                        elapsed: now - self.started,
                        residual_squared: residual,
                        peak: self.peak,
                    },
                ),
            );
        }
        self.settled = near;
        if is_nearer(residual, self.best) {
            self.best = residual;
            self.last_progress = now;
        }
        if now - self.started >= self.budget as u128 || now - self.last_progress
            >= STALL_LIMIT as u128 {
            self.phase = CursorPhase::Over;
            return CursorStep::Finished(
                Err(
                    CursorError::Failed(
                        CursorFailure::Unsettled {
                            target: self.target,
                            position,
                            elapsed: now - self.started,
                            corrections: self.corrections,
                            residual: nearest_root(10_000 * residual),
                            stalled: now - self.last_progress,
                            budget: self.budget,
                        },
                    ),
                ),
            );
        }
        if near {
            self.phase = CursorPhase::Polling;
            return CursorStep::Pause { nanoseconds: POLL_INTERVAL };
        }
        self.phase = CursorPhase::Steering;
        self.ask()
    }

    /// Asks for a correction.
    fn ask<E>(&self) -> (step: CursorStep<E>)
        requires
            self.width > 0 && self.height > 0,
            self.inside(self.target),
            self.inside(self.estimate.position),
        ensures
            step == self.steer::<E>(),
    {
        CursorStep::Steer {
            error_x: self.target.x - self.estimate.position.x,
            error_y: self.target.y - self.estimate.position.y,
            prediction: self.estimate.predict(POLL_INTERVAL as u128),
        }
    }

    /// Goes on with the movement at the time `now`, in nanoseconds. What is asked
    /// for is left to the caller, who comes back when it is done; a correction is
    /// handed to `correct`.
    pub fn resume<B: CursorBackend>(&mut self, cursor: &mut B, now: u128) -> (step: CursorStep<
        B::Error,
    >)
        requires
            old(self).wf(),
            old(self).phase !is Over,
        ensures
            final(self).wf(),
            match old(self).phase {
                CursorPhase::Starting => {
                    &&& final(cursor).calls() == old(cursor).calls()
                    &&& old(self).begun(now).concludes(step, *final(self))
                },
                CursorPhase::Polling => {
                    let call = final(cursor).calls().last();
                    &&& final(cursor).calls() == old(cursor).calls().push(call)
                    &&& match call {
                        CursorCall::Position { observed: Ok(position) } => {
                            &&& step is Clock
                            &&& *final(self) == (CursorControl {
                                phase: CursorPhase::Observed { position },
                                ..*old(self)
                            })
                        },
                        CursorCall::Position { observed: Err(error) } => {
                            &&& step == CursorStep::Finished(
                                Err::<CursorMotion, CursorError<B::Error>>(
                                    CursorError::Backend(error),
                                ),
                            )
                            &&& final(self).phase is Over
                        },
                        _ => false,
                    }
                },
                CursorPhase::Observed { position } => {
                    &&& final(cursor).calls() == old(cursor).calls()
                    &&& if now <= old(self).estimate.observed_at {
                        &&& step == CursorStep::Finished(
                            Err::<CursorMotion, CursorError<B::Error>>(
                                CursorError::Failed(CursorFailure::Order),
                            ),
                        )
                        &&& final(self).phase is Over
                    } else {
                        exists|seen: CursorControl|
                            {
                                &&& #[trigger] seen.sees(*old(self), position, now)
                                &&& seen.concludes(step, *final(self))
                            }
                    }
                },
                _ => {
                    &&& final(cursor).calls() == old(cursor).calls()
                    &&& step == old(self).steer::<B::Error>()
                    &&& *final(self) == *old(self)
                },
            },
    {
        match self.phase {
            CursorPhase::Starting => {
                let start: Point = self.start;
                let target: Point = self.target;
                self.started = now;
                self.last_progress = now;
                self.estimate = CursorEstimate::new(start, now);
                self.settled = false;
                self.corrections = 0;
                self.peak = PeakSpeed { shift_x: 0, shift_y: 0, interval: 0 };
                if 0 <= start.x && start.x < self.width as i32 && 0 <= start.y && start.y
                    < self.height as i32 {
                    let square: u64 = distance(target, start);
                    self.best = square;
                    self.budget = EXTRA_TIME + POLL_INTERVAL * count_steps(square);
                    assert(*self == old(self).begun(now));
                }
                self.judge()
            },
            CursorPhase::Polling => match cursor.position() {
                Ok(position) => {
                    self.phase = CursorPhase::Observed { position };
                    CursorStep::Clock
                },
                Err(error) => {
                    self.phase = CursorPhase::Over;
                    CursorStep::Finished(Err(CursorError::Backend(error)))
                },
            },
            CursorPhase::Observed { position } => {
                if self.estimate.observe(position, now).is_err() {
                    self.phase = CursorPhase::Over;
                    return CursorStep::Finished(
                        Err(CursorError::Failed(CursorFailure::Order)),
                    );
                }
                if is_faster(self.estimate, self.peak) {
                    self.peak = PeakSpeed {
                        shift_x: self.estimate.shift_x,
                        shift_y: self.estimate.shift_y,
                        interval: self.estimate.interval,
                    };
                }
                let ghost seen = *self;
                assert(seen.sees(*old(self), position, now));
                self.judge()
            },
            _ => self.ask(),
        }
    }

    /// Decides whether a correction is one that may be made.
    pub fn admits(&self, dx: i32, dy: i32) -> (yes: bool)
        requires
            self.wf(),
            self.phase is Steering,
        ensures
            yes == self.admissible(dx, dy),
    {
        let error_x: i32 = self.target.x - self.estimate.position.x;
        let error_y: i32 = self.target.y - self.estimate.position.y;
        let towards_x: bool = (0 <= dx && dx <= error_x) || (error_x <= dx && dx <= 0);
        let towards_y: bool = (0 <= dy && dy <= error_y) || (error_y <= dy && dy <= 0);
        if !towards_x || !towards_y {
            return false;
        }
        assert(0 <= dx * dx <= 65535 * 65535) by (nonlinear_arith)
            requires
                -65535 <= dx <= 65535,
        ;
        assert(0 <= dy * dy <= 65535 * 65535) by (nonlinear_arith)
            requires
                -65535 <= dy <= 65535,
        ;
        (dx as i64) * (dx as i64) + (dy as i64) * (dy as i64) <= MAX_STEP * MAX_STEP
    }

    /// Makes a correction. One by nothing leaves the cursor alone.
    pub fn correct<B: CursorBackend>(&mut self, cursor: &mut B, dx: i32, dy: i32) -> (step:
        CursorStep<B::Error>)
        requires
            old(self).wf(),
            old(self).phase is Steering,
            old(self).admissible(dx, dy),
        ensures
            final(self).wf(),
            ({
                let position = Point {
                    x: (old(self).estimate.position.x + dx) as i32,
                    y: (old(self).estimate.position.y + dy) as i32,
                };
                let call = final(cursor).calls().last();
                if dx == 0 && dy == 0 {
                    &&& final(cursor).calls() == old(cursor).calls()
                    &&& step == (CursorStep::<B::Error>::Pause { nanoseconds: POLL_INTERVAL })
                    &&& *final(self) == (CursorControl {
                        phase: CursorPhase::Polling,
                        ..*old(self)
                    })
                } else {
                    &&& final(cursor).calls() == old(cursor).calls().push(call)
                    &&& call matches CursorCall::MoveTo { position: to, outcome } && to == position
                        && match outcome {
                        Ok(_) => {
                            &&& step == (CursorStep::<B::Error>::Pause {
                                nanoseconds: POLL_INTERVAL,
                            })
                            &&& *final(self) == (CursorControl {
                                phase: CursorPhase::Polling,
                                corrections: (old(self).corrections + 1) as u64,
                                ..*old(self)
                            })
                        },
                        Err(error) => {
                            &&& step == CursorStep::Finished(
                                Err::<CursorMotion, CursorError<B::Error>>(
                                    CursorError::Backend(error),
                                ),
                            )
                            &&& final(self).phase is Over
                        },
                    }
                }
            }),
    {
        let next: Point = Point {
            x: self.estimate.position.x + dx,
            y: self.estimate.position.y + dy,
        };
        if dx != 0 || dy != 0 {
            match cursor.move_to(next) {
                Ok(_) => {
                    self.corrections += 1;
                },
                Err(error) => {
                    self.phase = CursorPhase::Over;
                    return CursorStep::Finished(Err(CursorError::Backend(error)));
                },
            }
        }
        self.phase = CursorPhase::Polling;
        CursorStep::Pause { nanoseconds: POLL_INTERVAL }
    }
}

/// A normalized place is a pixel of the desktop, and the edges are the edges of the
/// desktop. A larger coordinate never stands for a smaller pixel.
pub proof fn law_pixels_cover_the_desktop(coordinate: u16, further: u16, size: u16)
    requires
        size > 0,
        coordinate <= further,
    ensures
        0 <= pixel(coordinate, size) <= pixel(further, size) < size,
        pixel(0, size) == 0,
        pixel(65535, size) == size - 1,
{
    lemma_pixel(coordinate, size);
    lemma_pixel(further, size);
    assert(coordinate * (size - 1) <= further * (size - 1)) by (nonlinear_arith)
        requires
            coordinate <= further,
            size >= 1,
    ;
    assert(0 * (size - 1) == 0) by (nonlinear_arith);
}

/// A correction is made only where the cursor is farther than two pixels from the
/// target. It never leads away from the target nor past it, stays on the desktop and is
/// at most 96 pixels long.
pub proof fn law_corrections_approach(control: CursorControl, dx: i32, dy: i32)
    requires
        control.wf(),
        control.phase is Steering,
        control.admissible(dx, dy),
    ensures
        ({
            let from = control.estimate.position;
            let to = Point { x: (from.x + dx) as i32, y: (from.y + dy) as i32 };
            &&& square_distance(control.target, from) > 2 * 2
            &&& control.inside(to)
            &&& (from.x <= to.x <= control.target.x || control.target.x <= to.x <= from.x)
            &&& (from.y <= to.y <= control.target.y || control.target.y <= to.y <= from.y)
            &&& square_distance(from, to) <= 96 * 96
            &&& square_distance(control.target, to) <= square_distance(control.target, from)
        }),
{
    let from = control.estimate.position;
    let to = Point { x: (from.x + dx) as i32, y: (from.y + dy) as i32 };
    assert((from.x - to.x) * (from.x - to.x) == dx * dx) by (nonlinear_arith)
        requires
            from.x - to.x == -dx,
    ;
    assert((from.y - to.y) * (from.y - to.y) == dy * dy) by (nonlinear_arith)
        requires
            from.y - to.y == -dy,
    ;
    lemma_nearer_square(control.target.x - from.x, dx as int);
    lemma_nearer_square(control.target.y - from.y, dy as int);
}

/// Taking a part of a way off it leaves a shorter one.
proof fn lemma_nearer_square(way: int, part: int)
    requires
        0 <= part <= way || way <= part <= 0,
    ensures
        (way - part) * (way - part) <= way * way,
{
    assert((way - part) * (way - part) <= way * way) by (nonlinear_arith)
        requires
            0 <= part <= way || way <= part <= 0,
    ;
}

/// Arrival takes two observations in a row within two pixels of the target: the one
/// that was judged before, and the last.
pub proof fn law_arrival_takes_two_observations(
    before: CursorControl,
    phase: CursorPhase,
    seen: CursorControl,
    position: Point,
    now: u128,
)
    requires
        seen.sees(before.judged(phase), position, now),
    ensures
        seen.verdict() is Arrived <==> seen.inside(position) && before.residual() <= 4
            && seen.residual() <= 4,
{
}

/// The first observation alone is never an arrival.
pub proof fn law_first_observation_is_no_arrival(control: CursorControl, now: u128)
    ensures
        control.begun(now).verdict() !is Arrived,
{
}

/// A movement goes on only while its time is not used up and the cursor came at
/// least a pixel nearer than ever before within the last two seconds. Arrival is
/// accepted whatever the time.
pub proof fn law_movement_is_bounded(control: CursorControl)
    ensures
        control.verdict() is Away || control.verdict() is Near ==> {
            &&& control.estimate.observed_at - control.started < control.budget
            &&& control.estimate.observed_at - control.progress_at() < 2_000_000_000
        },
        control.progress_at() == control.last_progress || {
            &&& control.progress_at() == control.estimate.observed_at
            &&& pixel_nearer(control.residual(), control.best as int)
        },
{
}

/// The budget allows for the whole way: the steps that it counts cover every
/// distance, and one step fewer would not.
pub proof fn law_budget_covers_the_way(square: int)
    requires
        0 <= square,
    ensures
        covers(square, travel_steps(square)),
{
    assert(square <= 9216 * (square * square)) by (nonlinear_arith)
        requires
            0 <= square,
    ;
    lemma_covers_some(square, square);
}

/// Some number of steps covers a distance.
proof fn lemma_covers_some(square: int, enough: int)
    requires
        0 <= enough,
        square <= 9216 * (enough * enough),
    ensures
        exists|steps: int| #[trigger] covers(square, steps),
    decreases enough,
{
    if enough > 0 && square <= 9216 * ((enough - 1) * (enough - 1)) {
        lemma_covers_some(square, enough - 1);
    } else {
        assert(covers(square, enough));
    }
}

/// The pixel of a normalized coordinate is the nearest one: it is off by half a pixel at
/// most.
pub proof fn law_pixel_is_the_nearest(coordinate: u16, size: u16)
    requires
        size > 0,
    ensures
        2 * (65_535 * pixel(coordinate, size) - coordinate * (size - 1)) <= 65_535,
        2 * (coordinate * (size - 1) - 65_535 * pixel(coordinate, size)) <= 65_535,
{
}

/// The square of a distance is that of the way on both axes, whichever way it goes.
pub proof fn law_distance_is_straight(from: Point, to: Point, right: int, down: int)
    requires
        to.x == from.x + right,
        to.y == from.y + down,
    ensures
        square_distance(from, to) == right * right + down * down,
        square_distance(to, from) == right * right + down * down,
        square_distance(from, to) == 0 <==> from == to,
{
    assert((-right) * (-right) == right * right) by (nonlinear_arith);
    assert((-down) * (-down) == down * down) by (nonlinear_arith);
    assert(right * right >= 0 && (right * right == 0 <==> right == 0)) by (nonlinear_arith);
    assert(down * down >= 0 && (down * down == 0 <==> down == 0)) by (nonlinear_arith);
    assert(from.x - to.x == -right && from.y - to.y == -down);
}

/// Coming nearer is coming nearer by a whole pixel: of two distances in whole pixels the
/// first has to be shorter than the second by one at least. A shorter distance is nearer
/// still.
pub proof fn law_progress_is_a_pixel(left: int, right: int, square: int, best: int, less: int)
    requires
        0 <= left,
        0 <= right,
        0 <= less <= square,
    ensures
        pixel_nearer(left * left, right * right) <==> left + 1 <= right,
        pixel_nearer(square, best) ==> pixel_nearer(less, best),
{
    if left + 1 <= right {
        let gain = right * right - left * left - 1;
        assert(gain >= 2 * left) by (nonlinear_arith)
            requires
                gain == right * right - left * left - 1,
                0 <= left,
                left + 1 <= right,
        ;
        assert(gain * gain >= 4 * (left * left)) by (nonlinear_arith)
            requires
                gain >= 2 * left,
                0 <= left,
        ;
    } else {
        assert(right * right <= left * left) by (nonlinear_arith)
            requires
                0 <= right <= left,
        ;
    }
    if pixel_nearer(square, best) {
        let gain = best - square - 1;
        let more = best - less - 1;
        assert(more * more >= gain * gain) by (nonlinear_arith)
            requires
                more >= gain >= 0,
        ;
    }
}

/// A speed is higher than another where it covers more ground in the same time: of two
/// ways in whole pixels each counts as often as the other took longer. A cursor at rest
/// outpaces nothing, and any movement outpaces rest.
pub proof fn law_speeds_are_ways_in_a_time(
    estimate: CursorEstimate,
    peak: PeakSpeed,
    way: int,
    before: int,
)
    requires
        0 <= way,
        0 <= before,
        estimate.shift_x * estimate.shift_x + estimate.shift_y * estimate.shift_y == way * way,
        peak.shift_x * peak.shift_x + peak.shift_y * peak.shift_y == before * before,
    ensures
        estimate.interval == 0 ==> !outpaces(estimate, peak),
        estimate.interval > 0 && peak.interval == 0 ==> (outpaces(estimate, peak) <==> way > 0),
        estimate.interval > 0 && peak.interval > 0 ==> (outpaces(estimate, peak) <==> way
            * peak.interval > before * estimate.interval),
{
    let long = peak.interval as int;
    let short = estimate.interval as int;
    assert(way * way > 0 <==> way > 0) by (nonlinear_arith)
        requires
            0 <= way,
    ;
    let left = way * long;
    let right = before * short;
    assert(way * way * (long * long) == left * left) by (nonlinear_arith)
        requires
            left == way * long,
    ;
    assert(before * before * (short * short) == right * right) by (nonlinear_arith)
        requires
            right == before * short,
    ;
    assert(0 <= left) by (nonlinear_arith)
        requires
            left == way * long,
            0 <= way,
            0 <= long,
    ;
    assert(0 <= right) by (nonlinear_arith)
        requires
            right == before * short,
            0 <= before,
            0 <= short,
    ;
    assert(left * left > right * right <==> left > right) by (nonlinear_arith)
        requires
            0 <= left,
            0 <= right,
    ;
}

/// What an observation says depends on three things: whether the cursor is on the desktop,
/// whether it is within two pixels of its target, now and when it was judged before, and
/// whether the time is used up or two seconds went by without coming nearer.
pub proof fn law_verdict_on_an_observation(control: CursorControl)
    ensures
        ({
            let at = control.estimate.position;
            let right = control.target.x - at.x;
            let down = control.target.y - at.y;
            let on_desktop = 0 <= at.x < control.width && 0 <= at.y < control.height;
            let near = right * right + down * down <= 4;
            let late = control.estimate.observed_at - control.started >= control.budget
                || control.estimate.observed_at - control.progress_at() >= 2_000_000_000;
            &&& control.verdict() is Outside <==> !on_desktop
            &&& control.verdict() is Arrived <==> on_desktop && near && control.settled
            &&& control.verdict() is Overdue <==> on_desktop && late && !(near && control.settled)
            &&& control.verdict() is Near <==> on_desktop && !late && near && !control.settled
            &&& control.verdict() is Away <==> on_desktop && !late && !near
        }),
{
}

/// A movement that begins at a time has come nowhere yet: the cursor is where it was seen,
/// at rest, and as far from the target as ever. It may take ten seconds, and 16 ms for
/// each step of 96 pixels that the way takes.
pub proof fn law_movement_begins_at_the_start(control: CursorControl, now: u128, steps: int)
    requires
        0 <= control.start.x < 65535,
        0 <= control.start.y < 65535,
        0 <= control.target.x < 65535,
        0 <= control.target.y < 65535,
        0 <= steps,
        square_distance(control.target, control.start) <= (96 * steps) * (96 * steps),
        steps > 0 ==> (96 * (steps - 1)) * (96 * (steps - 1)) < square_distance(
            control.target,
            control.start,
        ),
    ensures
        ({
            let begun = control.begun(now);
            &&& begun.budget == 10_000_000_000 + 16_000_000 * steps
            &&& begun.started == now
            &&& begun.last_progress == now
            &&& begun.best == square_distance(control.target, control.start)
            &&& begun.estimate.position == control.start
            &&& begun.estimate.observed_at == now
            &&& begun.estimate.at_rest()
            &&& begun.corrections == 0
            &&& begun.peak.interval == 0 && begun.peak.shift_x == 0 && begun.peak.shift_y == 0
            &&& !begun.settled
            &&& begun.start == control.start && begun.target == control.target
            &&& begun.width == control.width && begun.height == control.height
        }),
{
    let square = square_distance(control.target, control.start);
    lemma_square_bounds(control.target.x as int, control.start.x as int);
    lemma_square_bounds(control.target.y as int, control.start.y as int);
    assert((96 * steps) * (96 * steps) == 9216 * (steps * steps)) by (nonlinear_arith);
    assert((96 * (steps - 1)) * (96 * (steps - 1)) == 9216 * ((steps - 1) * (steps - 1)))
        by (nonlinear_arith);
    lemma_covers_one(square, steps);
    if steps > 968 {
        assert((steps - 1) * (steps - 1) >= 968 * 968) by (nonlinear_arith)
            requires
                steps - 1 >= 968,
        ;
    }
}

/// After an observation the cursor is where it was seen, at the time when it was seen. It
/// moved by what lies between that and the place before, in the time since; after more
/// than a quarter of a second it counts as at rest. All else stays, but that the highest
/// speed is taken over where this one is higher.
pub proof fn law_observation_is_taken_over(
    before: CursorControl,
    seen: CursorControl,
    position: Point,
    now: u128,
)
    requires
        seen.sees(before, position, now),
    ensures
        seen.estimate.position == position,
        seen.estimate.observed_at == now,
        now - before.estimate.observed_at > 250_000_000 ==> seen.estimate.at_rest(),
        now - before.estimate.observed_at <= 250_000_000 ==> {
            &&& before.estimate.position.x + seen.estimate.shift_x == position.x
            &&& before.estimate.position.y + seen.estimate.shift_y == position.y
            &&& before.estimate.observed_at + seen.estimate.interval == now
        },
        seen.start == before.start && seen.target == before.target,
        seen.width == before.width && seen.height == before.height,
        seen.started == before.started && seen.budget == before.budget,
        seen.last_progress == before.last_progress && seen.best == before.best,
        seen.settled == before.settled && seen.corrections == before.corrections,
        !outpaces(seen.estimate, before.peak) ==> seen.peak == before.peak,
        outpaces(seen.estimate, before.peak) ==> {
            &&& seen.peak.shift_x == seen.estimate.shift_x
            &&& seen.peak.shift_y == seen.estimate.shift_y
            &&& seen.peak.interval == seen.estimate.interval
        },
        !outpaces(seen.estimate, seen.peak),
{
}

/// What is remembered of an observation that was judged: whether the cursor was within two
/// pixels of its target, and, where it came at least a pixel nearer than ever before, how
/// near and when.
pub proof fn law_progress_is_remembered(control: CursorControl, phase: CursorPhase)
    requires
        0 <= control.residual() <= u64::MAX,
    ensures
        ({
            let after = control.judged(phase);
            &&& after.settled <==> control.residual() <= 4
            &&& after.phase == phase
            &&& if pixel_nearer(control.residual(), control.best as int) {
                &&& after.best == control.residual()
                &&& after.last_progress == control.estimate.observed_at
            } else {
                &&& after.best == control.best
                &&& after.last_progress == control.last_progress
            }
            &&& after.estimate == control.estimate
            &&& after.started == control.started && after.budget == control.budget
            &&& after.target == control.target && after.start == control.start
            &&& after.corrections == control.corrections && after.peak == control.peak
            &&& after.width == control.width && after.height == control.height
        }),
        control.residual() == square_distance(control.target, control.estimate.position),
{
}

/// A movement that has arrived reports where it began, where it should end and where it
/// did, how long it took and how often the cursor was moved.
pub proof fn law_report_is_of_the_movement(control: CursorControl)
    requires
        control.started <= control.estimate.observed_at,
        control.residual() <= 4,
    ensures
        control.report().start == control.start,
        control.report().target == control.target,
        control.report().estimate == control.estimate,
        control.report().corrections == control.corrections,
        control.started + control.report().elapsed == control.estimate.observed_at,
        control.report().residual_squared == square_distance(
            control.target,
            control.estimate.position,
        ),
        control.report().peak == control.peak,
{
    let right = control.target.x - control.estimate.position.x;
    let down = control.target.y - control.estimate.position.y;
    assert(right * right >= 0) by (nonlinear_arith);
    assert(down * down >= 0) by (nonlinear_arith);
}

/// A movement that took too long says where the cursor is and should be, how long it took
/// and could have taken, how long it came no nearer, how often it was moved, and the
/// distance that is left, to the nearest hundredth of a pixel.
pub proof fn law_failure_is_of_the_movement(control: CursorControl, failure: CursorFailure)
    requires
        control.overdue(failure),
    ensures
        failure matches CursorFailure::Unsettled {
            target,
            position,
            elapsed,
            corrections,
            residual,
            stalled,
            budget,
        } && {
            let square = square_distance(control.target, control.estimate.position);
            &&& target == control.target
            &&& position == control.estimate.position
            &&& control.started + elapsed == control.estimate.observed_at
            &&& corrections == control.corrections
            &&& control.progress_at() + stalled == control.estimate.observed_at
            &&& budget == control.budget
            &&& 40_000 * square <= (2 * residual + 1) * (2 * residual + 1)
            &&& residual > 0 ==> (2 * residual - 1) * (2 * residual - 1) <= 40_000 * square
        },
{
}

/// A correction is asked for with the way that is left on each axis, and with the movement
/// that the cursor was last seen in, 16 ms ahead.
pub proof fn law_correction_is_asked_for<E>(control: CursorControl)
    requires
        -0x8000_0000 <= control.target.x - control.estimate.position.x <= 0x7fff_ffff,
        -0x8000_0000 <= control.target.y - control.estimate.position.y <= 0x7fff_ffff,
    ensures
        control.steer::<E>() matches CursorStep::Steer { error_x, error_y, prediction } && {
            &&& control.estimate.position.x + error_x == control.target.x
            &&& control.estimate.position.y + error_y == control.target.y
            &&& prediction.position == control.estimate.position
            &&& prediction.shift_x == control.estimate.shift_x
            &&& prediction.shift_y == control.estimate.shift_y
            &&& prediction.interval == control.estimate.interval
            &&& prediction.horizon == 16_000_000
        },
{
}

/// A correction may be made where it is at most 96 pixels long and goes no further than
/// the target on each axis, and in no other direction.
pub proof fn law_corrections_that_may_be_made(control: CursorControl, dx: i32, dy: i32)
    ensures
        ({
            let at = control.estimate.position;
            let within_x = at.x <= at.x + dx <= control.target.x || control.target.x <= at.x + dx
                <= at.x;
            let within_y = at.y <= at.y + dy <= control.target.y || control.target.y <= at.y + dy
                <= at.y;
            control.admissible(dx, dy) <==> within_x && within_y && dx * dx + dy * dy <= 9216
        }),
{
}

/// What follows from an observation: a cursor outside the desktop and one that took too
/// long end the movement with an error, one that has arrived ends it with a report, one
/// that is near for the first time is looked at again after 16 ms, and one that is away
/// is steered.
pub proof fn law_what_follows_from_an_observation<E>(
    control: CursorControl,
    step: CursorStep<E>,
    after: CursorControl,
)
    requires
        control.concludes(step, after),
    ensures
        control.verdict() is Outside ==> after.phase is Over && (step matches CursorStep::Finished(
            Err(CursorError::Failed(CursorFailure::Outside { position, width, height })),
        ) && position == control.estimate.position && width == control.width && height
            == control.height),
        control.verdict() is Arrived ==> after.phase is Over && (step matches CursorStep::Finished(
            Ok(motion),
        ) && motion == control.report()),
        control.verdict() is Overdue ==> after.phase is Over && (step matches CursorStep::Finished(
            Err(CursorError::Failed(failure)),
        ) && control.overdue(failure)),
        control.verdict() is Near ==> after.phase is Polling && after.settled && (
        step matches CursorStep::Pause { nanoseconds } && nanoseconds == 16_000_000),
        control.verdict() is Away ==> after.phase is Steering && !after.settled && step is Steer
            && step == control.steer::<E>(),
{
}

/// A movement begins with two questions, how large the desktop is and where the cursor is,
/// and the target is the pixel of the place on each axis. A desktop without pixels is an
/// error, and so is a question without an answer.
pub proof fn law_movement_begins_with_two_questions<E>(
    before: Seq<CursorCall<E>>,
    after: Seq<CursorCall<E>>,
    x: u16,
    y: u16,
    control: Result<CursorControl, CursorError<E>>,
)
    requires
        begins_movement(before, after, x, y, control),
    ensures
        after.take(before.len() as int) == before,
        after[before.len() as int] is Dimensions,
        control matches Ok(movement) ==> {
            &&& after.len() == before.len() + 2
            &&& after[before.len() as int] == (CursorCall::Dimensions {
                dimensions: Ok::<(u16, u16), E>((movement.width, movement.height)),
            })
            &&& after[before.len() as int + 1] == (CursorCall::Position {
                observed: Ok::<Point, E>(movement.start),
            })
            &&& movement.width > 0 && movement.height > 0
            &&& movement.target.x == pixel(x, movement.width)
            &&& movement.target.y == pixel(y, movement.height)
            &&& movement.phase is Starting
        },
        control matches Err(CursorError::Backend(error)) ==> {
            ||| after.last() == (CursorCall::Dimensions { dimensions: Err::<(u16, u16), E>(error) })
            ||| after.last() == (CursorCall::Position { observed: Err::<Point, E>(error) })
        },
        control matches Err(CursorError::Failed(failure)) ==> failure is NoDesktop && (
        after.last() matches CursorCall::Dimensions { dimensions: Ok((width, height)) } && (width
            == 0 || height == 0)),
{
    assert(after.take(before.len() as int) =~= before);
}

/// A cursor outside the desktop is told with where it is first and with the size of the
/// desktop last.
pub proof fn law_cursor_outside_is_told(position: Point, width: u16, height: u16)
    ensures
        ({
            let said = (CursorFailure::Outside { position, width, height }).said();
            &&& text::begins(
                said,
                "observed cursor ("@ + number::signed(position.x as int) + ", "@ + number::signed(
                    position.y as int,
                ) + ")"@,
            )
            &&& text::ends(
                said,
                number::decimal(width as nat) + "x"@ + number::decimal(height as nat) + " desktop"@,
            )
        }),
{
    let said = (CursorFailure::Outside { position, width, height }).said();
    let start = "observed cursor ("@ + number::signed(position.x as int) + ", "@ + number::signed(
        position.y as int,
    ) + ")"@;
    reveal_strlit("observed cursor ");
    reveal_strlit("(");
    reveal_strlit("observed cursor (");
    assert("observed cursor ("@ =~= "observed cursor "@ + "("@);
    let end = number::decimal(width as nat) + "x"@ + number::decimal(height as nat) + " desktop"@;
    assert(said =~= start + " is outside the "@ + end);
    assert(said.take(start.len() as int) =~= start);
    assert(said.skip(said.len() - end.len()) =~= end);
}

/// A cursor that did not settle is told with its target first, then with how many whole
/// milliseconds it took and how often it was moved, where it is and how far that is from
/// the target.
pub proof fn law_unsettled_cursor_is_told(
    target: Point,
    position: Point,
    elapsed: u128,
    corrections: u64,
    residual: u64,
    stalled: u128,
    budget: u64,
)
    ensures
        ({
            let said = (CursorFailure::Unsettled {
                target,
                position,
                elapsed,
                corrections,
                residual,
                stalled,
                budget,
            }).said();
            &&& text::begins(
                said,
                "cursor did not settle at "@ + ("("@ + number::signed(target.x as int) + ", "@
                    + number::signed(target.y as int) + ")"@) + " after "@ + number::decimal(
                    (elapsed as int / 1_000_000) as nat,
                ) + " ms and "@ + number::decimal(corrections as nat)
                    + " corrections: observed "@ + ("("@ + number::signed(position.x as int)
                    + ", "@ + number::signed(position.y as int) + ")"@) + ", residual "@
                    + number::hundredths(residual as nat),
            )
            &&& text::ends(
                said,
                " pixels; no progress for "@ + number::decimal(
                    (stalled as int / 1_000_000) as nat,
                ) + " ms (stall limit 2000 ms, total limit "@ + number::decimal(
                    (budget as int / 1_000_000) as nat,
                ) + " ms); remaining actions were not executed"@,
            )
        }),
{
    let said = (CursorFailure::Unsettled {
        target,
        position,
        elapsed,
        corrections,
        residual,
        stalled,
        budget,
    }).said();
    let start = "cursor did not settle at "@ + place(target) + " after "@ + milliseconds(
        elapsed as int,
    ) + " ms and "@ + number::decimal(corrections as nat) + " corrections: observed "@ + place(
        position,
    ) + ", residual "@ + number::hundredths(residual as nat);
    let end = " pixels; no progress for "@ + milliseconds(stalled as int)
        + " ms (stall limit 2000 ms, total limit "@ + milliseconds(budget as int)
        + " ms); remaining actions were not executed"@;
    assert(said =~= start + end);
    assert(said.take(start.len() as int) =~= start);
    assert(said.skip(said.len() - end.len()) =~= end);
}

/// Coming nearer is coming nearer by a whole pixel also where the distances are no whole
/// numbers: a fraction of which the square is at most that of the shorter distance, and one
/// more, then has a square of at most that of the longer; and where the cursor did not come
/// nearer, a fraction that is at least the shorter distance is beyond the longer with one
/// more.
pub proof fn law_progress_is_a_whole_pixel(square: int, best: int, part: int, whole: int)
    requires
        0 <= square,
        0 <= part,
        0 < whole,
    ensures
        pixel_nearer(square, best) && part * part <= whole * whole * square ==> (part + whole) * (
        part + whole) <= whole * whole * best,
        !pixel_nearer(square, best) && part * part >= whole * whole * square ==> (part + whole) * (
        part + whole) > whole * whole * best,
{
    let gain = best - square - 1;
    let unit = whole * whole;
    let step = whole * gain;
    assert((part + whole) * (part + whole) == part * part + 2 * (part * whole) + unit)
        by (nonlinear_arith)
        requires
            unit == whole * whole,
    ;
    assert(unit * best == unit * square + whole * step + unit) by (nonlinear_arith)
        requires
            best == square + gain + 1,
            unit == whole * whole,
            step == whole * gain,
    ;
    assert(step * step == unit * (gain * gain)) by (nonlinear_arith)
        requires
            unit == whole * whole,
            step == whole * gain,
    ;
    assert(unit > 0) by (nonlinear_arith)
        requires
            unit == whole * whole,
            0 < whole,
    ;
    assert(part * whole >= 0) by (nonlinear_arith)
        requires
            0 <= part,
            0 < whole,
    ;
    let twice = 2 * part;
    assert(twice * twice == 4 * (part * part)) by (nonlinear_arith)
        requires
            twice == 2 * part,
    ;
    if pixel_nearer(square, best) && part * part <= unit * square {
        assert(unit * (gain * gain) >= unit * (4 * square)) by (nonlinear_arith)
            requires
                unit > 0,
                gain * gain >= 4 * square,
        ;
        assert(unit * (4 * square) == 4 * (unit * square)) by (nonlinear_arith);
        assert(step >= 0) by (nonlinear_arith)
            requires
                step == whole * gain,
                0 < whole,
                0 <= gain,
        ;
        assert(twice <= step) by (nonlinear_arith)
            requires
                twice * twice <= step * step,
                0 <= step,
                0 <= twice,
        ;
        assert(2 * (part * whole) <= whole * step) by (nonlinear_arith)
            requires
                2 * part <= step,
                0 < whole,
        ;
    }
    if !pixel_nearer(square, best) && part * part >= unit * square {
        if gain < 0 {
            assert(unit * best <= unit * square) by (nonlinear_arith)
                requires
                    unit > 0,
                    best <= square,
            ;
        } else {
            assert(unit * (gain * gain) < unit * (4 * square)) by (nonlinear_arith)
                requires
                    unit > 0,
                    gain * gain < 4 * square,
            ;
            assert(unit * (4 * square) == 4 * (unit * square)) by (nonlinear_arith);
            assert(step >= 0) by (nonlinear_arith)
                requires
                    step == whole * gain,
                    0 < whole,
                    0 <= gain,
            ;
            assert(step < twice) by (nonlinear_arith)
                requires
                    step * step < twice * twice,
                    0 <= step,
                    0 <= twice,
            ;
            assert(whole * step < 2 * (part * whole)) by (nonlinear_arith)
                requires
                    step < 2 * part,
                    0 < whole,
            ;
        }
    }
}

} // verus!
