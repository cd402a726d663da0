//! Control of a mouse: single requests, and gestures that take time.

use crate::event::{Button, ButtonState};
use crate::keyboard;
use vstd::prelude::*;

verus! {

/// How long a button is held down in a click, in nanoseconds.
pub const CLICK_HOLD: u64 = 20_000_000;

/// What a mouse is asked for.
#[derive(Clone, Copy, Debug, Eq, PartialEq, Structural)]
pub enum MouseRequest {
    Button { button: Button, state: ButtonState },
    MoveRelative { dx: i32, dy: i32 },
    MoveAbsolute { x: u16, y: u16 },
    Wheel { delta: i32, horizontal: bool },
}

/// A device that mouse events are sent to.
pub trait MouseBackend: Sized {
    type Error;

    /// What the mouse was asked for so far, and how each request went.
    closed spec fn calls(&self) -> Seq<(MouseRequest, Result<(), Self::Error>)> {
        Seq::empty()
    }

    /// Presses or releases a button.
    fn button(&mut self, button: Button, state: ButtonState) -> (outcome: Result<(), Self::Error>)
        ensures
            final(self).calls() == old(self).calls().push(
                (MouseRequest::Button { button, state }, outcome),
            ),
    ;

    /// Moves by a distance in device units.
    fn move_relative(&mut self, dx: i32, dy: i32) -> (outcome: Result<(), Self::Error>)
        ensures
            final(self).calls() == old(self).calls().push(
                (MouseRequest::MoveRelative { dx, dy }, outcome),
            ),
    ;

    /// Moves to normalized desktop coordinates.
    fn move_absolute(&mut self, x: u16, y: u16) -> (outcome: Result<(), Self::Error>)
        ensures
            final(self).calls() == old(self).calls().push(
                (MouseRequest::MoveAbsolute { x, y }, outcome),
            ),
    ;

    /// Turns a wheel.
    fn wheel(&mut self, delta: i32, horizontal: bool) -> (outcome: Result<(), Self::Error>)
        ensures
            final(self).calls() == old(self).calls().push(
                (MouseRequest::Wheel { delta, horizontal }, outcome),
            ),
    ;
}

/// Sends mouse events to a device.
pub struct Controller<B> {
    pub backend: B,
}

/// One step of a gesture.
#[derive(Clone, Copy, Debug, Eq, PartialEq, Structural)]
pub enum GestureStep {
    Request { request: MouseRequest },
    Pause { nanoseconds: u128 },
}

/// A gesture that takes time.
#[derive(Clone, Copy, Debug, Eq, PartialEq, Structural)]
pub enum GestureKind {
    /// A button is clicked so many times.
    Clicks { button: Button, count: u32 },
    /// The mouse is moved by a distance in so many steps, at least one, with a
    /// pause between each two. In a drag the left button is held down meanwhile.
    Motion { dx: i32, dy: i32, steps: u32, pause: u128, drag: bool },
}

/// How far a movement over `total` has come after `done` of `steps` steps,
/// rounded towards where it began.
pub open spec fn along(total: int, done: int, steps: int) -> int {
    if total >= 0 {
        total * done / steps
    } else {
        -(-total * done / steps)
    }
}

impl GestureKind {
    /// How many steps there are.
    pub open spec fn size(self) -> int {
        match self {
            GestureKind::Clicks { count, .. } => 3 * count as int,
            GestureKind::Motion { steps, drag, .. } => if drag {
                2 * steps + 1
            } else {
                2 * steps - 1
            },
        }
    }

    /// The step at an index.
    pub open spec fn step(self, index: int) -> GestureStep {
        match self {
            GestureKind::Clicks { button, .. } => if index % 3 == 0 {
                GestureStep::Request {
                    request: MouseRequest::Button { button, state: ButtonState::Down },
                }
            } else if index % 3 == 1 {
                GestureStep::Pause { nanoseconds: CLICK_HOLD as u128 }
            } else {
                GestureStep::Request {
                    request: MouseRequest::Button { button, state: ButtonState::Up },
                }
            },
            GestureKind::Motion { dx, dy, steps, pause, drag } => {
                let place = if drag {
                    index - 1
                } else {
                    index
                };
                if drag && index == 0 {
                    GestureStep::Request {
                        request: MouseRequest::Button {
                            button: Button::Left,
                            state: ButtonState::Down,
                        },
                    }
                } else if drag && index == 2 * steps {
                    GestureStep::Request {
                        request: MouseRequest::Button {
                            button: Button::Left,
                            state: ButtonState::Up,
                        },
                    }
                } else if place % 2 == 0 {
                    let done = place / 2;
                    GestureStep::Request {
                        request: MouseRequest::MoveRelative {
                            dx: (along(dx as int, done + 1, steps as int) - along(
                                dx as int,
                                done,
                                steps as int,
                            )) as i32,
                            dy: (along(dy as int, done + 1, steps as int) - along(
                                dy as int,
                                done,
                                steps as int,
                            )) as i32,
                        },
                    }
                } else {
                    GestureStep::Pause { nanoseconds: pause }
                }
            },
        }
    }

    /// The steps of the gesture.
    pub open spec fn script(self) -> Seq<GestureStep> {
        Seq::new(self.size() as nat, |index: int| self.step(index))
    }

    /// A motion has at least one step.
    pub open spec fn wf(self) -> bool {
        self matches GestureKind::Motion { steps, .. } ==> steps >= 1
    }
}

/// A gesture that is being made.
#[derive(Debug)]
pub struct Gesture<E> {
    pub kind: GestureKind,
    /// How many steps were made or given up.
    pub index: u64,
    /// The first error that a request met.
    pub failed: Option<E>,
}

impl<E> Gesture<E> {
    /// A motion has at least one step.
    pub open spec fn wf(self) -> bool {
        self.kind.wf()
    }

    /// Whether no step is left.
    pub open spec fn done(self) -> bool {
        self.index >= self.kind.size()
    }

    /// The gesture with its next step made.
    pub open spec fn advanced(self) -> Gesture<E> {
        Gesture { index: (self.index + 1) as u64, ..self }
    }

    /// The gesture with its next request made. After an error the rest is given
    /// up, except that a drag still releases the button once it was pressed.
    pub open spec fn after(self, outcome: Result<(), E>) -> Gesture<E> {
        match outcome {
            Ok(_) => self.advanced(),
            Err(error) => Gesture {
                index: match self.kind {
                    GestureKind::Motion { drag: true, .. } if 0 < self.index < self.kind.size()
                        - 1 => (self.kind.size() - 1) as u64,
                    _ => self.kind.size() as u64,
                },
                failed: if self.failed is Some {
                    self.failed
                } else {
                    Some(error)
                },
                ..self
            },
        }
    }
}

/// What became of a gesture.
#[derive(Debug)]
pub enum GestureProgress<E> {
    /// A request was made; there may be more.
    Continue,
    /// So many nanoseconds are to pass.
    Pause { nanoseconds: u128 },
    /// The gesture is over.
    Finished(Result<(), E>),
}

/// The distance stays in range and the last step ends it.
proof fn lemma_along(total: int, done: int, steps: int)
    requires
        0 <= done <= steps,
        steps >= 1,
    ensures
        total >= 0 ==> 0 <= along(total, done, steps) <= total,
        total <= 0 ==> total <= along(total, done, steps) <= 0,
        along(total, steps, steps) == total,
        along(total, 0, steps) == 0,
{
    let size = if total >= 0 {
        total
    } else {
        -total
    };
    assert(0 <= size * done <= size * steps) by (nonlinear_arith)
        requires
            0 <= done <= steps,
            0 <= size,
    ;
    vstd::arithmetic::div_mod::lemma_div_multiples_vanish(size, steps);
    assert(steps * size == size * steps) by (nonlinear_arith);
    vstd::arithmetic::div_mod::lemma_div_is_ordered(0, size * done, steps);
    vstd::arithmetic::div_mod::lemma_div_is_ordered(size * done, size * steps, steps);
    assert(0int / steps == 0) by (nonlinear_arith)
        requires
            steps >= 1,
    ;
    assert(size * 0 == 0);
}

/// Going further does not go back.
proof fn lemma_along_ordered(total: int, done: int, steps: int)
    requires
        0 <= done < steps,
    ensures
        total >= 0 ==> along(total, done, steps) <= along(total, done + 1, steps),
        total <= 0 ==> along(total, done + 1, steps) <= along(total, done, steps),
{
    let size = if total >= 0 {
        total
    } else {
        -total
    };
    assert(size * done <= size * (done + 1)) by (nonlinear_arith)
        requires
            0 <= size,
    ;
    vstd::arithmetic::div_mod::lemma_div_is_ordered(size * done, size * (done + 1), steps);
}

/// How far a movement has come.
fn come_along(total: i32, done: u32, steps: u32) -> (distance: i32)
    requires
        done <= steps,
        steps >= 1,
    ensures
        distance == along(total as int, done as int, steps as int),
{
    let size: u64 = if total >= 0 {
        total as u64
    } else {
        (-(total as i64)) as u64
    };
    assert(0 <= size * done <= 0x8000_0000 * 0xffff_ffff) by (nonlinear_arith)
        requires
            0 <= size <= 0x8000_0000,
            0 <= done <= 0xffff_ffff,
    ;
    proof {
        lemma_along(total as int, done as int, steps as int);
    }
    let covered: u64 = size * (done as u64) / (steps as u64);
    if total >= 0 {
        covered as i32
    } else {
        (-(covered as i64)) as i32
    }
}

impl GestureKind {
    /// The step at an index.
    fn step_at(self, index: u64) -> (step: GestureStep)
        requires
            self.wf(),
            index < self.size(),
        ensures
            step == self.step(index as int),
    {
        match self {
            GestureKind::Clicks { button, .. } => {
                if index % 3 == 0 {
                    GestureStep::Request {
                        request: MouseRequest::Button { button, state: ButtonState::Down },
                    }
                } else if index % 3 == 1 {
                    GestureStep::Pause { nanoseconds: CLICK_HOLD as u128 }
                } else {
                    GestureStep::Request {
                        request: MouseRequest::Button { button, state: ButtonState::Up },
                    }
                }
            },
            GestureKind::Motion { dx, dy, steps, pause, drag } => {
                if drag && index == 0 {
                    return GestureStep::Request {
                        request: MouseRequest::Button {
                            button: Button::Left,
                            state: ButtonState::Down,
                        },
                    };
                }
                if drag && index == 2 * (steps as u64) {
                    return GestureStep::Request {
                        request: MouseRequest::Button {
                            button: Button::Left,
                            state: ButtonState::Up,
                        },
                    };
                }
                let place: u64 = if drag {
                    index - 1
                } else {
                    index
                };
                if place % 2 == 0 {
                    let done: u32 = (place / 2) as u32;
                    proof {
                        lemma_along(dx as int, done as int, steps as int);
                        lemma_along(dx as int, done + 1, steps as int);
                        lemma_along_ordered(dx as int, done as int, steps as int);
                        lemma_along(dy as int, done as int, steps as int);
                        lemma_along(dy as int, done + 1, steps as int);
                        lemma_along_ordered(dy as int, done as int, steps as int);
                    }
                    let x: i32 = come_along(dx, done + 1, steps) - come_along(dx, done, steps);
                    let y: i32 = come_along(dy, done + 1, steps) - come_along(dy, done, steps);
                    GestureStep::Request { request: MouseRequest::MoveRelative { dx: x, dy: y } }
                } else {
                    GestureStep::Pause { nanoseconds: pause }
                }
            },
        }
    }

    /// How many steps there are.
    fn count(self) -> (size: u64)
        requires
            self.wf(),
        ensures
            size == self.size(),
    {
        match self {
            GestureKind::Clicks { count, .. } => 3 * (count as u64),
            GestureKind::Motion { steps, drag, .. } => if drag {
                2 * (steps as u64) + 1
            } else {
                2 * (steps as u64) - 1
            },
        }
    }
}

impl<B: MouseBackend> Controller<B> {
    /// What the mouse was asked for so far, and how each request went.
    pub open spec fn calls(&self) -> Seq<(MouseRequest, Result<(), B::Error>)> {
        self.backend.calls()
    }

    /// A controller of a mouse.
    pub fn new(backend: B) -> (controller: Self)
        ensures
            controller.backend == backend,
    {
        Controller { backend }
    }

    /// Presses a button.
    pub fn press(&mut self, button: Button) -> (outcome: Result<(), B::Error>)
        ensures
            final(self).calls() == old(self).calls().push(
                (MouseRequest::Button { button, state: ButtonState::Down }, outcome),
            ),
    {
        self.backend.button(button, ButtonState::Down)
    }

    /// Releases a button.
    pub fn release(&mut self, button: Button) -> (outcome: Result<(), B::Error>)
        ensures
            final(self).calls() == old(self).calls().push(
                (MouseRequest::Button { button, state: ButtonState::Up }, outcome),
            ),
    {
        self.backend.button(button, ButtonState::Up)
    }

    /// Moves by a distance in device units.
    pub fn move_relative(&mut self, dx: i32, dy: i32) -> (outcome: Result<(), B::Error>)
        ensures
            final(self).calls() == old(self).calls().push(
                (MouseRequest::MoveRelative { dx, dy }, outcome),
            ),
    {
        self.backend.move_relative(dx, dy)
    }

    /// Moves to normalized desktop coordinates, where 65535 is the far edge.
    pub fn move_absolute(&mut self, x: u16, y: u16) -> (outcome: Result<(), B::Error>)
        ensures
            final(self).calls() == old(self).calls().push(
                (MouseRequest::MoveAbsolute { x, y }, outcome),
            ),
    {
        self.backend.move_absolute(x, y)
    }

    /// Moves to the upper left corner of the desktop.
    pub fn home(&mut self) -> (outcome: Result<(), B::Error>)
        ensures
            final(self).calls() == old(self).calls().push(
                (MouseRequest::MoveAbsolute { x: 0, y: 0 }, outcome),
            ),
    {
        self.move_absolute(0, 0)
    }

    /// Turns the vertical wheel.
    pub fn wheel(&mut self, delta: i32) -> (outcome: Result<(), B::Error>)
        ensures
            final(self).calls() == old(self).calls().push(
                (MouseRequest::Wheel { delta, horizontal: false }, outcome),
            ),
    {
        self.backend.wheel(delta, false)
    }

    /// Turns the horizontal wheel.
    pub fn horizontal_wheel(&mut self, delta: i32) -> (outcome: Result<(), B::Error>)
        ensures
            final(self).calls() == old(self).calls().push(
                (MouseRequest::Wheel { delta, horizontal: true }, outcome),
            ),
    {
        self.backend.wheel(delta, true)
    }

    /// Makes one request.
    pub fn send(&mut self, request: MouseRequest) -> (outcome: Result<(), B::Error>)
        ensures
            final(self).calls() == old(self).calls().push((request, outcome)),
    {
        match request {
            MouseRequest::Button { button, state } => self.backend.button(button, state),
            MouseRequest::MoveRelative { dx, dy } => self.backend.move_relative(dx, dy),
            MouseRequest::MoveAbsolute { x, y } => self.backend.move_absolute(x, y),
            MouseRequest::Wheel { delta, horizontal } => self.backend.wheel(delta, horizontal),
        }
    }

    /// Begins to click a button so many times.
    pub fn clicks(&self, button: Button, count: u32) -> (gesture: Gesture<B::Error>)
        ensures
            gesture == (Gesture::<B::Error> {
                kind: GestureKind::Clicks { button, count },
                index: 0,
                failed: None,
            }),
    {
        Gesture { kind: GestureKind::Clicks { button, count }, index: 0, failed: None }
    }

    /// Begins to click a button.
    pub fn click(&self, button: Button) -> (gesture: Gesture<B::Error>)
        ensures
            gesture == (Gesture::<B::Error> {
                kind: GestureKind::Clicks { button, count: 1 },
                index: 0,
                failed: None,
            }),
    {
        self.clicks(button, 1)
    }

    /// Begins to click a button twice.
    pub fn double_click(&self, button: Button) -> (gesture: Gesture<B::Error>)
        ensures
            gesture == (Gesture::<B::Error> {
                kind: GestureKind::Clicks { button, count: 2 },
                index: 0,
                failed: None,
            }),
    {
        self.clicks(button, 2)
    }

    /// Begins to move by a distance within a time. `ticks` is how many steps of
    /// 1/120 second the time takes, rounded up; there is at least one step.
    pub fn move_relative_over(
        &self,
        dx: i32,
        dy: i32,
        nanoseconds: u128,
        ticks: u32,
    ) -> (gesture: Gesture<B::Error>)
        ensures
            gesture == (Gesture::<B::Error> {
                kind: motion(dx, dy, nanoseconds, ticks, false),
                index: 0,
                failed: None,
            }),
            gesture.wf(),
    {
        Gesture {
            kind: begin_motion(dx, dy, nanoseconds, ticks, false),
            index: 0,
            failed: None,
        }
    }

    /// Begins to drag by a distance within a time, with the left button.
    pub fn drag_relative(
        &self,
        dx: i32,
        dy: i32,
        nanoseconds: u128,
        ticks: u32,
    ) -> (gesture: Gesture<B::Error>)
        ensures
            gesture == (Gesture::<B::Error> {
                kind: motion(dx, dy, nanoseconds, ticks, true),
                index: 0,
                failed: None,
            }),
            gesture.wf(),
    {
        Gesture { kind: begin_motion(dx, dy, nanoseconds, ticks, true), index: 0, failed: None }
    }

    /// Makes the next step of a gesture. A pause is left to the caller, who comes
    /// back when it has passed.
    pub fn resume(&mut self, gesture: &mut Gesture<B::Error>) -> (progress: GestureProgress<
        B::Error,
    >)
        requires
            old(gesture).wf(),
        ensures
            final(gesture).wf(),
            if old(gesture).done() {
                &&& progress matches GestureProgress::Finished(outcome) && keyboard::failure(outcome)
                    == old(gesture).failed
                &&& *final(gesture) == (Gesture { failed: None, ..*old(gesture) })
                &&& final(self).calls() == old(self).calls()
            } else {
                match old(gesture).kind.script()[old(gesture).index as int] {
                    GestureStep::Pause { nanoseconds } => {
                        &&& progress == (GestureProgress::<B::Error>::Pause { nanoseconds })
                        &&& *final(gesture) == old(gesture).advanced()
                        &&& final(self).calls() == old(self).calls()
                    },
                    GestureStep::Request { request } => {
                        let outcome = final(self).calls().last().1;
                        &&& progress is Continue
                        &&& final(self).calls() == old(self).calls().push((request, outcome))
                        &&& *final(gesture) == old(gesture).after(outcome)
                    },
                }
            },
    {
        let size: u64 = gesture.kind.count();
        if gesture.index >= size {
            return match gesture.failed.take() {
                Some(error) => GestureProgress::Finished(Err(error)),
                None => GestureProgress::Finished(Ok(())),
            };
        }
        match gesture.kind.step_at(gesture.index) {
            GestureStep::Pause { nanoseconds } => {
                gesture.index += 1;
                GestureProgress::Pause { nanoseconds }
            },
            GestureStep::Request { request } => {
                match self.send(request) {
                    Ok(_) => {
                        gesture.index += 1;
                    },
                    Err(error) => {
                        gesture.index = match gesture.kind {
                            GestureKind::Motion { drag: true, .. } if 0 < gesture.index
                                && gesture.index < size - 1 => size - 1,
                            _ => size,
                        };
                        if gesture.failed.is_none() {
                            gesture.failed = Some(error);
                        }
                    },
                }
                GestureProgress::Continue
            },
        }
    }
}

/// A movement by a distance within a time: one step for each tick, at least one,
/// and the time shared out between them.
pub open spec fn motion(dx: i32, dy: i32, nanoseconds: u128, ticks: u32, drag: bool) -> GestureKind {
    let steps = if ticks == 0 {
        1u32
    } else {
        ticks
    };
    GestureKind::Motion { dx, dy, steps, pause: (nanoseconds / steps as u128) as u128, drag }
}

/// A movement by a distance within a time.
pub fn begin_motion(dx: i32, dy: i32, nanoseconds: u128, ticks: u32, drag: bool) -> (kind: GestureKind)
    ensures
        kind == motion(dx, dy, nanoseconds, ticks, drag),
        kind.wf(),
{
    let steps: u32 = if ticks == 0 {
        1
    } else {
        ticks
    };
    GestureKind::Motion { dx, dy, steps, pause: nanoseconds / (steps as u128), drag }
}

/// How far the requests of a gesture move the mouse to the right.
pub open spec fn moved_right(steps: Seq<GestureStep>) -> int
    decreases steps.len(),
{
    if steps.len() == 0 {
        0
    } else {
        moved_right(steps.drop_last()) + match steps.last() {
            GestureStep::Request { request: MouseRequest::MoveRelative { dx, .. } } => dx as int,
            _ => 0,
        }
    }
}

/// How far the requests of a gesture move the mouse down.
pub open spec fn moved_down(steps: Seq<GestureStep>) -> int
    decreases steps.len(),
{
    if steps.len() == 0 {
        0
    } else {
        moved_down(steps.drop_last()) + match steps.last() {
            GestureStep::Request { request: MouseRequest::MoveRelative { dy, .. } } => dy as int,
            _ => 0,
        }
    }
}

/// How far the first steps of a motion lead.
proof fn lemma_moved(kind: GestureKind, taken: int)
    requires
        kind.wf(),
        kind is Motion,
        0 <= taken <= kind.size(),
    ensures
        ({
            let done = if kind->drag {
                taken / 2
            } else {
                (taken + 1) / 2
            };
            &&& moved_right(kind.script().take(taken)) == along(
                kind->dx as int,
                done,
                kind->steps as int,
            )
            &&& moved_down(kind.script().take(taken)) == along(
                kind->dy as int,
                done,
                kind->steps as int,
            )
        }),
    decreases taken,
{
    let steps = kind->steps as int;
    lemma_along(kind->dx as int, 0, steps);
    lemma_along(kind->dy as int, 0, steps);
    if taken > 0 {
        lemma_moved(kind, taken - 1);
        let script = kind.script();
        assert(script.take(taken).drop_last() == script.take(taken - 1));
        assert(script.take(taken).last() == kind.step(taken - 1));
        let place = if kind->drag {
            taken - 2
        } else {
            taken - 1
        };
        if place >= 0 && place % 2 == 0 && place / 2 < steps {
            let done = place / 2;
            lemma_along(kind->dx as int, done, steps);
            lemma_along(kind->dx as int, done + 1, steps);
            lemma_along_ordered(kind->dx as int, done, steps);
            lemma_along(kind->dy as int, done, steps);
            lemma_along(kind->dy as int, done + 1, steps);
            lemma_along_ordered(kind->dy as int, done, steps);
        }
    }
}

/// A motion ends exactly at its destination, whatever its number of steps: its
/// requests together move the mouse by the whole distance.
pub proof fn law_motion_reaches_destination(
    dx: i32,
    dy: i32,
    nanoseconds: u128,
    ticks: u32,
    drag: bool,
)
    ensures
        moved_right(motion(dx, dy, nanoseconds, ticks, drag).script()) == dx,
        moved_down(motion(dx, dy, nanoseconds, ticks, drag).script()) == dy,
{
    let kind = motion(dx, dy, nanoseconds, ticks, drag);
    lemma_moved(kind, kind.size());
    assert(kind.script().take(kind.size()) == kind.script());
    lemma_along(dx as int, kind->steps as int, kind->steps as int);
    lemma_along(dy as int, kind->steps as int, kind->steps as int);
}

/// A drag whose press went through ends with a release: each step after the press
/// leaves the release still to come, also where a movement fails, and the release
/// is the last step.
pub proof fn law_drag_releases<E>(gesture: Gesture<E>, outcome: Result<(), E>)
    requires
        gesture.wf(),
        gesture.kind matches GestureKind::Motion { drag: true, .. },
        0 < gesture.index < gesture.kind.size(),
    ensures
        gesture.index < gesture.kind.size() - 1 ==> {
            &&& 0 < gesture.advanced().index < gesture.kind.size()
            &&& 0 < gesture.after(outcome).index < gesture.kind.size()
        },
        gesture.index == gesture.kind.size() - 1 ==> gesture.kind.script()[gesture.index as int]
            == (GestureStep::Request {
            request: MouseRequest::Button { button: Button::Left, state: ButtonState::Up },
        }),
{
}

/// The error that a gesture ends with is the first that it met.
pub proof fn law_gesture_keeps_first_error<E>(gesture: Gesture<E>, outcome: Result<(), E>)
    ensures
        gesture.failed is Some ==> gesture.after(outcome).failed == gesture.failed,
        gesture.failed is None ==> gesture.after(outcome).failed == keyboard::failure(outcome),
{
}

/// A click presses the button, holds it for 20 ms and releases it.
pub proof fn law_click_holds_the_button(button: Button)
    ensures
        (GestureKind::Clicks { button, count: 1 }).script() == seq![
            GestureStep::Request {
                request: MouseRequest::Button { button, state: ButtonState::Down },
            },
            GestureStep::Pause { nanoseconds: 20_000_000 },
            GestureStep::Request {
                request: MouseRequest::Button { button, state: ButtonState::Up },
            },
        ],
{
    let script = (GestureKind::Clicks { button, count: 1 }).script();
    assert(script.len() == 3);
    assert(0int % 3 == 0 && 1int % 3 == 1 && 2int % 3 == 2);
}

/// Clicking more often is clicking that many times in a row.
pub proof fn law_clicks_follow_each_other(button: Button, first: u32, second: u32)
    requires
        first + second <= u32::MAX,
    ensures
        (GestureKind::Clicks { button, count: (first + second) as u32 }).script() == (
        GestureKind::Clicks { button, count: first }).script() + (GestureKind::Clicks {
            button,
            count: second,
        }).script(),
{
    let all = GestureKind::Clicks { button, count: (first + second) as u32 };
    let one = GestureKind::Clicks { button, count: first };
    let other = GestureKind::Clicks { button, count: second };
    let rest = one.script() + other.script();
    assert(all.script().len() == rest.len());
    assert forall|index: int| 0 <= index < all.script().len() implies #[trigger] all.script()[index]
        == rest[index] by {
        lemma_click_step(button, first, second, index);
    }
}

/// A step of some clicks is the step of the first of them, or of those that follow.
proof fn lemma_click_step(button: Button, first: u32, second: u32, index: int)
    requires
        first + second <= u32::MAX,
        0 <= index < 3 * (first + second),
    ensures
        (GestureKind::Clicks { button, count: (first + second) as u32 }).step(index) == if index < 3
            * first {
            (GestureKind::Clicks { button, count: first }).step(index)
        } else {
            (GestureKind::Clicks { button, count: second }).step(index - 3 * first)
        },
{
    if index >= 3 * first {
        vstd::arithmetic::div_mod::lemma_mod_multiples_vanish(first as int, index - 3 * first, 3);
    }
}

/// A motion moves and waits in turn: as many movements as there are ticks, at least one,
/// and a wait between any two, each a share of the time. A drag presses the left button
/// before the first movement and releases it after the last.
pub proof fn law_motion_moves_and_waits_in_turn(
    dx: i32,
    dy: i32,
    nanoseconds: u128,
    ticks: u32,
    index: int,
)
    requires
        0 <= index < 2 * ticks - 1 || ticks == 0 && index == 0,
    ensures
        ({
            let steps = if ticks == 0 {
                1
            } else {
                ticks as int
            };
            let plain = motion(dx, dy, nanoseconds, ticks, false).script();
            let dragged = motion(dx, dy, nanoseconds, ticks, true).script();
            &&& plain.len() == 2 * steps - 1
            &&& dragged.len() == plain.len() + 2
            &&& dragged[index + 1] == plain[index]
            &&& dragged[0] == (GestureStep::Request {
                request: MouseRequest::Button { button: Button::Left, state: ButtonState::Down },
            })
            &&& dragged.last() == (GestureStep::Request {
                request: MouseRequest::Button { button: Button::Left, state: ButtonState::Up },
            })
            &&& index % 2 == 0 ==> (plain[index] matches GestureStep::Request {
                request: MouseRequest::MoveRelative { .. },
            })
            &&& index % 2 == 1 ==> (plain[index] matches GestureStep::Pause { nanoseconds: pause }
                && pause * steps <= nanoseconds < (pause + 1) * steps)
        }),
{
    let steps: u32 = if ticks == 0 {
        1
    } else {
        ticks
    };
    let pause = nanoseconds / steps as u128;
    vstd::arithmetic::div_mod::lemma_fundamental_div_mod(nanoseconds as int, steps as int);
    vstd::arithmetic::div_mod::lemma_mod_bound(nanoseconds as int, steps as int);
    assert(pause * steps == steps * pause) by (nonlinear_arith);
    assert((pause + 1) * steps == pause * steps + steps) by (nonlinear_arith);
    assert((index + 1) - 1 == index);
}

/// A motion goes straight: after each of its movements the mouse has come as far as that
/// share of the whole distance, less than one unit short of it, on both axes.
pub proof fn law_motion_goes_straight(
    dx: i32,
    dy: i32,
    nanoseconds: u128,
    ticks: u32,
    movements: int,
)
    requires
        ticks > 0,
        1 <= movements <= ticks,
    ensures
        ({
            let begun = motion(dx, dy, nanoseconds, ticks, false).script().take(2 * movements - 1);
            &&& close_to_share(moved_right(begun), dx as int, movements, ticks as int)
            &&& close_to_share(moved_down(begun), dy as int, movements, ticks as int)
        }),
{
    let kind = motion(dx, dy, nanoseconds, ticks, false);
    lemma_moved(kind, 2 * movements - 1);
    assert((2 * movements - 1 + 1) / 2 == movements);
    lemma_share(dx as int, movements, ticks as int);
    lemma_share(dy as int, movements, ticks as int);
}

/// Whether a distance is `part` of `whole` shares of a total one, with what is less than a
/// unit left out.
pub open spec fn close_to_share(distance: int, total: int, part: int, whole: int) -> bool {
    &&& total >= 0 ==> distance * whole <= total * part < (distance + 1) * whole
    &&& total <= 0 ==> (distance - 1) * whole < total * part <= distance * whole
}

/// A distance along a motion is its share.
proof fn lemma_share(total: int, part: int, whole: int)
    requires
        whole >= 1,
        0 <= part <= whole,
    ensures
        close_to_share(along(total, part, whole), total, part, whole),
{
    let size = if total >= 0 {
        total
    } else {
        -total
    };
    let come = size * part / whole;
    vstd::arithmetic::div_mod::lemma_fundamental_div_mod(size * part, whole);
    vstd::arithmetic::div_mod::lemma_mod_bound(size * part, whole);
    assert(come * whole == whole * come) by (nonlinear_arith);
    assert((come + 1) * whole == come * whole + whole) by (nonlinear_arith);
    assert((-come) * whole == -(come * whole)) by (nonlinear_arith);
    assert((-come - 1) * whole == -((come + 1) * whole)) by (nonlinear_arith);
    assert((-size) * part == -(size * part)) by (nonlinear_arith);
    if total == 0 {
        assert(size * part == 0) by (nonlinear_arith)
            requires
                size == 0,
        ;
    }
}

/// After an error nothing is left to do, but for the release of a drag that has pressed
/// its button and not yet released it: that comes next.
pub proof fn law_error_ends_the_gesture<E>(gesture: Gesture<E>, error: E)
    requires
        gesture.wf(),
        !gesture.done(),
    ensures
        ({
            let next = gesture.after(Err(error));
            let release = gesture.kind.size() - 1;
            &&& next.kind == gesture.kind
            &&& if (gesture.kind matches GestureKind::Motion { drag: true, .. }) && 0 < gesture.index
                < release {
                next.index == release
            } else {
                next.done()
            }
        }),
        gesture.after(Ok(())) == gesture.advanced(),
        gesture.advanced().index == gesture.index + 1,
        gesture.advanced().kind == gesture.kind,
{
}

/// A gesture is over after its last step and not before.
pub proof fn law_gesture_is_over_after_its_last_step<E>(gesture: Gesture<E>)
    requires
        gesture.wf(),
    ensures
        gesture.done() <==> gesture.index >= gesture.kind.script().len(),
        gesture.kind.script().len() == gesture.kind.size(),
{
}

} // verus!
