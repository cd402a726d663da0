//! Playing recordings of the mouse.

use crate::controller::{Controller, MouseBackend, MouseRequest, CLICK_HOLD};
use crate::event::{Button, ButtonState, MouseEvent, Timestamp};
use crate::playback::{PlaybackStep, Speed};
use vstd::prelude::*;

verus! {

/// Which events of a recording are played.
#[derive(Clone, Copy, Debug, Eq, PartialEq, Structural)]
pub struct PlaybackFilter {
    pub buttons: bool,
    pub movement: bool,
    pub wheel: bool,
}

impl PlaybackFilter {
    /// Whether an event is played.
    pub open spec fn passes(self, event: MouseEvent) -> bool {
        match event {
            MouseEvent::Button { .. } => self.buttons,
            MouseEvent::Move { .. } => self.movement,
            MouseEvent::Wheel { .. } => self.wheel,
        }
    }
}

impl Default for PlaybackFilter {
    /// Every event is played.
    fn default() -> (filter: Self)
        ensures
            filter.buttons && filter.movement && filter.wheel,
    {
        PlaybackFilter { buttons: true, movement: true, wheel: true }
    }
}

/// The place of a button among the five.
pub open spec fn place_of(button: Button) -> int {
    match button {
        Button::Left => 0,
        Button::Right => 1,
        Button::Middle => 2,
        Button::Side => 3,
        Button::Extra => 4,
    }
}

/// The place of a button among the five.
pub fn button_index(button: Button) -> (index: usize)
    ensures
        index == place_of(button),
        index < 5,
{
    match button {
        Button::Left => 0,
        Button::Right => 1,
        Button::Middle => 2,
        Button::Side => 3,
        Button::Extra => 4,
    }
}

/// What a mouse recording asks for next.
#[derive(Clone, Copy, Debug, Eq, PartialEq, Structural)]
pub enum MouseDue {
    Nothing,
    Delay { from: Timestamp, to: Timestamp },
    Skip,
    Hold { nanoseconds: u64 },
    Send { request: MouseRequest },
}

/// How far the next event of a recording has come.
#[derive(Clone, Copy, Debug, Eq, PartialEq, Structural)]
pub enum Phase {
    /// The time before it is still to pass.
    Early,
    /// The time before it has passed.
    Delayed,
    /// The button that it releases was held long enough.
    Held,
}

/// A mouse recording that is being played.
pub struct MousePlayback {
    pub events: Vec<MouseEvent>,
    pub speed: Speed,
    pub filter: PlaybackFilter,
    /// How many events were dealt with.
    pub index: usize,
    pub phase: Phase,
    /// The button that was pressed last, while the time of that is not noted.
    pub pressed: Option<Button>,
    /// When each button went down, in nanoseconds.
    pub down: [Option<u128>; 5],
}

/// The request that sends an event.
pub open spec fn request_of(event: MouseEvent) -> MouseRequest {
    match event {
        MouseEvent::Button { button, state, .. } => MouseRequest::Button { button, state },
        MouseEvent::Move { dx, dy, .. } => MouseRequest::MoveRelative { dx, dy },
        MouseEvent::Wheel { delta, horizontal, .. } => MouseRequest::Wheel { delta, horizontal },
    }
}

/// How much longer a button is to be held that went down at a time, for a hold of
/// 20 ms in all.
pub open spec fn hold_left(since: Option<u128>, now: u128) -> int {
    match since {
        None => 0,
        Some(then_down) => {
            let elapsed = if now > then_down {
                now - then_down
            } else {
                0
            };
            if elapsed < CLICK_HOLD {
                CLICK_HOLD - elapsed
            } else {
                0
            }
        },
    }
}

impl MousePlayback {
    /// When the buttons went down, with the last press noted at a time.
    pub open spec fn noted(self, now: u128) -> Seq<Option<u128>> {
        match self.pressed {
            Some(button) => self.down@.update(place_of(button), Some(now)),
            None => self.down@,
        }
    }

    /// What is due next: each event comes after the time that lay before it in
    /// the recording, unless the speed is zero or it is the first, and a button
    /// is released no sooner than 20 ms after it was pressed.
    pub open spec fn due(self, now: u128) -> MouseDue {
        if self.index >= self.events@.len() {
            MouseDue::Nothing
        } else {
            let event = self.events@[self.index as int];
            if self.speed.positive() && self.index > 0 && self.phase is Early {
                MouseDue::Delay {
                    from: self.events@[self.index - 1].happened(),
                    to: event.happened(),
                }
            } else if !self.filter.passes(event) {
                MouseDue::Skip
            } else if self.phase !is Held && (event matches MouseEvent::Button {
                button,
                state: ButtonState::Up,
                ..
            } && hold_left(self.noted(now)[place_of(button)], now) > 0) {
                MouseDue::Hold {
                    nanoseconds: hold_left(
                        self.noted(now)[place_of(event->button)],
                        now,
                    ) as u64,
                }
            } else {
                MouseDue::Send { request: request_of(event) }
            }
        }
    }

    /// The events that are still to be sent.
    pub open spec fn remaining(self) -> Seq<MouseEvent> {
        if self.index < self.events@.len() {
            self.events@.skip(self.index as int).filter(
                |event: MouseEvent| self.filter.passes(event),
            )
        } else {
            Seq::empty()
        }
    }

    /// Whether a recording is the same but for how far it was played.
    pub open spec fn same_recording(self, other: MousePlayback) -> bool {
        &&& self.events == other.events
        &&& self.speed == other.speed
        &&& self.filter == other.filter
    }
}

/// When the buttons are known to have gone down after a request was made.
pub open spec fn down_after(down: Seq<Option<u128>>, request: MouseRequest) -> Seq<Option<u128>> {
    match request {
        MouseRequest::Button { button, state: ButtonState::Up } => down.update(
            place_of(button),
            None,
        ),
        _ => down,
    }
}

/// The button that a request presses.
pub open spec fn presses(request: MouseRequest) -> Option<Button> {
    match request {
        MouseRequest::Button { button, state: ButtonState::Down } => Some(button),
        _ => None,
    }
}

impl<B: MouseBackend> Controller<B> {
    /// Begins to play a recording.
    pub fn play(&self, events: Vec<MouseEvent>, speed: Speed, filter: PlaybackFilter) -> (playback:
        MousePlayback)
        ensures
            playback.events == events,
            playback.speed == speed,
            playback.filter == filter,
            playback.index == 0,
            playback.phase is Early,
            playback.pressed is None,
            playback.down@ == seq![None::<u128>, None, None, None, None],
    {
        MousePlayback {
            events,
            speed,
            filter,
            index: 0,
            phase: Phase::Early,
            pressed: None,
            down: [None, None, None, None, None],
        }
    }

    /// Does what is due next in a recording at the time `now`, in nanoseconds. A
    /// delay or a hold is left to the caller, who comes back when it has passed.
    /// An event that cannot be sent ends the recording.
    pub fn resume_playback(&mut self, playback: &mut MousePlayback, now: u128) -> (step:
        PlaybackStep<B::Error>)
        ensures
            final(playback).same_recording(*old(playback)),
            match old(playback).due(now) {
                MouseDue::Nothing => {
                    &&& step matches PlaybackStep::Finished(outcome) && outcome is Ok
                    &&& final(playback).index == old(playback).index
                    &&& final(self).calls() == old(self).calls()
                },
                MouseDue::Delay { from, to } => {
                    &&& step == (PlaybackStep::<B::Error>::Delay { from, to })
                    &&& final(playback).index == old(playback).index
                    &&& final(playback).phase is Delayed
                    &&& final(playback).pressed is None
                    &&& final(playback).down@ == old(playback).noted(now)
                    &&& final(self).calls() == old(self).calls()
                },
                MouseDue::Skip => {
                    &&& step is Continue
                    &&& final(playback).index == old(playback).index + 1
                    &&& final(playback).phase is Early
                    &&& final(playback).pressed is None
                    &&& final(playback).down@ == old(playback).noted(now)
                    &&& final(self).calls() == old(self).calls()
                },
                MouseDue::Hold { nanoseconds } => {
                    &&& step == (PlaybackStep::<B::Error>::Hold { nanoseconds })
                    &&& final(playback).index == old(playback).index
                    &&& final(playback).phase is Held
                    &&& final(playback).pressed is None
                    &&& final(playback).down@ == old(playback).noted(now)
                    &&& final(self).calls() == old(self).calls()
                },
                MouseDue::Send { request } => {
                    let outcome = final(self).calls().last().1;
                    &&& final(self).calls() == old(self).calls().push((request, outcome))
                    &&& match outcome {
                        Ok(_) => {
                            &&& step is Continue
                            &&& final(playback).index == old(playback).index + 1
                            &&& final(playback).phase is Early
                            &&& final(playback).pressed == presses(request)
                            &&& final(playback).down@ == down_after(
                                old(playback).noted(now),
                                request,
                            )
                        },
                        Err(error) => {
                            &&& step == PlaybackStep::Finished(Err::<(), B::Error>(error))
                            &&& final(playback).index == old(playback).events@.len()
                        },
                    }
                },
            },
    {
        match playback.pressed {
            Some(button) => {
                playback.down[button_index(button)] = Some(now);
                playback.pressed = None;
            },
            None => {},
        }
        if playback.index >= playback.events.len() {
            return PlaybackStep::Finished(Ok(()));
        }
        let event: MouseEvent = playback.events[playback.index];
        if playback.speed.is_positive() && playback.index > 0 && matches!(playback.phase, Phase::Early) {
            playback.phase = Phase::Delayed;
            return PlaybackStep::Delay {
                from: playback.events[playback.index - 1].timestamp(),
                to: event.timestamp(),
            };
        }
        let (passes, request): (bool, MouseRequest) = match event {
            MouseEvent::Button { button, state, .. } => (
                playback.filter.buttons,
                MouseRequest::Button { button, state },
            ),
            MouseEvent::Move { dx, dy, .. } => (
                playback.filter.movement,
                MouseRequest::MoveRelative { dx, dy },
            ),
            MouseEvent::Wheel { delta, horizontal, .. } => (
                playback.filter.wheel,
                MouseRequest::Wheel { delta, horizontal },
            ),
        };
        if !passes {
            playback.index += 1;
            playback.phase = Phase::Early;
            return PlaybackStep::Continue;
        }
        if let MouseEvent::Button { button, state: ButtonState::Up, .. } = event {
            if !matches!(playback.phase, Phase::Held) {
                let since: Option<u128> = playback.down[button_index(button)];
                let left: u64 = match since {
                    None => 0,
                    Some(then_down) => {
                        let elapsed: u128 = if now > then_down {
                            now - then_down
                        } else {
                            0
                        };
                        if elapsed < CLICK_HOLD as u128 {
                            CLICK_HOLD - elapsed as u64
                        } else {
                            0
                        }
                    },
                };
                if left > 0 {
                    playback.phase = Phase::Held;
                    return PlaybackStep::Hold { nanoseconds: left };
                }
            }
        }
        match self.send(request) {
            Ok(_) => {
                match request {
                    MouseRequest::Button { button, state: ButtonState::Down } => {
                        playback.pressed = Some(button);
                    },
                    MouseRequest::Button { button, state: ButtonState::Up } => {
                        playback.down[button_index(button)] = None;
                    },
                    _ => {},
                }
                playback.index += 1;
                playback.phase = Phase::Early;
                PlaybackStep::Continue
            },
            Err(error) => {
                playback.index = playback.events.len();
                PlaybackStep::Finished(Err(error))
            },
        }
    }
}

/// A recording is sent in order, each event that passes the filter once: what is
/// left to send is the event that is due, then what is left after it. A skipped
/// event leaves it as it is.
pub proof fn law_mouse_playback_keeps_order(playback: MousePlayback, next: MousePlayback, now: u128)
    requires
        next.same_recording(playback),
        next.index == playback.index + 1,
    ensures
        match playback.due(now) {
            MouseDue::Nothing => playback.remaining().len() == 0,
            MouseDue::Skip => next.remaining() == playback.remaining(),
            MouseDue::Send { request } => {
                let event = playback.events@[playback.index as int];
                &&& request == request_of(event)
                &&& playback.remaining() == seq![event] + next.remaining()
            },
            _ => true,
        },
{
    let test = |event: MouseEvent| playback.filter.passes(event);
    assert((|event: MouseEvent| next.filter.passes(event)) =~= test);
    if playback.index < playback.events@.len() {
        let event = playback.events@[playback.index as int];
        let rest = playback.events@.skip(playback.index + 1);
        assert(playback.events@.skip(playback.index as int) == seq![event] + rest);
        Seq::filter_distributes_over_add(seq![event], rest, test);
        reveal(Seq::filter);
        assert(seq![event].drop_last() =~= Seq::empty());
        assert(Seq::<MouseEvent>::empty().filter(test) =~= Seq::empty());
        assert(seq![event] =~= Seq::<MouseEvent>::empty().push(event));
        if playback.index + 1 == playback.events@.len() {
            assert(rest =~= Seq::empty());
        }
        assert(next.remaining() == rest.filter(test));
    }
}

/// A button whose press was noted is held for 20 ms in all: where its release is
/// due, the time since the press and what is still asked for come to at least that,
/// and a release without a hold comes no sooner.
pub proof fn law_playback_holds_buttons(
    playback: MousePlayback,
    button: Button,
    since: u128,
    now: u128,
)
    requires
        playback.index < playback.events@.len(),
        playback.events@[playback.index as int] matches MouseEvent::Button {
            button: released,
            state: ButtonState::Up,
            ..
        } && released == button,
        playback.noted(now)[place_of(button)] == Some(since),
        since <= now,
        playback.phase !is Held,
    ensures
        playback.due(now) matches MouseDue::Hold { nanoseconds } ==> now - since + nanoseconds
            == CLICK_HOLD,
        playback.due(now) is Send ==> now - since >= CLICK_HOLD,
{
}

/// At speed zero a recording has no delays.
pub proof fn law_mouse_playback_at_speed_zero(playback: MousePlayback, now: u128)
    requires
        playback.speed == (Speed { bits: 0 }),
    ensures
        playback.due(now) !is Delay,
{
}

/// When an event of a recording happened.
pub open spec fn time_of(event: MouseEvent) -> Timestamp {
    match event {
        MouseEvent::Button { button: _, state: _, time } => time,
        MouseEvent::Move { dx: _, dy: _, time } => time,
        MouseEvent::Wheel { delta: _, horizontal: _, time } => time,
    }
}

/// A wait lies between two events that follow each other: it is due before every event but
/// the first where the speed is above zero, once, and lasts from the time of the event
/// before to the time of the event itself.
pub proof fn law_wait_lies_between_neighbours(playback: MousePlayback, now: u128)
    ensures
        playback.due(now) is Delay <==> playback.speed.positive() && 0 < playback.index
            < playback.events@.len() && playback.phase is Early,
        playback.due(now) matches MouseDue::Delay { from, to } ==> {
            &&& from == time_of(playback.events@[playback.index - 1])
            &&& to == time_of(playback.events@[playback.index as int])
        },
{
}

/// How long the waits before the events of a recording up to a place are in all, by a
/// clock.
pub open spec fn waited(
    playback: MousePlayback,
    clock: spec_fn(Timestamp) -> int,
    now: u128,
    place: nat,
) -> int
    decreases place,
{
    if place == 0 {
        0
    } else {
        waited(playback, clock, now, (place - 1) as nat) + match (MousePlayback {
            index: place as usize,
            phase: Phase::Early,
            ..playback
        }).due(now) {
            MouseDue::Delay { from, to } => clock(to) - clock(from),
            _ => 0,
        }
    }
}

/// The waits before the events of a recording up to one of them add up to the time from
/// the first event to that one, by whatever clock.
pub proof fn law_waits_add_up(
    playback: MousePlayback,
    clock: spec_fn(Timestamp) -> int,
    now: u128,
    place: nat,
)
    requires
        playback.speed.positive(),
        place < playback.events@.len(),
    ensures
        waited(playback, clock, now, place) == clock(time_of(playback.events@[place as int]))
            - clock(time_of(playback.events@[0])),
    decreases place,
{
    assert(playback.events@.len() == playback.events.len());
    if place > 0 {
        law_waits_add_up(playback, clock, now, (place - 1) as nat);
    }
}

/// An event is passed over where its kind is left out: presses and releases, movements,
/// turns of the wheel. Any other is sent as it was recorded, unless it has to wait.
pub proof fn law_kinds_are_left_out(playback: MousePlayback, now: u128)
    requires
        playback.index < playback.events@.len(),
        playback.phase is Delayed || playback.phase is Held || playback.index == 0,
    ensures
        match playback.events@[playback.index as int] {
            MouseEvent::Move { dx, dy, .. } => playback.due(now) == if playback.filter.movement {
                MouseDue::Send { request: MouseRequest::MoveRelative { dx, dy } }
            } else {
                MouseDue::Skip
            },
            MouseEvent::Wheel { delta, horizontal, .. } => playback.due(now)
                == if playback.filter.wheel {
                MouseDue::Send { request: MouseRequest::Wheel { delta, horizontal } }
            } else {
                MouseDue::Skip
            },
            MouseEvent::Button { button, state, .. } => {
                &&& !playback.filter.buttons <==> playback.due(now) is Skip
                &&& playback.filter.buttons && (state is Down || playback.phase is Held)
                    ==> playback.due(now) == (MouseDue::Send {
                    request: MouseRequest::Button { button, state },
                })
                &&& playback.due(now) matches MouseDue::Send { request } ==> request == (
                MouseRequest::Button { button, state })
            },
        },
{
}

/// A press is noted for its own button, and for no other: two buttons have two places
/// among the five.
pub proof fn law_press_is_noted(playback: MousePlayback, other: Button, now: u128)
    ensures
        0 <= place_of(other) < 5,
        match playback.pressed {
            None => playback.noted(now) == playback.down@,
            Some(button) => playback.noted(now)[place_of(other)] == if other == button {
                Some(now)
            } else {
                playback.down@[place_of(other)]
            },
        },
{
}

/// Only a press is noted as one, of the button that it is about, and a release takes the
/// time of its own button back and leaves the others.
pub proof fn law_release_is_forgotten(
    down: Seq<Option<u128>>,
    button: Button,
    other: Button,
    state: ButtonState,
    first: i32,
    second: i32,
    horizontal: bool,
)
    requires
        down.len() == 5,
    ensures
        presses(MouseRequest::Button { button, state }) == if state is Down {
            Some(button)
        } else {
            None
        },
        presses(MouseRequest::MoveRelative { dx: first, dy: second }) is None,
        presses(MouseRequest::Wheel { delta: first, horizontal }) is None,
        down_after(down, MouseRequest::Button { button, state: ButtonState::Down }) == down,
        down_after(down, MouseRequest::MoveRelative { dx: first, dy: second }) == down,
        down_after(down, MouseRequest::Wheel { delta: first, horizontal }) == down,
        down_after(down, MouseRequest::Button { button, state: ButtonState::Up })[place_of(other)]
            == if other == button {
            None
        } else {
            down[place_of(other)]
        },
{
}

/// A button that is released right after it was pressed is held for 20 ms: the hold is as
/// long as is still missing, and there is none where nothing is missing.
pub proof fn law_quick_release_is_held(
    pressed: MousePlayback,
    released: MousePlayback,
    button: Button,
    since: u128,
    now: u128,
)
    requires
        pressed.pressed == Some(button),
        released.down@ == pressed.noted(since),
        released.pressed is None,
        since <= now,
        released.index < released.events@.len(),
        released.events@[released.index as int] matches MouseEvent::Button {
            button: let_go,
            state: ButtonState::Up,
            ..
        } && let_go == button,
        released.phase is Delayed,
        released.filter.buttons,
    ensures
        released.due(now) == if now - since < 20_000_000 {
            MouseDue::Hold { nanoseconds: (20_000_000 - (now - since)) as u64 }
        } else {
            MouseDue::Send { request: MouseRequest::Button { button, state: ButtonState::Up } }
        },
{
}

/// A button that is not known to be down is released without a hold.
pub proof fn law_unknown_press_is_not_held(playback: MousePlayback, button: Button, now: u128)
    requires
        playback.index < playback.events@.len(),
        playback.events@[playback.index as int] matches MouseEvent::Button {
            button: let_go,
            state: ButtonState::Up,
            ..
        } && let_go == button,
        playback.pressed is None,
        playback.down@[place_of(button)] is None,
    ensures
        playback.due(now) !is Hold,
{
}

} // verus!
