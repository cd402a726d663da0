//! Recording the mouse and the keyboard.

use crate::event::MouseEvent;
use crate::keyboard::{KeyState, KeyboardEvent};
use crate::mouse_playback;
use crate::sort::{self, sort, Ranked};
use crate::text::copy_text;
use crate::trajectory::{self, MouseTrajectory, Point};
use vstd::prelude::*;

verus! {

/// The scan code of Escape, which ends a recording of the mouse.
pub const ESCAPE_SCAN_CODE: u16 = 1;

/// Where the pointer is when a recording of the mouse begins.
pub const HOME_X: i16 = 960;

/// Where the pointer is when a recording of the mouse begins.
pub const HOME_Y: i16 = 540;

impl Ranked for MouseEvent {
    /// Events are ordered by when they happened.
    open spec fn not_behind(self, other: MouseEvent) -> bool {
        self.happened().rank() <= other.happened().rank()
    }

    proof fn total(left: MouseEvent, right: MouseEvent) {
    }

    proof fn transitive(first: MouseEvent, second: MouseEvent, third: MouseEvent) {
    }

    fn is_not_behind(&self, other: &MouseEvent) -> (yes: bool) {
        self.timestamp().not_after(other.timestamp())
    }
}

impl Ranked for KeyboardEvent {
    /// Events are ordered by when they happened.
    open spec fn not_behind(self, other: KeyboardEvent) -> bool {
        self.time.rank() <= other.time.rank()
    }

    proof fn total(left: KeyboardEvent, right: KeyboardEvent) {
    }

    proof fn transitive(first: KeyboardEvent, second: KeyboardEvent, third: KeyboardEvent) {
    }

    fn is_not_behind(&self, other: &KeyboardEvent) -> (yes: bool) {
        self.time.not_after(other.time)
    }
}

/// The point at which a recording of the mouse begins.
pub fn home_point() -> (point: Point)
    ensures
        point.x == HOME_X,
        point.y == HOME_Y,
{
    Point { x: HOME_X as i32, y: HOME_Y as i32 }
}

/// Whether a key event is a press of the key with a code, and no repeat.
pub open spec fn presses(event: KeyboardEvent, scan_code: u16) -> bool {
    event.key.scan_code == scan_code && event.state is Down && !event.repeat
}

/// Whether a key event is a release of the key with a code.
pub open spec fn releases(event: KeyboardEvent, scan_code: u16) -> bool {
    event.key.scan_code == scan_code && event.state is Up
}

/// Decides whether an event ends a recording of the mouse: a press of Escape, not a repeat.
pub fn is_escape_press(event: &KeyboardEvent) -> (yes: bool)
    ensures
        yes == presses(*event, ESCAPE_SCAN_CODE),
{
    event.key.scan_code == ESCAPE_SCAN_CODE && matches!(event.state, KeyState::Down)
        && !event.repeat
}

/// Decides whether an event of the kernel belongs in a recording of the mouse. Buttons are
/// taken from XInput, which knows of taps too.
pub fn is_recorded(event: &MouseEvent) -> (yes: bool)
    ensures
        yes == !(*event is Button),
{
    !matches!(event, MouseEvent::Button { .. })
}

/// A recording of the keyboard that goes on until a key was pressed and released.
pub struct KeyRecording {
    /// The scan code of the key that ends it.
    pub stop_code: u16,
    /// Whether that key was pressed.
    pub stop_pressed: bool,
    pub events: Vec<KeyboardEvent>,
}

/// Whether some events hold a press of the key with a code.
pub open spec fn pressed_in(events: Seq<KeyboardEvent>, scan_code: u16) -> bool {
    exists|index: int| 0 <= index < events.len() && presses(#[trigger] events[index], scan_code)
}

impl KeyRecording {
    /// It knows whether the key was pressed.
    pub open spec fn wf(self) -> bool {
        self.stop_pressed == pressed_in(self.events@, self.stop_code)
    }

    /// Begins a recording that a key ends.
    pub fn new(stop_code: u16) -> (recording: KeyRecording)
        ensures
            recording.wf(),
            recording.stop_code == stop_code,
            recording.events@.len() == 0,
    {
        KeyRecording { stop_code, stop_pressed: false, events: Vec::new() }
    }

    /// Takes in an event, and says whether it ends the recording: it releases the key after
    /// that was pressed.
    pub fn push(&mut self, event: KeyboardEvent) -> (stopped: bool)
        requires
            old(self).wf(),
        ensures
            final(self).wf(),
            final(self).stop_code == old(self).stop_code,
            final(self).events@ == old(self).events@.push(event),
            stopped == (releases(event, old(self).stop_code) && pressed_in(
                old(self).events@,
                old(self).stop_code,
            )),
    {
        let ghost before = self.events@;
        let same: bool = event.key.scan_code == self.stop_code;
        let down: bool = matches!(event.state, KeyState::Down);
        let stops: bool = same && down && !event.repeat;
        if stops {
            self.stop_pressed = true;
        }
        let stopped: bool = self.stop_pressed && same && !down;
        self.events.push(event);
        assert(pressed_in(self.events@, self.stop_code) == (pressed_in(before, self.stop_code)
            || presses(event, self.stop_code))) by {
            if pressed_in(before, self.stop_code) {
                let index = choose|index: int|
                    0 <= index < before.len() && presses(
                        #[trigger] before[index],
                        self.stop_code,
                    );
                assert(self.events@[index] == before[index]);
            }
            if presses(event, self.stop_code) {
                assert(self.events@[before.len() as int] == event);
            }
            if pressed_in(self.events@, self.stop_code) {
                let index = choose|index: int|
                    0 <= index < self.events@.len() && presses(
                        #[trigger] self.events@[index],
                        self.stop_code,
                    );
                if index < before.len() {
                    assert(before[index] == self.events@[index]);
                }
            }
        }
        stopped
    }

    /// The events in the order in which they happened.
    pub fn finish(self) -> (events: Vec<KeyboardEvent>)
        ensures
            sort::sorted_from(events@, self.events@),
    {
        sort(self.events)
    }
}

/// A recording that its key ended holds a press and a release of that key.
pub proof fn law_recording_ends_balanced(
    before: Seq<KeyboardEvent>,
    event: KeyboardEvent,
    stop_code: u16,
)
    requires
        releases(event, stop_code),
        pressed_in(before, stop_code),
    ensures
        pressed_in(before.push(event), stop_code),
        releases(before.push(event).last(), stop_code),
{
    let index = choose|index: int|
        0 <= index < before.len() && presses(#[trigger] before[index], stop_code);
    assert(before.push(event)[index] == before[index]);
}

/// Puts the movements and the buttons of a recording together, in the order in which they
/// happened. A path that leaves the range of coordinates is an error.
pub fn finish_recording(movements: Vec<MouseEvent>, buttons: Vec<MouseEvent>) -> (events: Result<
    Vec<MouseEvent>,
    String,
>)
    ensures
        match events {
            Ok(found) => {
                &&& sort::sorted_from(found@, movements@ + buttons@)
                &&& trajectory::path(Point { x: 960, y: 540 }, found@) is Some
            },
            Err(message) => {
                &&& message@ == "recorded mouse trajectory exceeds the coordinate range"@
                &&& exists|sorted: Seq<MouseEvent>| #[trigger]
                    sort::sorted_from(sorted, movements@ + buttons@) && trajectory::path(
                        Point { x: 960, y: 540 },
                        sorted,
                    ) is None
            },
        },
{
    let mut all: Vec<MouseEvent> = movements;
    let mut index: usize = 0;
    while index < buttons.len()
        invariant
            index <= buttons.len(),
            all@ == movements@ + buttons@.take(index as int),
        decreases buttons.len() - index,
    {
        all.push(buttons[index]);
        index += 1;
    }
    assert(buttons@.take(index as int) == buttons@);
    let sorted: Vec<MouseEvent> = sort(all);
    match MouseTrajectory::from_events(home_point(), &sorted) {
        Ok(_) => Ok(sorted),
        Err(_) => Err(copy_text("recorded mouse trajectory exceeds the coordinate range")),
    }
}

/// Accepts a recording whose path stays in the range of coordinates.
pub fn check_recording(events: &[MouseEvent]) -> (outcome: Result<(), String>)
    ensures
        match outcome {
            Ok(_) => trajectory::path(Point { x: 960, y: 540 }, events@) is Some,
            Err(message) => {
                &&& trajectory::path(Point { x: 960, y: 540 }, events@) is None
                &&& message@ == "recording contains an invalid mouse trajectory"@
            },
        },
{
    match MouseTrajectory::from_events(home_point(), events) {
        Ok(_) => Ok(()),
        Err(_) => Err(copy_text("recording contains an invalid mouse trajectory")),
    }
}

/// A recording of the mouse is in the order of time: of two events the one that happened
/// earlier stands first, whatever they are about, and those of one time stay in the order
/// in which they came. No event is lost or added.
pub proof fn law_mouse_recording_is_in_order(
    sorted: Seq<MouseEvent>,
    events: Seq<MouseEvent>,
    left: int,
    right: int,
    event: MouseEvent,
)
    requires
        sort::sorted_from(sorted, events),
        0 <= left < right < sorted.len(),
    ensures
        mouse_playback::time_of(sorted[left]).rank() <= mouse_playback::time_of(
            sorted[right],
        ).rank(),
        sorted.len() == events.len(),
        sorted.contains(event) <==> events.contains(event),
        ({
            let same = |other: MouseEvent|
                mouse_playback::time_of(other).rank() == mouse_playback::time_of(event).rank();
            sorted.filter(same) == events.filter(same)
        }),
{
    sort::law_sort_keeps_items(sorted, events, event);
    assert(sorted[left].not_behind(sorted[right]));
    let same = |other: MouseEvent|
        mouse_playback::time_of(other).rank() == mouse_playback::time_of(event).rank();
    let alike = |other: MouseEvent| sort::alike(other, event);
    assert(same =~= alike);
    assert(sort::likes_of(sorted, event) == sort::likes_of(events, event));
}

/// A recording of the keyboard is in the order of time: of two events the one that happened
/// earlier stands first, and those of one time stay in the order in which they came. No
/// event is lost or added.
pub proof fn law_keyboard_recording_is_in_order(
    sorted: Seq<KeyboardEvent>,
    events: Seq<KeyboardEvent>,
    left: int,
    right: int,
    event: KeyboardEvent,
)
    requires
        sort::sorted_from(sorted, events),
        0 <= left < right < sorted.len(),
    ensures
        sorted[left].time.rank() <= sorted[right].time.rank(),
        sorted.len() == events.len(),
        sorted.contains(event) <==> events.contains(event),
        sorted.filter(|other: KeyboardEvent| other.time.rank() == event.time.rank())
            == events.filter(|other: KeyboardEvent| other.time.rank() == event.time.rank()),
{
    sort::law_sort_keeps_items(sorted, events, event);
    assert(sorted[left].not_behind(sorted[right]));
    let same = |other: KeyboardEvent| other.time.rank() == event.time.rank();
    let alike = |other: KeyboardEvent| sort::alike(other, event);
    assert(same =~= alike);
    assert(sort::likes_of(sorted, event) == sort::likes_of(events, event));
}

/// A recording goes on until its key was pressed and then released: a release before any
/// press, a repetition and another key do not end it.
pub proof fn law_only_its_key_ends_a_recording(event: KeyboardEvent, scan_code: u16)
    ensures
        presses(event, scan_code) <==> event.key.scan_code == scan_code && event.state is Down
            && !event.repeat,
        releases(event, scan_code) <==> event.key.scan_code == scan_code && event.state is Up,
        !(presses(event, scan_code) && releases(event, scan_code)),
        !pressed_in(Seq::empty(), scan_code),
        forall|before: Seq<KeyboardEvent>| #[trigger]
            pressed_in(before.push(event), scan_code) <==> pressed_in(before, scan_code)
                || presses(event, scan_code),
{
    assert forall|before: Seq<KeyboardEvent>| #[trigger]
        pressed_in(before.push(event), scan_code) <==> pressed_in(before, scan_code) || presses(
            event,
            scan_code,
        ) by {
        let after = before.push(event);
        if pressed_in(before, scan_code) {
            let index = choose|index: int|
                0 <= index < before.len() && presses(#[trigger] before[index], scan_code);
            assert(after[index] == before[index]);
        }
        if presses(event, scan_code) {
            assert(after[before.len() as int] == event);
        }
        if pressed_in(after, scan_code) {
            let index = choose|index: int|
                0 <= index < after.len() && presses(#[trigger] after[index], scan_code);
            if index < before.len() {
                assert(before[index] == after[index]);
            }
        }
    }
}

} // verus!
