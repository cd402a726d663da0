//! What a command asks for.

use crate::controller::{self, begin_motion, GestureKind, MouseRequest};
use crate::event::{Button, ButtonState};
use crate::keyboard::{KeyState, KeyboardPlaybackFilter};
use crate::mouse_playback::PlaybackFilter;
use crate::playback::Speed;
use crate::text::copy_text;
use vstd::prelude::*;

verus! {

/// A command that controls the mouse or the keyboard.
#[derive(Debug)]
pub enum ControlCommand {
    Click { button: Button, count: u32 },
    Press { button: Button },
    Release { button: Button },
    /// `ticks` is how many steps of 1/120 second the time takes, rounded up.
    Move { dx: i32, dy: i32, milliseconds: u64, ticks: u32 },
    MoveTo { x: u16, y: u16 },
    Wheel { delta: i32, horizontal: bool },
    Play { speed: Speed, no_buttons: bool, no_movement: bool, no_wheel: bool },
    KeyPress { scan_code: u16 },
    KeyRelease { scan_code: u16 },
    Hotkey { keys: String },
    KeyboardPlay { speed: Speed, no_press: bool, no_release: bool },
}

/// What is done for a command.
#[derive(Debug)]
pub enum ControlPlan {
    /// One request to the mouse.
    Request { request: MouseRequest },
    /// A gesture of the mouse.
    Gesture { kind: GestureKind },
    /// A recording of the mouse is played.
    PlayMouse { speed: Speed, filter: PlaybackFilter },
    /// One request to the keyboard.
    Key { scan_code: u16, state: KeyState },
    /// A hotkey is sent.
    Hotkey { keys: String },
    /// A recording of the keyboard is played.
    PlayKeyboard { speed: Speed, filter: KeyboardPlaybackFilter },
}

/// The plan for a command.
pub open spec fn planned(command: ControlCommand) -> ControlPlan {
    match command {
        ControlCommand::Click { button, count } => ControlPlan::Gesture {
            kind: GestureKind::Clicks { button, count },
        },
        ControlCommand::Press { button } => ControlPlan::Request {
            request: MouseRequest::Button { button, state: ButtonState::Down },
        },
        ControlCommand::Release { button } => ControlPlan::Request {
            request: MouseRequest::Button { button, state: ButtonState::Up },
        },
        ControlCommand::Move { dx, dy, milliseconds, ticks } => if milliseconds == 0 {
            ControlPlan::Request { request: MouseRequest::MoveRelative { dx, dy } }
        } else {
            ControlPlan::Gesture {
                kind: controller::motion(
                    dx,
                    dy,
                    (milliseconds * 1_000_000) as u128,
                    ticks,
                    false,
                ),
            }
        },
        ControlCommand::MoveTo { x, y } => ControlPlan::Request {
            request: MouseRequest::MoveAbsolute { x, y },
        },
        ControlCommand::Wheel { delta, horizontal } => ControlPlan::Request {
            request: MouseRequest::Wheel { delta, horizontal },
        },
        ControlCommand::Play { speed, no_buttons, no_movement, no_wheel } => ControlPlan::PlayMouse {
            speed,
            filter: PlaybackFilter {
                buttons: !no_buttons,
                movement: !no_movement,
                wheel: !no_wheel,
            },
        },
        ControlCommand::KeyPress { scan_code } => ControlPlan::Key {
            scan_code,
            state: KeyState::Down,
        },
        ControlCommand::KeyRelease { scan_code } => ControlPlan::Key {
            scan_code,
            state: KeyState::Up,
        },
        ControlCommand::Hotkey { keys } => ControlPlan::Hotkey { keys },
        ControlCommand::KeyboardPlay { speed, no_press, no_release } => ControlPlan::PlayKeyboard {
            speed,
            filter: KeyboardPlaybackFilter { press: !no_press, release: !no_release },
        },
    }
}

/// Whether a command plays a recording backwards.
pub open spec fn backwards(command: ControlCommand) -> bool {
    match command {
        ControlCommand::Play { speed, .. } => speed.negative(),
        ControlCommand::KeyboardPlay { speed, .. } => speed.negative(),
        _ => false,
    }
}

/// Plans what is done for a command. A recording is not played backwards.
pub fn control(command: ControlCommand) -> (plan: Result<ControlPlan, String>)
    ensures
        match plan {
            Ok(found) => !backwards(command) && found == planned(command),
            Err(message) => backwards(command) && message@ == "speed must be zero or greater"@,
        },
{
    match command {
        ControlCommand::Click { button, count } => Ok(
            ControlPlan::Gesture { kind: GestureKind::Clicks { button, count } },
        ),
        ControlCommand::Press { button } => Ok(
            ControlPlan::Request {
                request: MouseRequest::Button { button, state: ButtonState::Down },
            },
        ),
        ControlCommand::Release { button } => Ok(
            ControlPlan::Request {
                request: MouseRequest::Button { button, state: ButtonState::Up },
            },
        ),
        ControlCommand::Move { dx, dy, milliseconds, ticks } => {
            if milliseconds == 0 {
                Ok(ControlPlan::Request { request: MouseRequest::MoveRelative { dx, dy } })
            } else {
                let nanoseconds: u128 = (milliseconds as u128) * 1_000_000;
                Ok(
                    ControlPlan::Gesture {
                        kind: begin_motion(dx, dy, nanoseconds, ticks, false),
                    },
                )
            }
        },
        ControlCommand::MoveTo { x, y } => Ok(
            ControlPlan::Request { request: MouseRequest::MoveAbsolute { x, y } },
        ),
        ControlCommand::Wheel { delta, horizontal } => Ok(
            ControlPlan::Request { request: MouseRequest::Wheel { delta, horizontal } },
        ),
        ControlCommand::Play { speed, no_buttons, no_movement, no_wheel } => {
            if speed.is_negative() {
                return Err(copy_text("speed must be zero or greater"));
            }
            Ok(
                ControlPlan::PlayMouse {
                    speed,
                    filter: PlaybackFilter {
                        buttons: !no_buttons,
                        movement: !no_movement,
                        wheel: !no_wheel,
                    },
                },
            )
        },
        ControlCommand::KeyPress { scan_code } => Ok(
            ControlPlan::Key { scan_code, state: KeyState::Down },
        ),
        ControlCommand::KeyRelease { scan_code } => Ok(
            ControlPlan::Key { scan_code, state: KeyState::Up },
        ),
        ControlCommand::Hotkey { keys } => Ok(ControlPlan::Hotkey { keys }),
        ControlCommand::KeyboardPlay { speed, no_press, no_release } => {
            if speed.is_negative() {
                return Err(copy_text("speed must be zero or greater"));
            }
            Ok(
                ControlPlan::PlayKeyboard {
                    speed,
                    filter: KeyboardPlaybackFilter { press: !no_press, release: !no_release },
                },
            )
        },
    }
}

/// A command about a button is about that button: a click as often as it is asked for, a
/// press, a release.
pub proof fn law_button_commands(button: Button, count: u32)
    ensures
        planned(ControlCommand::Click { button, count }) == (ControlPlan::Gesture {
            kind: GestureKind::Clicks { button, count },
        }),
        planned(ControlCommand::Press { button }) == (ControlPlan::Request {
            request: MouseRequest::Button { button, state: ButtonState::Down },
        }),
        planned(ControlCommand::Release { button }) == (ControlPlan::Request {
            request: MouseRequest::Button { button, state: ButtonState::Up },
        }),
{
}

/// A movement without a time is one request; one that takes a time is a motion of as many
/// milliseconds, without a button.
pub proof fn law_movement_commands(dx: i32, dy: i32, milliseconds: u64, ticks: u32, x: u16, y: u16)
    ensures
        planned(ControlCommand::Move { dx, dy, milliseconds: 0, ticks }) == (ControlPlan::Request {
            request: MouseRequest::MoveRelative { dx, dy },
        }),
        milliseconds > 0 ==> planned(ControlCommand::Move { dx, dy, milliseconds, ticks }) == (
        ControlPlan::Gesture {
            kind: controller::motion(dx, dy, (milliseconds * 1000 * 1000) as u128, ticks, false),
        }),
        planned(ControlCommand::MoveTo { x, y }) == (ControlPlan::Request {
            request: MouseRequest::MoveAbsolute { x, y },
        }),
{
    assert(milliseconds * 1_000_000 == milliseconds * 1000 * 1000) by (nonlinear_arith);
}

/// A wheel is turned by as much along the axis that is asked for, and a key is pressed or
/// released by its code.
pub proof fn law_wheel_and_key_commands(delta: i32, horizontal: bool, scan_code: u16, keys: String)
    ensures
        planned(ControlCommand::Wheel { delta, horizontal }) == (ControlPlan::Request {
            request: MouseRequest::Wheel { delta, horizontal },
        }),
        planned(ControlCommand::KeyPress { scan_code }) == (ControlPlan::Key {
            scan_code,
            state: KeyState::Down,
        }),
        planned(ControlCommand::KeyRelease { scan_code }) == (ControlPlan::Key {
            scan_code,
            state: KeyState::Up,
        }),
        planned(ControlCommand::Hotkey { keys }) == (ControlPlan::Hotkey { keys }),
{
}

/// A recording is played at the speed that is asked for, with the kinds of events that are
/// not left out, and at a speed below zero not at all.
pub proof fn law_play_commands(
    speed: Speed,
    no_buttons: bool,
    no_movement: bool,
    no_wheel: bool,
    no_press: bool,
    no_release: bool,
)
    ensures
        planned(
            ControlCommand::Play { speed, no_buttons, no_movement, no_wheel },
        ) matches ControlPlan::PlayMouse { speed: played, filter } && played == speed
            && filter.buttons != no_buttons && filter.movement != no_movement && filter.wheel
            != no_wheel,
        planned(
            ControlCommand::KeyboardPlay { speed, no_press, no_release },
        ) matches ControlPlan::PlayKeyboard { speed: played, filter } && played == speed
            && filter.press != no_press && filter.release != no_release,
        backwards(ControlCommand::Play { speed, no_buttons, no_movement, no_wheel })
            <==> speed.negative(),
        backwards(ControlCommand::KeyboardPlay { speed, no_press, no_release })
            <==> speed.negative(),
{
}

/// Only a recording is played backwards.
pub proof fn law_only_recordings_are_refused(command: ControlCommand)
    requires
        backwards(command),
    ensures
        command is Play || command is KeyboardPlay,
{
}

} // verus!
