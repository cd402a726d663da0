//! Input events as the Linux kernel has them, and what they mean.

use crate::event::{Button, ButtonState, MouseEvent, Timestamp};
use crate::key_names;
use crate::keyboard::{Key, KeyState, KeyboardEvent};
use crate::number::{self, append_number};
use crate::text::{self, append, copy_text};
use vstd::prelude::*;

verus! {

/// The kind of events about keys and buttons.
pub const EVENT_KEY: u16 = 1;

/// The kind of events about relative axes.
pub const EVENT_RELATIVE: u16 = 2;

/// The kind of events about absolute axes.
pub const EVENT_ABSOLUTE: u16 = 3;

/// The horizontal axis, relative or absolute.
pub const AXIS_X: u16 = 0;

/// The vertical axis, relative or absolute.
pub const AXIS_Y: u16 = 1;

/// The relative axis of the horizontal wheel.
pub const AXIS_HWHEEL: u16 = 6;

/// The relative axis of the vertical wheel.
pub const AXIS_WHEEL: u16 = 8;

/// An input event: its kind, what it is about and a value.
#[derive(Clone, Copy, Debug, Eq, PartialEq, Structural)]
pub struct InputRecord {
    pub kind: u16,
    pub code: u16,
    pub value: i32,
}

/// What an input event is about.
#[derive(Clone, Copy, Debug, Eq, PartialEq, Structural)]
pub enum Summary {
    Key { code: u16, value: i32 },
    Relative { axis: u16, value: i32 },
    Other,
}

impl InputRecord {
    /// What the event is about.
    pub open spec fn summary(self) -> Summary {
        if self.kind == EVENT_KEY {
            Summary::Key { code: self.code, value: self.value }
        } else if self.kind == EVENT_RELATIVE {
            Summary::Relative { axis: self.code, value: self.value }
        } else {
            Summary::Other
        }
    }
}

/// `evdev::InputEvent::destructure` tells the kind of an event: one of the kind for keys
/// is about the key with its code, one of the kind for relative axes about the axis with
/// its code, each with its value, and every other is about something else.
#[verifier::external_body]
fn summarize(record: InputRecord) -> (summary: Summary)
    ensures
        summary == record.summary(),
{
    match evdev::InputEvent::new(record.kind, record.code, record.value).destructure() {
        evdev::EventSummary::Key(_, key, value) => Summary::Key { code: key.0, value },
        evdev::EventSummary::RelativeAxis(_, axis, value) => {
            Summary::Relative { axis: axis.0, value }
        },
        _ => Summary::Other,
    }
}

/// The code of a button.
pub open spec fn button_code(button: Button) -> u16 {
    match button {
        Button::Left => 0x110,
        Button::Right => 0x111,
        Button::Middle => 0x112,
        Button::Side => 0x113,
        Button::Extra => 0x114,
    }
}

/// The button with a code.
pub open spec fn coded_button(code: u16) -> Option<Button> {
    if code == 0x110 {
        Some(Button::Left)
    } else if code == 0x111 {
        Some(Button::Right)
    } else if code == 0x112 {
        Some(Button::Middle)
    } else if code == 0x113 {
        Some(Button::Side)
    } else if code == 0x114 {
        Some(Button::Extra)
    } else {
        None
    }
}

/// The code of a button.
pub fn button_key(button: Button) -> (code: u16)
    ensures
        code == button_code(button),
{
    match button {
        Button::Left => 0x110,
        Button::Right => 0x111,
        Button::Middle => 0x112,
        Button::Side => 0x113,
        Button::Extra => 0x114,
    }
}

/// The button with a code.
pub fn key_button(code: u16) -> (button: Option<Button>)
    ensures
        button == coded_button(code),
{
    match code {
        0x110 => Some(Button::Left),
        0x111 => Some(Button::Right),
        0x112 => Some(Button::Middle),
        0x113 => Some(Button::Side),
        0x114 => Some(Button::Extra),
        _ => None,
    }
}

/// Whether a code is one of a keyboard: not one of a mouse, a joystick, a gamepad or
/// another device.
pub open spec fn keyboard_code(code: u16) -> bool {
    1 <= code <= 0x2ff && !(0x100 <= code <= 0x15f)
}

/// Decides whether a code is one of a keyboard.
pub fn is_keyboard_code(code: u16) -> (yes: bool)
    ensures
        yes == keyboard_code(code),
{
    1 <= code && code <= 0x2ff && !(0x100 <= code && code <= 0x15f)
}

/// Decides whether a code is among others.
fn has_code(codes: &[u16], code: u16) -> (yes: bool)
    ensures
        yes == codes@.contains(code),
{
    let mut index: usize = 0;
    while index < codes.len()
        invariant
            index <= codes.len(),
            forall|at: int| 0 <= at < index ==> codes@[at] != code,
        decreases codes.len() - index,
    {
        if codes[index] == code {
            return true;
        }
        index += 1;
    }
    false
}

/// Whether a device with some keys is a mouse: it has a left button, and a right or a
/// middle one.
pub open spec fn mouse(codes: Seq<u16>) -> bool {
    codes.contains(0x110u16) && (codes.contains(0x111u16) || codes.contains(0x112u16))
}

/// Decides whether a device with some keys is a mouse.
pub fn is_mouse(codes: &[u16]) -> (yes: bool)
    ensures
        yes == mouse(codes@),
{
    has_code(codes, 0x110) && (has_code(codes, 0x111) || has_code(codes, 0x112))
}

/// Whether a device with some keys is a keyboard: it has the keys A, Z, Enter and Space.
pub open spec fn keyboard(codes: Seq<u16>) -> bool {
    codes.contains(30u16) && codes.contains(44u16) && codes.contains(28u16) && codes.contains(
        57u16,
    )
}

/// Decides whether a device with some keys is a keyboard.
pub fn is_keyboard(codes: &[u16]) -> (yes: bool)
    ensures
        yes == keyboard(codes@),
{
    has_code(codes, 30) && has_code(codes, 44) && has_code(codes, 28) && has_code(codes, 57)
}

/// The mouse event that an input event stands for, at a time.
pub open spec fn mouse_event(summary: Summary, time: Timestamp) -> Option<MouseEvent> {
    match summary {
        Summary::Key { code, value } => match coded_button(code) {
            Some(button) => Some(
                MouseEvent::Button {
                    button,
                    state: if value == 0 {
                        ButtonState::Up
                    } else {
                        ButtonState::Down
                    },
                    time,
                },
            ),
            None => None,
        },
        Summary::Relative { axis, value } => if axis == AXIS_X {
            Some(MouseEvent::Move { dx: value, dy: 0, time })
        } else if axis == AXIS_Y {
            Some(MouseEvent::Move { dx: 0, dy: value, time })
        } else if axis == AXIS_WHEEL {
            Some(MouseEvent::Wheel { delta: value, horizontal: false, time })
        } else if axis == AXIS_HWHEEL {
            Some(MouseEvent::Wheel { delta: value, horizontal: true, time })
        } else {
            None
        },
        Summary::Other => None,
    }
}

/// The mouse event that an input event stands for, at a time.
pub fn convert_event(record: InputRecord, time: Timestamp) -> (event: Option<MouseEvent>)
    ensures
        event == mouse_event(record.summary(), time),
{
    match summarize(record) {
        Summary::Key { code, value } => match key_button(code) {
            Some(button) => {
                let state: ButtonState = if value == 0 {
                    ButtonState::Up
                } else {
                    ButtonState::Down
                };
                Some(MouseEvent::Button { button, state, time })
            },
            None => None,
        },
        Summary::Relative { axis, value } => {
            if axis == AXIS_X {
                Some(MouseEvent::Move { dx: value, dy: 0, time })
            } else if axis == AXIS_Y {
                Some(MouseEvent::Move { dx: 0, dy: value, time })
            } else if axis == AXIS_WHEEL {
                Some(MouseEvent::Wheel { delta: value, horizontal: false, time })
            } else if axis == AXIS_HWHEEL {
                Some(MouseEvent::Wheel { delta: value, horizontal: true, time })
            } else {
                None
            }
        },
        Summary::Other => None,
    }
}

/// Whether an input event is about a key of a keyboard.
pub open spec fn about_a_key(summary: Summary) -> bool {
    summary matches Summary::Key { code, value } && keyboard_code(code) && value >= 0
}

/// Whether a key event is what an input event stands for, at a time.
pub open spec fn stands_for(event: KeyboardEvent, summary: Summary, time: Timestamp) -> bool {
    summary matches Summary::Key { code, value } && {
        &&& event.key.scan_code == code
        &&& event.key.name@ == key_names::code_name(code)
        &&& event.state == if value == 0 {
            KeyState::Up
        } else {
            KeyState::Down
        }
        &&& event.repeat == (value == 2)
        &&& event.time == time
    }
}

/// The key event that an input event stands for, at a time.
pub fn convert_keyboard_event(record: InputRecord, time: Timestamp) -> (event: Option<
    KeyboardEvent,
>)
    ensures
        match event {
            Some(found) => about_a_key(record.summary()) && stands_for(
                found,
                record.summary(),
                time,
            ),
            None => !about_a_key(record.summary()),
        },
{
    match summarize(record) {
        Summary::Key { code, value } => {
            if !is_keyboard_code(code) || value < 0 {
                return None;
            }
            Some(
                KeyboardEvent {
                    key: Key::from_scan_code(code),
                    state: if value == 0 {
                        KeyState::Up
                    } else {
                        KeyState::Down
                    },
                    repeat: value == 2,
                    time,
                },
            )
        },
        _ => None,
    }
}

/// What a virtual mouse sends.
pub struct LinuxMouse;

impl LinuxMouse {
    /// The event that presses or releases a button.
    pub fn button(button: Button, state: ButtonState) -> (record: InputRecord)
        ensures
            record == (InputRecord {
                kind: EVENT_KEY,
                code: button_code(button),
                value: if state is Down {
                    1
                } else {
                    0
                },
            }),
    {
        let value: i32 = match state {
            ButtonState::Down => 1,
            ButtonState::Up => 0,
        };
        InputRecord { kind: EVENT_KEY, code: button_key(button), value }
    }

    /// The events that move by a distance.
    pub fn move_relative(dx: i32, dy: i32) -> (records: [InputRecord; 2])
        ensures
            records@ == seq![
                InputRecord { kind: EVENT_RELATIVE, code: AXIS_X, value: dx },
                InputRecord { kind: EVENT_RELATIVE, code: AXIS_Y, value: dy },
            ],
    {
        [
            InputRecord { kind: EVENT_RELATIVE, code: AXIS_X, value: dx },
            InputRecord { kind: EVENT_RELATIVE, code: AXIS_Y, value: dy },
        ]
    }

    /// The events that move to normalized coordinates.
    pub fn move_absolute(x: u16, y: u16) -> (records: [InputRecord; 2])
        ensures
            records@ == seq![
                InputRecord { kind: EVENT_ABSOLUTE, code: AXIS_X, value: x as i32 },
                InputRecord { kind: EVENT_ABSOLUTE, code: AXIS_Y, value: y as i32 },
            ],
    {
        [
            InputRecord { kind: EVENT_ABSOLUTE, code: AXIS_X, value: x as i32 },
            InputRecord { kind: EVENT_ABSOLUTE, code: AXIS_Y, value: y as i32 },
        ]
    }

    /// The event that turns a wheel.
    pub fn wheel(delta: i32, horizontal: bool) -> (record: InputRecord)
        ensures
            record == (InputRecord {
                kind: EVENT_RELATIVE,
                code: if horizontal {
                    AXIS_HWHEEL
                } else {
                    AXIS_WHEEL
                },
                value: delta,
            }),
    {
        let code: u16 = if horizontal {
            AXIS_HWHEEL
        } else {
            AXIS_WHEEL
        };
        InputRecord { kind: EVENT_RELATIVE, code, value: delta }
    }
}

/// What a virtual keyboard sends.
pub struct LinuxKeyboard;

/// What is said of a code that is not one of a keyboard.
pub open spec fn unsupported_code(scan_code: u16) -> Seq<char> {
    "scan code "@ + number::decimal(scan_code as nat) + " is not a supported Linux keyboard key"@
}

impl LinuxKeyboard {
    /// Decides whether the keyboard has a key with a scan code.
    pub fn supports_scan_code(scan_code: u16) -> (yes: bool)
        ensures
            yes == keyboard_code(scan_code),
    {
        is_keyboard_code(scan_code)
    }

    /// The scan codes of the keys that the keyboard has.
    pub fn scan_codes() -> (codes: Vec<u16>)
        ensures
            forall|code: u16| #[trigger] codes@.contains(code) <==> keyboard_code(code),
            forall|left: int, right: int|
                0 <= left < right < codes@.len() ==> codes@[left] < codes@[right],
    {
        let mut codes: Vec<u16> = Vec::new();
        let mut code: u16 = 1;
        while code <= 0x2ff
            invariant
                1 <= code <= 0x300,
                forall|other: u16| #[trigger]
                    codes@.contains(other) <==> keyboard_code(other) && other < code,
                forall|left: int, right: int|
                    0 <= left < right < codes@.len() ==> codes@[left] < codes@[right],
            decreases 0x300 - code,
        {
            if is_keyboard_code(code) {
                let ghost earlier = codes@;
                assert forall|at: int| 0 <= at < earlier.len() implies earlier[at] < code by {
                    assert(earlier.contains(earlier[at]));
                }
                codes.push(code);
                assert forall|other: u16| #[trigger]
                    codes@.contains(other) <==> earlier.contains(other) || other == code by {
                    if earlier.contains(other) {
                        assert(codes@[earlier.index_of(other)] == other);
                    }
                    if other == code {
                        assert(codes@[earlier.len() as int] == code);
                    }
                }
            }
            code += 1;
        }
        codes
    }

    /// The event with a value for the key with a scan code.
    fn event(scan_code: u16, value: i32) -> (record: Result<InputRecord, String>)
        ensures
            match record {
                Ok(found) => keyboard_code(scan_code) && found == (InputRecord {
                    kind: EVENT_KEY,
                    code: scan_code,
                    value,
                }),
                Err(message) => !keyboard_code(scan_code) && message@ == unsupported_code(
                    scan_code,
                ),
            },
    {
        if !is_keyboard_code(scan_code) {
            let message: String = append_number(copy_text("scan code "), scan_code as u128);
            return Err(append(message, " is not a supported Linux keyboard key"));
        }
        Ok(InputRecord { kind: EVENT_KEY, code: scan_code, value })
    }

    /// The event that presses or releases a key.
    pub fn key(scan_code: u16, state: KeyState) -> (record: Result<InputRecord, String>)
        ensures
            match record {
                Ok(found) => keyboard_code(scan_code) && found == (InputRecord {
                    kind: EVENT_KEY,
                    code: scan_code,
                    value: if state is Down {
                        1
                    } else {
                        0
                    },
                }),
                Err(message) => !keyboard_code(scan_code) && message@ == unsupported_code(
                    scan_code,
                ),
            },
    {
        match state {
            KeyState::Down => LinuxKeyboard::event(scan_code, 1),
            KeyState::Up => LinuxKeyboard::event(scan_code, 0),
        }
    }

    /// The event that repeats a key.
    pub fn repeat(scan_code: u16) -> (record: Result<InputRecord, String>)
        ensures
            match record {
                Ok(found) => keyboard_code(scan_code) && found == (InputRecord {
                    kind: EVENT_KEY,
                    code: scan_code,
                    value: 2,
                }),
                Err(message) => !keyboard_code(scan_code) && message@ == unsupported_code(
                    scan_code,
                ),
            },
    {
        LinuxKeyboard::event(scan_code, 2)
    }
}

/// The code of a button stands for that button, and for no key of a keyboard.
pub proof fn law_button_codes_read_back(button: Button)
    ensures
        coded_button(button_code(button)) == Some(button),
        !keyboard_code(button_code(button)),
{
}

/// What the virtual mouse sends is heard as what was asked for: a button with its state,
/// a movement on each axis, and a wheel with its direction.
pub proof fn law_mouse_is_heard(
    button: Button,
    state: ButtonState,
    amount: i32,
    horizontal: bool,
    time: Timestamp,
)
    ensures
        mouse_event(
            (InputRecord {
                kind: EVENT_KEY,
                code: button_code(button),
                value: if state is Down {
                    1
                } else {
                    0
                },
            }).summary(),
            time,
        ) == Some(MouseEvent::Button { button, state, time }),
        mouse_event(
            (InputRecord { kind: EVENT_RELATIVE, code: AXIS_X, value: amount }).summary(),
            time,
        ) == Some(MouseEvent::Move { dx: amount, dy: 0, time }),
        mouse_event(
            (InputRecord { kind: EVENT_RELATIVE, code: AXIS_Y, value: amount }).summary(),
            time,
        ) == Some(MouseEvent::Move { dx: 0, dy: amount, time }),
        mouse_event(
            (InputRecord {
                kind: EVENT_RELATIVE,
                code: if horizontal {
                    AXIS_HWHEEL
                } else {
                    AXIS_WHEEL
                },
                value: amount,
            }).summary(),
            time,
        ) == Some(MouseEvent::Wheel { delta: amount, horizontal, time }),
{
}

/// What the virtual keyboard sends is heard as what was asked for: a press or a release
/// that is no repeat, and a repeat that is one.
pub proof fn law_keyboard_is_heard(
    scan_code: u16,
    state: KeyState,
    event: KeyboardEvent,
    time: Timestamp,
)
    requires
        keyboard_code(scan_code),
    ensures
        ({
            let sent = InputRecord {
                kind: EVENT_KEY,
                code: scan_code,
                value: if state is Down {
                    1
                } else {
                    0
                },
            };
            &&& about_a_key(sent.summary())
            &&& stands_for(event, sent.summary(), time) ==> event.key.scan_code == scan_code
                && event.state == state && !event.repeat
        }),
        ({
            let sent = InputRecord { kind: EVENT_KEY, code: scan_code, value: 2 };
            &&& about_a_key(sent.summary())
            &&& stands_for(event, sent.summary(), time) ==> event.key.scan_code == scan_code
                && event.state is Down && event.repeat
        }),
{
}

/// An input event of the first kind is about a button where its code is one of five in a
/// row, and lets the button go where its value is zero. One of the second kind is about
/// the four axes of movement and of the wheels. No other is about the mouse.
pub proof fn law_mouse_events_by_number(record: InputRecord, time: Timestamp)
    ensures
        ({
            let event = mouse_event(record.summary(), time);
            let state = if record.value == 0 {
                ButtonState::Up
            } else {
                ButtonState::Down
            };
            let value = record.value;
            match (record.kind, record.code) {
                (1u16, 0x110u16) => event == Some(
                    MouseEvent::Button { button: Button::Left, state, time },
                ),
                (1u16, 0x111u16) => event == Some(
                    MouseEvent::Button { button: Button::Right, state, time },
                ),
                (1u16, 0x112u16) => event == Some(
                    MouseEvent::Button { button: Button::Middle, state, time },
                ),
                (1u16, 0x113u16) => event == Some(
                    MouseEvent::Button { button: Button::Side, state, time },
                ),
                (1u16, 0x114u16) => event == Some(
                    MouseEvent::Button { button: Button::Extra, state, time },
                ),
                (2u16, 0u16) => event == Some(MouseEvent::Move { dx: value, dy: 0, time }),
                (2u16, 1u16) => event == Some(MouseEvent::Move { dx: 0, dy: value, time }),
                (2u16, 6u16) => event == Some(
                    MouseEvent::Wheel { delta: value, horizontal: true, time },
                ),
                (2u16, 8u16) => event == Some(
                    MouseEvent::Wheel { delta: value, horizontal: false, time },
                ),
                _ => event is None,
            }
        }),
{
}

/// An input event of the first kind is about a key where its code is one of a keyboard and
/// its value is not below zero: zero for a release, two for a repetition. The key event
/// tells the key by its code and by the name that it is shown by.
pub proof fn law_key_events_by_number(record: InputRecord, event: KeyboardEvent, time: Timestamp)
    ensures
        about_a_key(record.summary()) <==> record.kind == 1 && record.value >= 0 && (1
            <= record.code < 0x100 || 0x160 <= record.code < 0x300),
        about_a_key(record.summary()) ==> (stands_for(event, record.summary(), time) <==> {
            &&& event.key.scan_code == record.code
            &&& event.key.name@ == key_names::code_name(record.code)
            &&& event.state is Up <==> record.value == 0
            &&& event.repeat <==> record.value == 2
            &&& event.time == time
        }),
{
}

/// A mouse is a device with a left button and with a second one, a keyboard a device with
/// four of the keys that only keyboards have. More keys do not change that.
pub proof fn law_devices_by_their_keys(codes: Seq<u16>, more: Seq<u16>)
    ensures
        mouse(codes) <==> codes.contains(button_code(Button::Left)) && (codes.contains(
            button_code(Button::Right),
        ) || codes.contains(button_code(Button::Middle))),
        keyboard(codes) <==> codes.contains(key_names::LETTER_CODES@[0]) && codes.contains(
            key_names::LETTER_CODES@[25],
        ) && codes.contains(28u16) && codes.contains(57u16),
        mouse(codes) ==> mouse(codes + more),
        keyboard(codes) ==> keyboard(codes + more),
{
    assert(key_names::LETTER_CODES@[0] == 30u16 && key_names::LETTER_CODES@[25] == 44u16);
    assert forall|code: u16| codes.contains(code) implies #[trigger] (codes + more).contains(
        code,
    ) by {
        assert((codes + more)[codes.index_of(code)] == code);
    }
}

/// A code that is not one of a keyboard is told by its number.
pub proof fn law_unsupported_code_is_told(scan_code: u16)
    ensures
        text::begins(
            unsupported_code(scan_code),
            "scan code "@ + number::decimal(scan_code as nat) + " is not"@,
        ),
{
    reveal_strlit(" is not");
    reveal_strlit(" is not a supported Linux keyboard key");
    let start = "scan code "@ + number::decimal(scan_code as nat) + " is not"@;
    assert(unsupported_code(scan_code).take(start.len() as int) =~= start);
}

} // verus!
