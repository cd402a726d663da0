//! Mouse events and the buttons that they are about.

use crate::text::{self, append, chars_of, copy_text, is_text, to_lowered};
use vstd::prelude::*;

verus! {

/// A mouse button.
#[derive(Clone, Copy, Debug, Eq, PartialEq, Structural)]
pub enum Button {
    Left,
    Right,
    Middle,
    Side,
    Extra,
}

/// Whether a button is held down.
#[derive(Clone, Copy, Debug, Eq, PartialEq, Structural)]
pub enum ButtonState {
    Up,
    Down,
}

/// A Unix time in fractional seconds, held as the bit pattern of its 64-bit
/// binary floating-point number.
#[derive(Clone, Copy, Debug, Eq, PartialEq, Structural)]
pub struct Timestamp {
    pub bits: u64,
}

/// What happened to the mouse.
#[derive(Clone, Copy, Debug, Eq, PartialEq, Structural)]
pub enum MouseEvent {
    Button { button: Button, state: ButtonState, time: Timestamp },
    Move { dx: i32, dy: i32, time: Timestamp },
    Wheel { delta: i32, horizontal: bool, time: Timestamp },
}

impl Button {
    /// The name of a button.
    pub open spec fn named(self) -> Seq<char> {
        match self {
            Button::Left => "left"@,
            Button::Right => "right"@,
            Button::Middle => "middle"@,
            Button::Side => "side"@,
            Button::Extra => "extra"@,
        }
    }

    /// The button that a name stands for, in capital or small letters.
    pub open spec fn meant(value: Seq<char>) -> Option<Button> {
        let name = text::lowered(value);
        if name == "left"@ {
            Some(Button::Left)
        } else if name == "right"@ {
            Some(Button::Right)
        } else if name == "middle"@ {
            Some(Button::Middle)
        } else if name == "side"@ || name == "x"@ {
            Some(Button::Side)
        } else if name == "extra"@ || name == "x2"@ {
            Some(Button::Extra)
        } else {
            None
        }
    }

    /// The name of the button, as it stands in recordings.
    pub fn name(self) -> (name: &'static str)
        ensures
            name@ == self.named(),
    {
        match self {
            Button::Left => "left",
            Button::Right => "right",
            Button::Middle => "middle",
            Button::Side => "side",
            Button::Extra => "extra",
        }
    }

    /// Reads the name of a button.
    pub fn parse(value: &str) -> (button: Result<Button, String>)
        ensures
            match button {
                Ok(found) => Button::meant(value@) == Some(found),
                Err(message) => Button::meant(value@) is None && message@
                    == "unknown mouse button: "@ + value@,
            },
    {
        let letters: Vec<char> = chars_of(value);
        let name: Vec<char> = to_lowered(&letters);
        if is_text(&name, "left") {
            Ok(Button::Left)
        } else if is_text(&name, "right") {
            Ok(Button::Right)
        } else if is_text(&name, "middle") {
            Ok(Button::Middle)
        } else if is_text(&name, "side") || is_text(&name, "x") {
            Ok(Button::Side)
        } else if is_text(&name, "extra") || is_text(&name, "x2") {
            Ok(Button::Extra)
        } else {
            Err(append(copy_text("unknown mouse button: "), value))
        }
    }
}

impl std::str::FromStr for Button {
    type Err = String;

    fn from_str(value: &str) -> (button: Result<Button, String>)
        ensures
            match button {
                Ok(found) => Button::meant(value@) == Some(found),
                Err(message) => Button::meant(value@) is None && message@
                    == "unknown mouse button: "@ + value@,
            },
    {
        Button::parse(value)
    }
}

impl Timestamp {
    /// The place of a time in the total order of floating-point numbers, in
    /// which negative numbers come before positive ones and not-a-number values
    /// stand at the ends.
    pub open spec fn rank(self) -> int {
        if self.bits < 0x8000_0000_0000_0000 {
            self.bits as int
        } else {
            0x7fff_ffff_ffff_ffff - self.bits
        }
    }

    /// Whether a time is not after another in the total order.
    pub fn not_after(self, other: Timestamp) -> (yes: bool)
        ensures
            yes == (self.rank() <= other.rank()),
    {
        if self.bits < 0x8000_0000_0000_0000 {
            other.bits < 0x8000_0000_0000_0000 && self.bits <= other.bits
        } else {
            other.bits < 0x8000_0000_0000_0000 || self.bits >= other.bits
        }
    }
}

impl MouseEvent {
    /// When the event happened.
    pub open spec fn happened(self) -> Timestamp {
        match self {
            MouseEvent::Button { time, .. } => time,
            MouseEvent::Move { time, .. } => time,
            MouseEvent::Wheel { time, .. } => time,
        }
    }

    /// When the event happened.
    pub fn timestamp(&self) -> (time: Timestamp)
        ensures
            time == self.happened(),
    {
        match *self {
            MouseEvent::Button { time, .. } => time,
            MouseEvent::Move { time, .. } => time,
            MouseEvent::Wheel { time, .. } => time,
        }
    }
}

/// The name of a button stands for that button, and for no other.
pub proof fn law_button_name_reads_back(button: Button)
    ensures
        Button::meant(button.named()) == Some(button),
{
    reveal_strlit("left");
    reveal_strlit("right");
    reveal_strlit("middle");
    reveal_strlit("side");
    reveal_strlit("extra");
    reveal_strlit("x");
    reveal_strlit("x2");
    let name = button.named();
    assert(text::lowered(name) == name);
    assert("left"@.len() == 4 && "right"@.len() == 5 && "middle"@.len() == 6);
    assert("side"@.len() == 4 && "extra"@.len() == 5 && "x"@.len() == 1 && "x2"@.len() == 2);
    assert("left"@[0] == 'l' && "side"@[0] == 's' && "right"@[0] == 'r' && "extra"@[0] == 'e');
}

/// An event happened at the time that it holds, whatever it is about.
pub proof fn law_event_has_its_time(
    button: Button,
    state: ButtonState,
    first: i32,
    second: i32,
    horizontal: bool,
    time: Timestamp,
)
    ensures
        (MouseEvent::Button { button, state, time }).happened() == time,
        (MouseEvent::Move { dx: first, dy: second, time }).happened() == time,
        (MouseEvent::Wheel { delta: first, horizontal, time }).happened() == time,
{
}

/// Times are ordered as the numbers are that their bits stand for: one with the sign set
/// comes before one without, of two without it the smaller magnitude comes first, and of
/// two with it the larger. Only equal times have equal places.
pub proof fn law_times_are_ordered_as_numbers(
    left: Timestamp,
    right: Timestamp,
    left_sign: int,
    left_magnitude: int,
    right_sign: int,
    right_magnitude: int,
)
    requires
        0 <= left_sign <= 1,
        0 <= right_sign <= 1,
        0 <= left_magnitude < 0x8000_0000_0000_0000,
        0 <= right_magnitude < 0x8000_0000_0000_0000,
        left.bits == left_sign * 0x8000_0000_0000_0000 + left_magnitude,
        right.bits == right_sign * 0x8000_0000_0000_0000 + right_magnitude,
    ensures
        left_sign == 1 && right_sign == 0 ==> left.rank() < right.rank(),
        left_sign == 0 && right_sign == 0 ==> (left.rank() < right.rank() <==> left_magnitude
            < right_magnitude),
        left_sign == 1 && right_sign == 1 ==> (left.rank() < right.rank() <==> left_magnitude
            > right_magnitude),
        left.rank() == right.rank() <==> left == right,
{
}

/// A button is known by its name and by no other text but two short forms, in letters of
/// any case.
pub proof fn law_button_names(value: Seq<char>)
    ensures
        Button::meant(value) == Some(Button::Left) <==> text::lowered(value) == "left"@,
        Button::meant(value) == Some(Button::Right) <==> text::lowered(value) == "right"@,
        Button::meant(value) == Some(Button::Middle) <==> text::lowered(value) == "middle"@,
        Button::meant(value) == Some(Button::Side) <==> text::lowered(value) == "side"@
            || text::lowered(value) == "x"@,
        Button::meant(value) == Some(Button::Extra) <==> text::lowered(value) == "extra"@
            || text::lowered(value) == "x2"@,
{
    reveal_strlit("left");
    reveal_strlit("right");
    reveal_strlit("middle");
    reveal_strlit("side");
    reveal_strlit("extra");
    reveal_strlit("x");
    reveal_strlit("x2");
    assert("left"@.len() == 4 && "right"@.len() == 5 && "middle"@.len() == 6);
    assert("side"@.len() == 4 && "extra"@.len() == 5 && "x"@.len() == 1 && "x2"@.len() == 2);
    assert("left"@[0] == 'l' && "side"@[0] == 's' && "right"@[0] == 'r' && "extra"@[0] == 'e');
}

} // verus!
