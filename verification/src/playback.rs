//! How fast recordings are played, and what playing one asks for.

use crate::event::Timestamp;
use vstd::prelude::*;

verus! {

/// A factor by which a recording is played faster, held as the bit pattern of
/// its 64-bit binary floating-point number.
#[derive(Clone, Copy, Debug, Eq, PartialEq, Structural)]
pub struct Speed {
    pub bits: u64,
}

impl Speed {
    /// Whether the factor is above zero: its sign bit is clear, and it is
    /// neither zero nor a not-a-number value.
    pub open spec fn positive(self) -> bool {
        0 < self.bits <= 0x7ff0_0000_0000_0000
    }

    /// Whether the factor is below zero: its sign bit is set, and it is neither
    /// zero nor a not-a-number value.
    pub open spec fn negative(self) -> bool {
        0x8000_0000_0000_0000 < self.bits <= 0xfff0_0000_0000_0000
    }

    /// Decides whether the factor is above zero, so that there are delays.
    pub fn is_positive(self) -> (yes: bool)
        ensures
            yes == self.positive(),
    {
        0 < self.bits && self.bits <= 0x7ff0_0000_0000_0000
    }

    /// Decides whether the factor is below zero.
    pub fn is_negative(self) -> (yes: bool)
        ensures
            yes == self.negative(),
    {
        0x8000_0000_0000_0000 < self.bits && self.bits <= 0xfff0_0000_0000_0000
    }
}

/// What happens next while a recording is played.
#[derive(Debug)]
pub enum PlaybackStep<E> {
    /// The time between two events, divided by the speed, is to pass.
    Delay { from: Timestamp, to: Timestamp },
    /// So many nanoseconds are to pass.
    Hold { nanoseconds: u64 },
    /// An event was dealt with; there may be more.
    Continue,
    /// There is nothing left to play, or an event could not be sent.
    Finished(Result<(), E>),
}

/// A factor is above zero where its sign is clear and below zero where it is set, but for
/// zero itself and for what is no number.
pub proof fn law_speed_has_a_sign(speed: Speed, sign: int, exponent: int, fraction: int)
    requires
        0 <= sign <= 1,
        0 <= exponent < 0x800,
        0 <= fraction < 0x10_0000_0000_0000,
        speed.bits == (sign * 0x800 + exponent) * 0x10_0000_0000_0000 + fraction,
    ensures
        ({
            let zero = exponent == 0 && fraction == 0;
            let number = exponent < 0x7ff || fraction == 0;
            &&& speed.positive() <==> sign == 0 && !zero && number
            &&& speed.negative() <==> sign == 1 && !zero && number
        }),
{
}

} // verus!
