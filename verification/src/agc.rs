//! De-emphasis time constants.

use vstd::prelude::*;

verus! {

/// Regional de-emphasis time constants.
#[derive(Debug, Clone, Copy, PartialEq, Eq, Structural)]
pub enum Emphasis {
    /// 50 microseconds. Europe, Africa, Asia, Australia.
    Us50,
    /// 75 microseconds. North and South America, South Korea.
    Us75,
    /// No de-emphasis. Correct for narrowband voice, which is not pre-emphasised the
    /// same way, and useful when feeding a decoder rather than a speaker.
    Off,
}

impl Emphasis {
    /// The time constant in microseconds.
    pub open spec fn spec_microseconds(self) -> u32 {
        match self {
            Emphasis::Us50 => 50,
            Emphasis::Us75 => 75,
            Emphasis::Off => 0,
        }
    }

    /// The time constant in microseconds, zero for none.
    pub fn microseconds(self) -> (us: u32)
        ensures
            us == self.spec_microseconds(),
    {
        match self {
            Emphasis::Us50 => 50,
            Emphasis::Us75 => 75,
            Emphasis::Off => 0,
        }
    }

    /// The constant with so many microseconds; anything but the two regional ones is none.
    pub fn from_microseconds(us: u32) -> (emphasis: Self)
        ensures
            us == 50 || us == 75 ==> emphasis.spec_microseconds() == us,
            us != 50 && us != 75 ==> emphasis is Off,
    {
        match us {
            75 => Emphasis::Us75,
            50 => Emphasis::Us50,
            _ => Emphasis::Off,
        }
    }
}

/// The two regional constants are 50 and 75 microseconds; without de-emphasis there is none.
pub proof fn constants_are_the_regional_ones(emphasis: Emphasis)
    ensures
        emphasis is Us50 <==> emphasis.spec_microseconds() == 50,
        emphasis is Us75 <==> emphasis.spec_microseconds() == 75,
        emphasis is Off <==> emphasis.spec_microseconds() == 0,
{
}

} // verus!
