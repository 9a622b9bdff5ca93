//! Single sideband: which side of the carrier is wanted.

use vstd::prelude::*;

use crate::demod::Mode;

verus! {

#[derive(Debug, Clone, Copy, PartialEq, Eq, Structural)]
pub enum Sideband {
    Upper,
    Lower,
}

impl Sideband {
    /// The sideband that a mode listens to. Everything but lower sideband uses the upper one.
    pub fn for_mode(mode: Mode) -> (sideband: Self)
        ensures
            sideband == (if mode is Lsb {
                Sideband::Lower
            } else {
                Sideband::Upper
            }),
    {
        match mode {
            Mode::Lsb => Sideband::Lower,
            _ => Sideband::Upper,
        }
    }
}

/// How far behind the shift the recombining oscillator has to start: the delay of a
/// linear-phase filter of `taps` taps.
pub fn filter_delay(taps: usize) -> (delay: usize)
    requires
        taps >= 1,
    ensures
        delay == (taps - 1) / 2,
{
    (taps - 1) / 2
}

} // verus!
