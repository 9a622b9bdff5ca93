//! Frequency modulation: the shutter of the noise squelch.

use vstd::prelude::*;

verus! {

/// Mutes the output when the channel carries only noise.
///
/// The noise itself is measured elsewhere; what the shutter takes is whether the level is well
/// below or well above the threshold. Between the two it keeps its state, so a signal that
/// hovers at the threshold does not chatter. Opening and closing is a ramp, since a hard mute
/// is an audible click.
#[derive(Debug, Clone, Copy, PartialEq, Eq, Structural)]
pub struct Squelch {
    enabled: bool,
    open: bool,
    /// Ramp applied while opening or closing, in samples.
    ramp_len: usize,
    ramp_pos: usize,
}

/// The state of a shutter.
pub struct Shutter {
    pub enabled: bool,
    pub open: bool,
    /// Samples from closed to open.
    pub length: nat,
    /// How many of them the shutter is open by.
    pub position: nat,
}

impl Shutter {
    /// The ramp has a length, and the position is on it.
    pub open spec fn wf(self) -> bool {
        &&& self.length >= 1
        &&& self.position <= self.length
    }

    /// After one sample whose noise was measured as this quiet or this noisy.
    pub open spec fn after(self, quiet: bool, noisy: bool) -> Shutter {
        if !self.enabled {
            self
        } else {
            let open = if quiet {
                true
            } else if noisy {
                false
            } else {
                self.open
            };
            Shutter {
                open,
                position: if open && self.position < self.length {
                    self.position + 1
                } else if !open && self.position > 0 {
                    (self.position - 1) as nat
                } else {
                    self.position
                },
                ..self
            }
        }
    }
}

impl View for Squelch {
    type V = Shutter;

    closed spec fn view(&self) -> Shutter {
        Shutter {
            enabled: self.enabled,
            open: self.open,
            length: self.ramp_len as nat,
            position: self.ramp_pos as nat,
        }
    }
}

impl Squelch {
    /// Builds a shutter that is switched off, with a ramp of at least one sample.
    pub fn new(ramp_len: usize) -> (squelch: Self)
        ensures
            squelch@.wf(),
            squelch@ == (Shutter {
                enabled: false,
                open: true,
                length: if ramp_len == 0 {
                    1
                } else {
                    ramp_len as nat
                },
                position: 0,
            }),
    {
        Self {
            enabled: false,
            open: true,
            ramp_len: if ramp_len == 0 {
                1
            } else {
                ramp_len
            },
            ramp_pos: 0,
        }
    }

    /// Switches the shutter on or off. Off, it is fully open.
    pub fn set_enabled(&mut self, enabled: bool)
        requires
            old(self)@.wf(),
        ensures
            final(self)@.wf(),
            final(self)@ == (if enabled {
                Shutter { enabled: true, ..old(self)@ }
            } else {
                Shutter {
                    enabled: false,
                    open: true,
                    position: old(self)@.length,
                    ..old(self)@
                }
            }),
    {
        self.enabled = enabled;
        if !enabled {
            self.open = true;
            self.ramp_pos = self.ramp_len;
        }
    }

    pub fn is_enabled(&self) -> (enabled: bool)
        ensures
            enabled == self@.enabled,
    {
        self.enabled
    }

    pub fn is_open(&self) -> (open: bool)
        ensures
            open == self@.open,
    {
        self.open
    }

    /// Back to rest: closed where the shutter is switched on, fully open where it is not.
    pub fn reset(&mut self)
        requires
            old(self)@.wf(),
        ensures
            final(self)@.wf(),
            final(self)@ == (Shutter {
                open: !old(self)@.enabled,
                position: if old(self)@.enabled {
                    0
                } else {
                    old(self)@.length
                },
                ..old(self)@
            }),
    {
        self.open = !self.enabled;
        self.ramp_pos = if self.open {
            self.ramp_len
        } else {
            0
        };
    }

    /// Takes one sample's measurement and gives the level to play it at, as a numerator and a
    /// denominator. Nothing is gated while the shutter is switched off.
    pub fn advance(&mut self, quiet: bool, noisy: bool) -> (level: (usize, usize))
        requires
            old(self)@.wf(),
        ensures
            final(self)@ == old(self)@.after(quiet, noisy),
            final(self)@.wf(),
            level.1 == old(self)@.length,
            level.0 == if old(self)@.enabled {
                final(self)@.position
            } else {
                old(self)@.length
            },
    {
        if !self.enabled {
            return (self.ramp_len, self.ramp_len);
        }
        if quiet {
            self.open = true;
        } else if noisy {
            self.open = false;
        }
        // Cross-fade rather than switching abruptly.
        if self.open && self.ramp_pos < self.ramp_len {
            self.ramp_pos += 1;
        } else if !self.open && self.ramp_pos > 0 {
            self.ramp_pos -= 1;
        }
        (self.ramp_pos, self.ramp_len)
    }

    /// Ends a block: a shutter that is switched off counts as open. Says whether it is.
    pub fn settle(&mut self) -> (open: bool)
        ensures
            open == final(self)@.open,
            final(self)@ == (Shutter {
                open: old(self)@.open || !old(self)@.enabled,
                ..old(self)@
            }),
    {
        if !self.enabled {
            self.open = true;
        }
        self.open
    }
}

/// Between the two thresholds the shutter stays as it is, and a single sample never moves the
/// level by more than one step of the ramp.
pub proof fn shutter_does_not_chatter_or_click(shutter: Shutter, quiet: bool, noisy: bool)
    requires
        shutter.wf(),
    ensures
        !quiet && !noisy ==> shutter.after(quiet, noisy).open == shutter.open,
        -1 <= shutter.after(quiet, noisy).position - shutter.position <= 1,
        shutter.after(quiet, noisy).wf(),
{
}

/// A quiet channel opens the shutter and a noisy one closes it; the level then moves one step
/// at a time, up while it is open and down while it is closed. Switched off, nothing moves.
pub proof fn shutter_follows_the_noise(shutter: Shutter, quiet: bool, noisy: bool)
    requires
        shutter.wf(),
    ensures
        ({
            let after = shutter.after(quiet, noisy);
            &&& !shutter.enabled ==> after == shutter
            &&& shutter.enabled && quiet ==> after.open
            &&& shutter.enabled && noisy && !quiet ==> !after.open
            &&& shutter.enabled && after.open ==> after.position == if shutter.position
                == shutter.length {
                shutter.length
            } else {
                shutter.position + 1
            }
            &&& shutter.enabled && !after.open ==> after.position == if shutter.position == 0 {
                0
            } else {
                shutter.position - 1
            }
            &&& after.length == shutter.length && after.enabled == shutter.enabled
        }),
{
}

/// After `n` samples of a channel that stays quiet, or stays noisy.
pub open spec fn after_many(shutter: Shutter, quiet: bool, n: nat) -> Shutter
    decreases n,
{
    if n == 0 {
        shutter
    } else {
        after_many(shutter, quiet, (n - 1) as nat).after(quiet, !quiet)
    }
}

/// A ramp's length of quiet opens the shutter fully, and as much noise closes it.
pub proof fn shutter_opens_and_closes_within_the_ramp(shutter: Shutter, quiet: bool, n: nat)
    requires
        shutter.wf(),
        shutter.enabled,
        n >= shutter.length,
    ensures
        after_many(shutter, quiet, n).position == if quiet {
            shutter.length
        } else {
            0
        },
        after_many(shutter, quiet, n).open == quiet,
{
    ramp_after(shutter, quiet, n);
}

proof fn ramp_after(shutter: Shutter, quiet: bool, n: nat)
    requires
        shutter.wf(),
        shutter.enabled,
    ensures
        ({
            let after = after_many(shutter, quiet, n);
            &&& after.wf() && after.enabled && after.length == shutter.length
            &&& n > 0 ==> after.open == quiet
            &&& quiet ==> after.position == if shutter.position + n <= shutter.length {
                shutter.position + n
            } else {
                shutter.length
            }
            &&& !quiet ==> after.position == if n <= shutter.position {
                shutter.position - n
            } else {
                0
            }
        }),
    decreases n,
{
    if n > 0 {
        ramp_after(shutter, quiet, (n - 1) as nat);
    }
}

} // verus!
