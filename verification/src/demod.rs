//! Demodulation: the decisions and the bookkeeping of the receive modes.

use vstd::prelude::*;

pub mod fm;
pub mod rds;
pub mod ssb;

verus! {

/// Modes the receiver can be switched between.
#[derive(Debug, Clone, Copy, PartialEq, Eq, Structural)]
pub enum Mode {
    /// Narrowband FM. Voice repeaters, marine, amateur, business radio.
    Nfm,
    /// Wideband FM. Broadcast, optionally with stereo and RDS.
    Wfm,
    /// Amplitude modulation, envelope detected.
    Am,
    /// Upper sideband.
    Usb,
    /// Lower sideband.
    Lsb,
    /// Continuous wave. Upper sideband with a narrow filter and an audible pitch offset.
    Cw,
}

impl Mode {
    /// Channel bandwidth the mode expects, in hertz.
    pub open spec fn spec_bandwidth(self) -> u32 {
        match self {
            Mode::Nfm => 12_500,
            Mode::Wfm => 200_000,
            Mode::Am => 10_000,
            Mode::Usb => 2_700,
            Mode::Lsb => 2_700,
            Mode::Cw => 500,
        }
    }

    /// Channel bandwidth the mode expects, in hertz.
    ///
    /// This is the full width of the signal, so the channel filter that precedes the
    /// demodulator should be a low-pass at half of it.
    pub fn bandwidth(self) -> (hz: u32)
        ensures
            hz == self.spec_bandwidth(),
    {
        match self {
            Mode::Nfm => 12_500,
            Mode::Wfm => 200_000,
            Mode::Am => 10_000,
            Mode::Usb | Mode::Lsb => 2_700,
            Mode::Cw => 500,
        }
    }

    /// Whether the mode carries a stereo subcarrier worth decoding.
    pub fn is_stereo_capable(self) -> (capable: bool)
        ensures
            capable == (self is Wfm),
    {
        match self {
            Mode::Wfm => true,
            _ => false,
        }
    }

    /// The name of a mode on the display.
    pub open spec fn spec_label(self) -> Seq<char> {
        match self {
            Mode::Nfm => "NFM"@,
            Mode::Wfm => "WFM"@,
            Mode::Am => "AM"@,
            Mode::Usb => "USB"@,
            Mode::Lsb => "LSB"@,
            Mode::Cw => "CW"@,
        }
    }

    /// The name of the mode on the display.
    pub fn label(self) -> (label: &'static str)
        ensures
            label@ == self.spec_label(),
    {
        match self {
            Mode::Nfm => "NFM",
            Mode::Wfm => "WFM",
            Mode::Am => "AM",
            Mode::Usb => "USB",
            Mode::Lsb => "LSB",
            Mode::Cw => "CW",
        }
    }
}

/// Each mode is labelled by its initials, so no two labels are the same.
pub proof fn labels_are_initials(mode: Mode)
    ensures
        mode.spec_label() == (match mode {
            Mode::Nfm => seq!['N', 'F', 'M'],
            Mode::Wfm => seq!['W', 'F', 'M'],
            Mode::Am => seq!['A', 'M'],
            Mode::Usb => seq!['U', 'S', 'B'],
            Mode::Lsb => seq!['L', 'S', 'B'],
            Mode::Cw => seq!['C', 'W'],
        }),
{
    reveal_strlit("NFM");
    reveal_strlit("WFM");
    reveal_strlit("AM");
    reveal_strlit("USB");
    reveal_strlit("LSB");
    reveal_strlit("CW");
    match mode {
        Mode::Nfm => {
            assert(mode.spec_label() =~= seq!['N', 'F', 'M']);
        },
        Mode::Wfm => {
            assert(mode.spec_label() =~= seq!['W', 'F', 'M']);
        },
        Mode::Am => {
            assert(mode.spec_label() =~= seq!['A', 'M']);
        },
        Mode::Usb => {
            assert(mode.spec_label() =~= seq!['U', 'S', 'B']);
        },
        Mode::Lsb => {
            assert(mode.spec_label() =~= seq!['L', 'S', 'B']);
        },
        Mode::Cw => {
            assert(mode.spec_label() =~= seq!['C', 'W']);
        },
    }
}

} // verus!
