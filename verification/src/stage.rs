//! The stages of the receive pipeline: what each mode asks of them, and how large their
//! buffers are.

use vstd::prelude::*;

use crate::demod::ssb::Sideband;
use crate::demod::Mode;

verus! {

/// Demodulation modes, as the display numbers them.
#[derive(Debug, Clone, Copy, PartialEq, Eq, Structural)]
pub enum DemodMode {
    Nfm,
    Wfm,
    Am,
    Usb,
    Lsb,
    Cw,
}

impl DemodMode {
    /// The mode that goes by this name.
    pub open spec fn spec_mode(self) -> Mode {
        match self {
            DemodMode::Nfm => Mode::Nfm,
            DemodMode::Wfm => Mode::Wfm,
            DemodMode::Am => Mode::Am,
            DemodMode::Usb => Mode::Usb,
            DemodMode::Lsb => Mode::Lsb,
            DemodMode::Cw => Mode::Cw,
        }
    }
}

impl From<DemodMode> for Mode {
    fn from(m: DemodMode) -> (mode: Self) {
        match m {
            DemodMode::Nfm => Mode::Nfm,
            DemodMode::Wfm => Mode::Wfm,
            DemodMode::Am => Mode::Am,
            DemodMode::Usb => Mode::Usb,
            DemodMode::Lsb => Mode::Lsb,
            DemodMode::Cw => Mode::Cw,
        }
    }
}

impl vstd::std_specs::convert::FromSpecImpl<DemodMode> for Mode {
    open spec fn obeys_from_spec() -> bool {
        true
    }

    open spec fn from_spec(m: DemodMode) -> Mode {
        m.spec_mode()
    }
}

/// Audio samples per second.
pub const AUDIO_RATE: u32 = 48_000;

/// Which demodulator a channel goes through.
#[derive(Debug, Clone, Copy, PartialEq, Eq, Structural)]
pub enum Route {
    /// Discriminated, then split into two channels, with the data subcarrier decoded while
    /// the pilot is locked.
    Multiplex,
    /// Discriminated, one channel.
    Discriminator,
    /// Envelope detected, one channel.
    Envelope,
    /// One sideband, one channel.
    Product,
}

impl Route {
    /// Whether the noise squelch gates this route.
    pub open spec fn gated(self) -> bool {
        self is Multiplex || self is Discriminator
    }
}

/// What a mode asks of the channel stage.
#[derive(Debug, Clone, Copy, PartialEq, Eq, Structural)]
pub struct ChannelPlan {
    pub route: Route,
    /// Rate to decimate the capture to, as nearly as it divides.
    pub target_rate: u32,
    /// Peak deviation of the discriminator, in hertz.
    pub deviation: u32,
    pub sideband: Sideband,
    /// Full width of the signal, in hertz.
    pub bandwidth: u32,
}

/// What a mode asks of the channel stage.
pub open spec fn spec_channel_plan(mode: Mode) -> ChannelPlan {
    ChannelPlan {
        route: match mode {
            Mode::Wfm => Route::Multiplex,
            Mode::Nfm => Route::Discriminator,
            Mode::Am => Route::Envelope,
            _ => Route::Product,
        },
        target_rate: if mode is Wfm {
            240_000
        } else {
            48_000
        },
        deviation: if mode is Wfm {
            75_000
        } else {
            5_000
        },
        sideband: if mode is Lsb {
            Sideband::Lower
        } else {
            Sideband::Upper
        },
        bandwidth: mode.spec_bandwidth(),
    }
}

impl ChannelPlan {
    /// Chooses what a mode needs.
    ///
    /// Wideband FM needs the stereo pilot at 19 kHz and the data subcarrier at 57 kHz, so its
    /// channel rate cannot go below about 150 kHz whatever the audio needs. Narrower modes do
    /// not carry bandwidth that they would only throw away.
    pub fn new(mode: Mode) -> (plan: Self)
        ensures
            plan == spec_channel_plan(mode),
    {
        let wide = mode.is_stereo_capable();
        Self {
            route: match mode {
                Mode::Wfm => Route::Multiplex,
                Mode::Nfm => Route::Discriminator,
                Mode::Am => Route::Envelope,
                Mode::Usb | Mode::Lsb | Mode::Cw => Route::Product,
            },
            target_rate: if wide {
                240_000
            } else {
                48_000
            },
            deviation: if wide {
                75_000
            } else {
                5_000
            },
            sideband: Sideband::for_mode(mode),
            bandwidth: mode.bandwidth(),
        }
    }
}

/// Room for a decimated block: what divides out, and two samples more for where the phase
/// happens to stand.
pub fn channel_capacity(max_samples: usize, decimation: usize) -> (capacity: usize)
    requires
        decimation >= 1,
        max_samples <= usize::MAX - 2,
    ensures
        capacity == max_samples / decimation + 2,
{
    proof {
        assert(max_samples / decimation <= max_samples) by (nonlinear_arith)
            requires
                decimation >= 1,
                max_samples >= 0,
        ;
    }
    max_samples / decimation + 2
}

/// A decimated block always fits the room made for it.
pub proof fn decimated_blocks_fit(max_samples: nat, decimation: nat, n: nat)
    requires
        decimation >= 1,
        n <= max_samples,
    ensures
        crate::fir::most_kept(decimation, n) <= max_samples / decimation + 2,
{
    vstd::arithmetic::div_mod::lemma_div_is_ordered(
        n as int,
        max_samples as int,
        decimation as int,
    );
}

/// What a channel reports after a block.
#[derive(Debug, Clone, Copy, PartialEq, Eq, Structural)]
pub struct ChannelStatus {
    pub stereo: bool,
    pub squelch_open: bool,
    pub frames: usize,
}

impl ChannelStatus {
    /// Before anything has been demodulated.
    pub fn new() -> (status: Self)
        ensures
            status == (ChannelStatus { stereo: false, squelch_open: true, frames: 0 }),
    {
        Self { stereo: false, squelch_open: true, frames: 0 }
    }

    /// An empty block produces no audio and changes nothing else.
    pub fn empty_block(&mut self)
        ensures
            *final(self) == (ChannelStatus { frames: 0, ..*old(self) }),
    {
        self.frames = 0;
    }

    /// Takes the outcome of a block. Routes that are not gated always count as open, and only
    /// the multiplex can be stereo.
    pub fn block(&mut self, route: Route, squelch_open: bool, stereo: bool, frames: usize)
        ensures
            *final(self) == (ChannelStatus {
                stereo: stereo && route is Multiplex,
                squelch_open: squelch_open || !route.gated(),
                frames,
            }),
    {
        match route {
            Route::Multiplex => {
                self.squelch_open = squelch_open;
                self.stereo = stereo;
            },
            Route::Discriminator => {
                self.squelch_open = squelch_open;
                self.stereo = false;
            },
            Route::Envelope | Route::Product => {
                self.squelch_open = true;
                self.stereo = false;
            },
        }
        self.frames = frames;
    }
}

/// Whether data is decoded from a block. The subcarrier is suppressed, so its only phase
/// reference is three times the stereo pilot: without one there is nothing to lock to.
pub fn decodes_data(route: Route, locked: bool) -> (decodes: bool)
    ensures
        decodes == (route is Multiplex && locked),
{
    match route {
        Route::Multiplex => locked,
        _ => false,
    }
}

/// The programme identification to show, zero until one is known.
pub fn shown_program_id(program_id: Option<u16>) -> (id: u32)
    ensures
        id == match program_id {
            Some(p) => p as u32,
            None => 0,
        },
{
    match program_id {
        Some(p) => p as u32,
        None => 0,
    }
}

/// Every mode goes through the demodulator that suits it: the envelope detector serves AM and
/// nothing else, the product demodulator the two sidebands and CW, the discriminator the two FM
/// modes, and only broadcast FM is split as a multiplex. The noise squelch works on what is
/// discriminated. Only lower sideband listens below the carrier.
pub proof fn modes_go_through_their_demodulator(mode: Mode)
    ensures
        ({
            let plan = spec_channel_plan(mode);
            &&& plan.route is Envelope <==> mode is Am
            &&& plan.route is Product <==> mode is Usb || mode is Lsb || mode is Cw
            &&& plan.route is Discriminator <==> mode is Nfm
            &&& plan.route is Multiplex <==> mode is Wfm
            &&& plan.route.gated() <==> mode is Nfm || mode is Wfm
            &&& plan.sideband is Lower <==> mode is Lsb
        }),
{
}

/// The channel rate carries what the mode needs and no more than that: the whole width of the
/// signal, and for broadcast FM the data subcarrier at 57 kHz with its sidebands of 2.4 kHz and
/// the deviation of 75 kHz. It is a whole multiple of the audio rate, and a tenth of the capture
/// rate or less.
pub proof fn channel_rates_carry_the_signal(mode: Mode)
    ensures
        ({
            let plan = spec_channel_plan(mode);
            &&& plan.bandwidth < plan.target_rate
            &&& plan.target_rate % AUDIO_RATE == 0
            &&& crate::command::CAPTURE_RATE % plan.target_rate == 0
            &&& mode is Wfm ==> 2 * (57_000 + 2_400) < plan.target_rate && plan.deviation == 75_000
                && plan.target_rate == 5 * AUDIO_RATE && crate::command::CAPTURE_RATE == 10
                * plan.target_rate
            &&& mode !is Wfm ==> plan.target_rate == AUDIO_RATE && plan.deviation == 5_000
        }),
        AUDIO_RATE == 48_000,
        crate::command::CAPTURE_RATE == 2_400_000,
{
}

/// The width of each mode's signal.
pub proof fn modes_are_as_wide_as_their_signals(mode: Mode)
    ensures
        spec_channel_plan(mode).bandwidth == (match mode {
            Mode::Wfm => 200_000u32,
            Mode::Nfm => 12_500,
            Mode::Am => 10_000,
            Mode::Usb | Mode::Lsb => 2_700,
            Mode::Cw => 500,
        }),
{
}

/// The display's modes and the receiver's go by the same names.
pub proof fn modes_keep_their_names(m: DemodMode)
    ensures
        m is Nfm <==> m.spec_mode() is Nfm,
        m is Wfm <==> m.spec_mode() is Wfm,
        m is Am <==> m.spec_mode() is Am,
        m is Usb <==> m.spec_mode() is Usb,
        m is Lsb <==> m.spec_mode() is Lsb,
        m is Cw <==> m.spec_mode() is Cw,
{
}

} // verus!
