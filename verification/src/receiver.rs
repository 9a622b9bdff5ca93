//! The whole receiver: bringing it up, and what its controls mean.

use vstd::prelude::*;

use crate::command::CAPTURE_RATE;
use crate::conversation::{carried, group_carried, Exchange, Step};
use crate::r82xx::{
    edit_plan, edited_all, gain_edits, shadowed, GainMode, R82xx, FIRST_REG, INIT_REGS,
};
use crate::regs;
use crate::regs::{extended_ratio, first_nearest, spec_band_for, spec_ratio, Band, GAIN_VALUES};
use crate::rtl2832::{
    burst_plan, in_brackets, program_plan, r82xx_program, rate_program, read_in_brackets,
    repeater_plan, startup_program, tuner_read_step, Rtl2832, R828D_I2C_ADDR, R82XX_CHECK_VALUE,
};
use crate::transport::{group_reached, Transport, TransportError};

verus! {

broadcast use group_reached;

/// Where bringing a receiver up ended.
#[derive(Debug)]
pub enum OpenError {
    /// The demodulator could not be initialised.
    Baseband(TransportError),
    /// The tuner could not be asked for.
    Probe(TransportError),
    /// No tuner answered at the address that an R828D has.
    NoTuner,
    /// The tuner could not be initialised.
    Tuner(TransportError),
    /// The data path could not be set up.
    DataPath(TransportError),
}

/// The probe between two histories went through, and the tuner gave this byte.
pub open spec fn answered(
    before: Seq<Exchange>,
    after: Seq<Exchange>,
    verify: bool,
    identified: bool,
) -> bool {
    let at = before.len() + repeater_plan(verify, true).len();
    &&& read_in_brackets(before, after, verify, tuner_read_step(R828D_I2C_ADDR, 1), None)
    &&& identified == (after[at as int].bytes() == seq![R82XX_CHECK_VALUE])
}

/// Between `before` and `after` a receiver was brought up as far as `error` says: the
/// demodulator, then the question whether a tuner is there, then the tuner, then the data
/// path, each only after the one before it. The tuner bus is closed again whatever failed
/// behind it.
pub open spec fn brought_up(
    before: Seq<Exchange>,
    after: Seq<Exchange>,
    verify: bool,
    xtal: u32,
    error: Option<OpenError>,
) -> bool {
    let startup = program_plan(verify, startup_program());
    let tuner = burst_plan(R828D_I2C_ADDR, FIRST_REG, INIT_REGS@);
    let path = program_plan(verify, r82xx_program(xtal));
    match error {
        Some(OpenError::Baseband(e)) => carried(before, after, startup, Some(e)),
        Some(OpenError::Probe(e)) => exists|h: Seq<Exchange>| #[trigger]
            carried(before, h, startup, None) && read_in_brackets(
                h,
                after,
                verify,
                tuner_read_step(R828D_I2C_ADDR, 1),
                Some(e),
            ),
        Some(OpenError::NoTuner) => exists|h: Seq<Exchange>| #[trigger]
            carried(before, h, startup, None) && answered(h, after, verify, false),
        Some(OpenError::Tuner(e)) => exists|h: Seq<Exchange>, i: Seq<Exchange>| #[trigger]
            carried(before, h, startup, None) && #[trigger] answered(h, i, verify, true)
                && in_brackets(i, after, verify, tuner, Some(e)),
        Some(OpenError::DataPath(e)) => exists|
            h: Seq<Exchange>,
            i: Seq<Exchange>,
            j: Seq<Exchange>,
        | #[trigger]
            carried(before, h, startup, None) && #[trigger] answered(h, i, verify, true)
                && #[trigger] in_brackets(i, j, verify, tuner, None) && carried(j, after, path, Some(e)),
        None => exists|h: Seq<Exchange>, i: Seq<Exchange>, j: Seq<Exchange>| #[trigger]
            carried(before, h, startup, None) && #[trigger] answered(h, i, verify, true)
                && #[trigger] in_brackets(i, j, verify, tuner, None) && carried(j, after, path, None),
    }
}

/// The error that a result carries, if any.
pub open spec fn open_error<A>(r: Result<A, OpenError>) -> Option<OpenError> {
    match r {
        Ok(_) => None,
        Err(e) => Some(e),
    }
}

/// Brings a device up from cold to the point where it can be tuned and can stream.
///
/// `is_v4` comes from the USB descriptor strings. It is not discoverable over the bus, and it
/// decides which reference clock every synthesiser calculation uses.
pub fn bring_up<T: Transport>(rtl: &mut Rtl2832<T>, is_v4: bool) -> (r: Result<
    R82xx<T>,
    OpenError,
>)
    ensures
        brought_up(
            old(rtl).history(),
            final(rtl).history(),
            old(rtl).verifies(),
            old(rtl).crystal(),
            open_error(r),
        ),
        final(rtl).carries_on(old(rtl)),
        old(rtl).steady() ==> (r matches Err(error) ==> error is NoTuner),
        r matches Ok(tuner) ==> {
            &&& tuner.wf()
            &&& tuner.address() == R828D_I2C_ADDR
            &&& tuner.registers() == INIT_REGS@
            &&& tuner.selected_band() is None
            &&& tuner.last_tuned() == 0
            &&& tuner.intermediate() == crate::rtl2832::DEFAULT_IF_HZ
            &&& tuner.crystal() == if is_v4 {
                regs::RTL_XTAL
            } else {
                16_000_000
            }
        },
{
    let ghost before = rtl.history();
    match rtl.init_baseband() {
        Ok(()) => {},
        Err(e) => {
            return Err(OpenError::Baseband(e));
        },
    }
    let ghost h = rtl.history();
    let present = match rtl.probe_tuner(R828D_I2C_ADDR) {
        Ok(present) => present,
        Err(e) => {
            return Err(OpenError::Probe(e));
        },
    };
    let ghost i = rtl.history();
    assert(answered(h, i, rtl.verifies(), present));
    if !present {
        return Err(OpenError::NoTuner);
    }
    // The reference clock is the one thing that cannot be read off the device, so it comes
    // from the descriptor strings.
    let mut tuner = if is_v4 {
        R82xx::new_v4()
    } else {
        R82xx::new_legacy_r828d()
    };
    match tuner.init(rtl) {
        Ok(()) => {},
        Err(e) => {
            return Err(OpenError::Tuner(e));
        },
    }
    let ghost j = rtl.history();
    match rtl.configure_for_r82xx() {
        Ok(()) => {},
        Err(e) => {
            return Err(OpenError::DataPath(e));
        },
    }
    Ok(tuner)
}

/// Where setting a receiver up for listening ended.
#[derive(Debug)]
pub enum ListenError {
    /// The sample rate could not be programmed.
    Rate(TransportError),
    /// The gain could not be set.
    Gain(TransportError),
}

/// The transfers that hand the gain to the tuner's own loops.
pub open spec fn automatic_gain_plan(verify: bool, i2c_addr: u8, shadow: Seq<u8>) -> Seq<Step> {
    repeater_plan(verify, true) + (edit_plan(i2c_addr, shadow, gain_edits(GainMode::Automatic))
        + repeater_plan(verify, false))
}

/// Sets a receiver up for listening at the capture rate, with the gain left to the tuner.
/// Gives the rate achieved as a numerator and a denominator.
pub fn start_listening<T: Transport>(rtl: &mut Rtl2832<T>, tuner: &mut R82xx<T>) -> (r: Result<
    (u64, u32),
    ListenError,
>)
    requires
        old(tuner).wf(),
    ensures
        ({
            let before = old(rtl).history();
            let after = final(rtl).history();
            let verify = old(rtl).verifies();
            let xtal = old(rtl).crystal();
            let rate = program_plan(verify, rate_program(CAPTURE_RATE, xtal));
            let gain = automatic_gain_plan(
                verify,
                old(tuner).address(),
                old(tuner).registers(),
            );
            match r {
                Ok(achieved) => {
                    &&& carried(before, after, rate + gain, None)
                    &&& achieved.0 == xtal * 0x40_0000
                    &&& achieved.1 == extended_ratio(spec_ratio(CAPTURE_RATE, xtal))
                    &&& final(tuner).registers() == edited_all(
                        old(tuner).registers(),
                        gain_edits(GainMode::Automatic),
                    )
                },
                Err(ListenError::Rate(e)) => carried(before, after, rate, Some(e)) && *final(tuner)
                    == *old(tuner),
                Err(ListenError::Gain(e)) => exists|h: Seq<Exchange>| #[trigger]
                    carried(before, h, rate, None) && in_brackets(
                        h,
                        after,
                        verify,
                        edit_plan(
                            old(tuner).address(),
                            old(tuner).registers(),
                            gain_edits(GainMode::Automatic),
                        ),
                        Some(e),
                    ) && final(tuner).registers() == shadowed(
                        old(tuner).registers(),
                        old(tuner).address(),
                        after,
                        h.len() as int,
                    ),
            }
        }),
        final(rtl).carries_on(old(rtl)),
        old(rtl).steady() ==> r is Ok,
        final(tuner).wf(),
        final(tuner).same_but_shadow(old(tuner)),
{
    broadcast use group_carried;

    let achieved = match rtl.set_sample_rate(CAPTURE_RATE) {
        Ok(achieved) => achieved,
        Err(e) => {
            return Err(ListenError::Rate(e));
        },
    };
    match tuner.set_gain(rtl, GainMode::Automatic) {
        Ok(()) => Ok(achieved),
        Err(e) => Err(ListenError::Gain(e)),
    }
}

/// The gain mode for a control: fixed gain in tenths of a decibel, snapped to what the tuner
/// supports, or automatic when it is negative.
pub fn gain_mode(tenths: i32) -> (mode: GainMode)
    ensures
        tenths < 0 ==> mode is Automatic,
        tenths >= 0 ==> exists|i: int| #[trigger]
            first_nearest(i, tenths as int) && mode == GainMode::Manual(GAIN_VALUES@[i]),
{
    if tenths < 0 {
        GainMode::Automatic
    } else {
        GainMode::Manual(regs::nearest_gain(tenths))
    }
}

/// Which port of the triplexer a frequency arrives on, for the display.
pub fn band_label(freq_hz: u32) -> (label: &'static str)
    ensures
        label@ == match spec_band_for(freq_hz) {
            Band::Hf => "HF"@,
            Band::Vhf => "VHF"@,
            Band::Uhf => "UHF"@,
        },
{
    match regs::band_for(freq_hz) {
        Band::Hf => "HF",
        Band::Vhf => "VHF",
        Band::Uhf => "UHF",
    }
}

/// Gain settings the tuner can actually reach, in tenths of a decibel.
pub fn supported_gains() -> (gains: Vec<i32>)
    ensures
        gains@ == GAIN_VALUES@,
{
    vstd::slice::slice_to_vec(GAIN_VALUES.as_slice())
}

} // verus!
