//! Register layout and the arithmetic that drives it.
//!
//! Everything here is a pure function of its inputs, which is deliberate: the parts of a
//! USB driver that are actually hard to get right are the divider calculations, and those
//! are the parts you cannot debug by staring at a bus trace.

use vstd::prelude::*;

use crate::binary64::{truncated_division, truncated_quotient};
use crate::regs::heapless_bytes::Bytes;

pub mod heapless_bytes;
pub mod sys;
pub mod usb;

verus! {

/// Crystal on the RTL2832U. The Blog V4 clocks its tuner from this same reference.
pub const RTL_XTAL: u32 = 28_800_000;

/// Frequency below which the Blog V4 routes through its built-in upconverter, and the
/// amount by which that upconverter shifts.
///
/// Both are the crystal frequency, because the upconverter's mixer is fed from the same
/// oscillator as everything else on the board.
pub const UPCONVERT_CROSSOVER: u32 = RTL_XTAL;

/// Boundary between the triplexer's VHF and UHF ports.
pub const VHF_UHF_BOUNDARY: u32 = 250_000_000;

/// Address spaces reachable over a control transfer.
#[derive(Debug, Clone, Copy, PartialEq, Eq, Structural)]
pub enum Block {
    Demod,
    Usb,
    Sys,
    Tuner,
    Rom,
    InfraRed,
    I2c,
}

impl Block {
    /// The number of the block on the wire.
    pub open spec fn spec_code(self) -> u16 {
        match self {
            Block::Demod => 0,
            Block::Usb => 1,
            Block::Sys => 2,
            Block::Tuner => 3,
            Block::Rom => 4,
            Block::InfraRed => 5,
            Block::I2c => 6,
        }
    }

    /// The number of the block on the wire.
    #[verifier::when_used_as_spec(spec_code)]
    pub fn code(self) -> (code: u16)
        ensures
            code == self.spec_code(),
    {
        match self {
            Block::Demod => 0,
            Block::Usb => 1,
            Block::Sys => 2,
            Block::Tuner => 3,
            Block::Rom => 4,
            Block::InfraRed => 5,
            Block::I2c => 6,
        }
    }
}

/// Marks a control transfer as a write rather than a read.
pub const WRITE_FLAG: u16 = 0x10;

/// Where a read from a flat block goes: the address, and the block in the high byte.
pub open spec fn spec_block_read(addr: u16, block: Block) -> (u16, u16) {
    (addr, (block.spec_code() * 0x100) as u16)
}

/// Where a write to a flat block goes: as a read, with the write flag added.
pub open spec fn spec_block_write(addr: u16, block: Block) -> (u16, u16) {
    (addr, (block.spec_code() * 0x100 + WRITE_FLAG) as u16)
}

/// Where a read from the demodulator goes: the low byte of the address above `0x20`, and
/// the page.
pub open spec fn spec_demod_read(page: u8, addr: u16) -> (u16, u16) {
    ((addr as int % 0x100 * 0x100 + 0x20) as u16, page as u16)
}

/// Where a write to the demodulator goes: as a read, with the write flag set.
pub open spec fn spec_demod_write(page: u8, addr: u16) -> (u16, u16) {
    ((addr as int % 0x100 * 0x100 + 0x20) as u16, WRITE_FLAG | page as u16)
}

/// Where a write to a device on the tuner bus goes.
pub open spec fn spec_i2c_write(i2c_addr: u8) -> (u16, u16) {
    (i2c_addr as u16, 0x610)
}

/// Where a read from a device on the tuner bus goes.
pub open spec fn spec_i2c_read(i2c_addr: u8) -> (u16, u16) {
    (i2c_addr as u16, 0x600)
}

/// `(wValue, wIndex)` for reading from one of the flat address blocks.
pub fn block_read(addr: u16, block: Block) -> (target: (u16, u16))
    ensures
        target == spec_block_read(addr, block),
{
    (addr, block.code() * 0x100)
}

/// `(wValue, wIndex)` for writing to one of the flat address blocks.
pub fn block_write(addr: u16, block: Block) -> (target: (u16, u16))
    ensures
        target == spec_block_write(addr, block),
{
    (addr, block.code() * 0x100 + WRITE_FLAG)
}

/// `(wValue, wIndex)` for reading a demodulator register.
///
/// The demodulator uses a different encoding from every other block: the address moves into
/// the high byte of `wValue` and the page number takes over `wIndex`. Applying the
/// flat-block layout here reads a plausible-looking wrong register.
pub fn demod_read(page: u8, addr: u16) -> (target: (u16, u16))
    ensures
        target == spec_demod_read(page, addr),
{
    ((addr % 0x100) * 0x100 + 0x20, page as u16)
}

/// `(wValue, wIndex)` for writing a demodulator register.
pub fn demod_write(page: u8, addr: u16) -> (target: (u16, u16))
    ensures
        target == spec_demod_write(page, addr),
{
    ((addr % 0x100) * 0x100 + 0x20, WRITE_FLAG | page as u16)
}

/// `(wValue, wIndex)` for writing to a device on the tuner I2C bus.
pub fn i2c_write(i2c_addr: u8) -> (target: (u16, u16))
    ensures
        target == spec_i2c_write(i2c_addr),
{
    (i2c_addr as u16, Block::I2c.code() * 0x100 + WRITE_FLAG)
}

/// `(wValue, wIndex)` for reading from a device on the tuner I2C bus.
pub fn i2c_read(i2c_addr: u8) -> (target: (u16, u16))
    ensures
        target == spec_i2c_read(i2c_addr),
{
    (i2c_addr as u16, Block::I2c.code() * 0x100)
}

/// A register value on the wire: one byte when `len` is one, otherwise two, most significant
/// first.
pub open spec fn spec_encode_value(value: u16, len: int) -> Seq<u8> {
    if len == 1 {
        seq![(value % 0x100) as u8]
    } else {
        seq![(value / 0x100) as u8, (value % 0x100) as u8]
    }
}

/// Serialises a register value for the wire, most significant byte first.
pub fn encode_value(value: u16, len: usize) -> (bytes: Bytes)
    ensures
        bytes@ == spec_encode_value(value, len as int),
{
    match len {
        1 => Bytes::one((value % 0x100) as u8),
        _ => Bytes::two((value / 0x100) as u8, (value % 0x100) as u8),
    }
}

/// A programmed sample rate.
#[derive(Debug, Clone, Copy, PartialEq, Eq, Structural)]
pub struct SampleRate {
    /// Twenty-eight bit resampler ratio.
    pub ratio: u32,
    /// High half, written to page 1 register 0x9F.
    pub high: u16,
    /// Low half, written to page 1 register 0xA1.
    pub low: u16,
}

/// Why a requested sample rate cannot be programmed.
#[derive(Debug, Clone, Copy, PartialEq, Eq, Structural)]
pub enum RateError {
    TooLow,
    TooHigh,
    /// The converter cannot settle in the gap between 300 kHz and 900 kHz.
    UnsupportedGap,
}

/// What stands in the way of a sample rate, if anything.
pub open spec fn rate_fault(rate: u32) -> Option<RateError> {
    if rate <= 225_000 {
        Some(RateError::TooLow)
    } else if rate > 3_200_000 {
        Some(RateError::TooHigh)
    } else if 300_000 < rate <= 900_000 {
        Some(RateError::UnsupportedGap)
    } else {
        None
    }
}

/// The resampler ratio for a rate: the crystal against the rate in units of 2^-22, computed
/// in double precision, kept to twenty-eight bits and to a multiple of four.
pub open spec fn spec_ratio(rate: u32, xtal: u32) -> u32 {
    let full = truncated_quotient(xtal as nat * 0x40_0000, rate as nat);
    (full % 0x1000_0000 / 4 * 4) as u32
}

/// The setting for a rate that can be programmed.
pub open spec fn spec_sample_rate(rate: u32, xtal: u32) -> SampleRate {
    let ratio = spec_ratio(rate, xtal);
    SampleRate { ratio, high: (ratio / 0x1_0000) as u16, low: (ratio % 0x1_0000) as u16 }
}

/// Computes the resampler ratio for a requested rate.
///
/// The quotient is the one that double precision gives, and the low two bits are cleared
/// because the resampler only accepts multiples of four.
pub fn sample_rate(rate: u32, xtal: u32) -> (r: Result<SampleRate, RateError>)
    ensures
        r == (match rate_fault(rate) {
            Some(fault) => Err::<SampleRate, RateError>(fault),
            None => Ok(spec_sample_rate(rate, xtal)),
        }),
{
    if rate <= 225_000 {
        return Err(RateError::TooLow);
    }
    if rate > 3_200_000 {
        return Err(RateError::TooHigh);
    }
    if rate > 300_000 && rate <= 900_000 {
        return Err(RateError::UnsupportedGap);
    }
    let full: u32 = truncated_division(xtal as u64 * 0x40_0000, rate);
    let ratio: u32 = full % 0x1000_0000 / 4 * 4;
    Ok(SampleRate { ratio, high: (ratio / 0x1_0000) as u16, low: (ratio % 0x1_0000) as u16 })
}

/// The resampler ratio as the hardware takes it: bit 27 is extended into bit 28.
pub open spec fn extended_ratio(ratio: u32) -> u32 {
    ratio | ((ratio & 0x0800_0000) << 1)
}

/// The rate a given ratio actually produces, as a numerator and a denominator.
pub fn achieved_rate(ratio: u32, xtal: u32) -> (rate: (u64, u32))
    ensures
        rate.0 == xtal * 0x40_0000,
        rate.1 == extended_ratio(ratio),
{
    (xtal as u64 * 0x40_0000, ratio | ((ratio & 0x0800_0000) << 1))
}

/// The offset that an intermediate frequency asks of the demodulator, in units of 2^-22 of
/// the crystal, computed in double precision and held in an `i32`.
///
/// Without a crystal the quotient is infinite, or undefined when the frequency is zero too.
pub open spec fn if_offset(if_hz: u32, xtal: u32) -> int {
    if xtal == 0 {
        if if_hz == 0 {
            0
        } else {
            i32::MAX as int
        }
    } else {
        let scaled = truncated_quotient(if_hz as nat * 0x40_0000, xtal as nat) as int;
        if scaled > i32::MAX {
            i32::MAX as int
        } else {
            scaled
        }
    }
}

/// The low twenty-two bits of the negated offset, most significant byte first.
pub open spec fn spec_if_frequency(if_hz: u32, xtal: u32) -> Seq<u8> {
    let value = (-if_offset(if_hz, xtal)) % 0x40_0000;
    seq![(value / 0x1_0000) as u8, (value / 0x100 % 0x100) as u8, (value % 0x100) as u8]
}

/// What is left of a negated value is the complement of what is left of the value.
proof fn negated_remainder(value: int, modulus: int)
    requires
        modulus > 0,
    ensures
        (-value) % modulus == (if value % modulus == 0 {
            0
        } else {
            modulus - value % modulus
        }),
{
    let r = value % modulus;
    let q = value / modulus;
    vstd::arithmetic::div_mod::lemma_fundamental_div_mod(value, modulus);
    let want = if r == 0 {
        0
    } else {
        modulus - r
    };
    let times = if r == 0 {
        -q
    } else {
        -q - 1
    };
    assert(-value == times * modulus + want) by (nonlinear_arith)
        requires
            value == modulus * q + r,
            want == if r == 0 {
                0
            } else {
                modulus - r
            },
            times == if r == 0 {
                -q
            } else {
                -q - 1
            },
    ;
    vstd::arithmetic::div_mod::lemma_fundamental_div_mod_converse(-value, modulus, times, want);
}

/// Registers 0x19, 0x1A and 0x1B on page 1, which set the demodulator's IF offset.
///
/// The value is negated and held as a 22-bit two's complement. Missing the negation puts
/// the receiver an IF away from where it was asked to tune, twice the IF from the wanted
/// signal, which looks exactly like a broken tuner.
pub fn if_frequency(if_hz: u32, xtal: u32) -> (registers: [u8; 3])
    ensures
        registers@ == spec_if_frequency(if_hz, xtal),
{
    let scaled: u32 = if xtal == 0 {
        if if_hz == 0 {
            0
        } else {
            0x7FFF_FFFF
        }
    } else {
        let full: u32 = truncated_division(if_hz as u64 * 0x40_0000, xtal);
        if full > 0x7FFF_FFFF {
            0x7FFF_FFFF
        } else {
            full
        }
    };
    assert(scaled == if_offset(if_hz, xtal));
    proof {
        negated_remainder(scaled as int, 0x40_0000);
    }
    let low: u32 = scaled % 0x40_0000;
    let value: u32 = if low == 0 {
        0
    } else {
        0x40_0000 - low
    };
    assert(value == (-if_offset(if_hz, xtal)) % 0x40_0000);
    let registers = [
        (value / 0x1_0000) as u8,
        (value / 0x100 % 0x100) as u8,
        (value % 0x100) as u8,
    ];
    assert(registers@ =~= spec_if_frequency(if_hz, xtal));
    registers
}

/// The clock offset for a trim: the negated trim in units of 2^-24, rounded towards zero.
pub open spec fn clock_offset(ppm: int) -> int {
    if ppm <= 0 {
        -ppm * 0x100_0000 / 1_000_000
    } else {
        -(ppm * 0x100_0000 / 1_000_000)
    }
}

/// The low fourteen bits of the clock offset, most significant byte first.
pub open spec fn spec_frequency_correction(ppm: int) -> Seq<u8> {
    let value = clock_offset(ppm) % 0x4000;
    seq![(value / 0x100) as u8, (value % 0x100) as u8]
}

/// Registers 0x3E and 0x3F on page 1, which trim the sample clock in parts per million.
pub fn frequency_correction(ppm: i32) -> (registers: [u8; 2])
    requires
        ppm != i32::MIN,
    ensures
        registers@ == spec_frequency_correction(ppm as int),
{
    let magnitude: u64 = if ppm <= 0 {
        (-ppm) as u64
    } else {
        ppm as u64
    };
    let scaled: u64 = magnitude * 0x100_0000 / 1_000_000;
    proof {
        negated_remainder(scaled as int, 0x4000);
    }
    let low: u64 = scaled % 0x4000;
    let value: u64 = if ppm <= 0 || low == 0 {
        low
    } else {
        0x4000 - low
    };
    assert(value == clock_offset(ppm as int) % 0x4000);
    let registers = [(value / 0x100) as u8, (value % 0x100) as u8];
    assert(registers@ =~= spec_frequency_correction(ppm as int));
    registers
}

/// Lowest frequency the tuner's oscillator can run at, in kilohertz.
pub const VCO_MIN_KHZ: u64 = 1_770_000;

/// Frequency in kilohertz that the tuner's oscillator stays below.
pub const VCO_MAX_KHZ: u64 = 3_540_000;

/// Divider and fractional settings for one tuner frequency.
#[derive(Debug, Clone, Copy, PartialEq, Eq, Structural)]
pub struct PllSetting {
    pub mix_div: u32,
    pub div_num: u8,
    pub nint: u32,
    pub sdm: u16,
    /// Register 0x14: the integer divider, split across two fields.
    pub reg_14: u8,
    /// Register 0x15: low half of the fractional divider.
    pub reg_15: u8,
    /// Register 0x16: high half of the fractional divider.
    pub reg_16: u8,
    /// Whether the fractional path should be powered down, which it can be when the
    /// division comes out exact.
    pub power_down_sdm: bool,
}

#[derive(Debug, Clone, Copy, PartialEq, Eq, Structural)]
pub enum PllError {
    /// The frequency cannot be reached by any available divider.
    OutOfRange,
    /// The integer divider overflowed its field.
    DividerTooLarge,
}

/// The divider ahead of the mixer at each of its six positions.
pub open spec fn mixer_divider(step: int) -> int {
    if step == 0 {
        2
    } else if step == 1 {
        4
    } else if step == 2 {
        8
    } else if step == 3 {
        16
    } else if step == 4 {
        32
    } else {
        64
    }
}

/// A frequency to the nearest kilohertz.
pub open spec fn to_khz(freq_hz: u32) -> int {
    (freq_hz + 500) / 1000
}

/// Whether a divider position puts the oscillator inside its usable range.
pub open spec fn usable_divider(freq_hz: u32, step: int) -> bool {
    &&& 0 <= step < 6
    &&& VCO_MIN_KHZ <= to_khz(freq_hz) * mixer_divider(step) < VCO_MAX_KHZ
}

/// The first divider position from `from` on that suits a frequency.
pub open spec fn first_usable(freq_hz: u32, from: int) -> Option<int>
    decreases 6 - from,
{
    if from >= 6 {
        None
    } else if usable_divider(freq_hz, from) {
        Some(from)
    } else {
        first_usable(freq_hz, from + 1)
    }
}

/// The oscillator frequency over the reference, in units of 2^-16, to the nearest unit, for
/// a half-rate reference.
pub open spec fn oscillator_ratio(freq_hz: u32, xtal_hz: u32, step: int) -> int {
    (xtal_hz + 65536 * (freq_hz * mixer_divider(step))) / (2 * xtal_hz as int)
}

/// The divider position after the nudge that the oscillator's own report asks for.
pub open spec fn nudged_divider(step: int, vco_fine_tune: u8, vco_power_ref: u8) -> int {
    if vco_fine_tune > vco_power_ref {
        if step == 0 {
            0
        } else {
            step - 1
        }
    } else if vco_fine_tune < vco_power_ref {
        if step == 5 {
            5
        } else {
            step + 1
        }
    } else {
        step
    }
}

/// The whole setting that follows from a divider position.
pub open spec fn pll_at(
    freq_hz: u32,
    xtal_hz: u32,
    vco_fine_tune: u8,
    vco_power_ref: u8,
    step: int,
) -> PllSetting {
    let ratio = oscillator_ratio(freq_hz, xtal_hz, step);
    let nint = ratio / 65536;
    let sdm = ratio % 65536;
    PllSetting {
        mix_div: mixer_divider(step) as u32,
        div_num: nudged_divider(step, vco_fine_tune, vco_power_ref) as u8,
        nint: nint as u32,
        sdm: sdm as u16,
        reg_14: ((nint - 13) / 4 + 64 * ((nint - 13) % 4)) as u8,
        reg_15: (sdm % 0x100) as u8,
        reg_16: (sdm / 0x100) as u8,
        power_down_sdm: sdm == 0,
    }
}

/// The largest integer divider for an oscillator power reference.
pub open spec fn largest_nint(vco_power_ref: u8) -> int {
    128int / (vco_power_ref as int) - 1
}

/// The inputs on which the synthesiser calculation is defined: wherever a divider is usable
/// there is a reference, the power reference bounds the integer divider, and one that its
/// field can hold is at least 13.
pub open spec fn pll_defined(freq_hz: u32, xtal_hz: u32, vco_power_ref: u8) -> bool {
    forall|step: int| #[trigger]
        usable_divider(freq_hz, step) ==> {
            &&& xtal_hz > 0
            &&& 1 <= vco_power_ref <= 128
            &&& oscillator_ratio(freq_hz, xtal_hz, step) / 65536 >= 13 || oscillator_ratio(
                freq_hz,
                xtal_hz,
                step,
            ) / 65536 > largest_nint(vco_power_ref)
        }
}

/// What the synthesiser is to be programmed with, or why it cannot be.
pub open spec fn spec_compute_pll(
    freq_hz: u32,
    xtal_hz: u32,
    vco_fine_tune: u8,
    vco_power_ref: u8,
) -> Result<PllSetting, PllError> {
    match first_usable(freq_hz, 0) {
        None => Err(PllError::OutOfRange),
        Some(step) => if oscillator_ratio(freq_hz, xtal_hz, step) / 65536 > largest_nint(
            vco_power_ref,
        ) {
            Err(PllError::DividerTooLarge)
        } else {
            Ok(pll_at(freq_hz, xtal_hz, vco_fine_tune, vco_power_ref, step))
        },
    }
}

/// No more than one divider position suits a frequency: the usable range spans exactly one
/// octave.
pub proof fn usable_divider_is_unique(freq_hz: u32, a: int, b: int)
    requires
        usable_divider(freq_hz, a),
        usable_divider(freq_hz, b),
    ensures
        a == b,
{
}

/// Works out how to program the tuner's synthesiser for a given frequency.
///
/// `vco_fine_tune` comes from reading register 4 and reports whether the oscillator is
/// running fast or slow for its current setting; nudging the divider in response keeps it
/// near the middle of its range. `vco_power_ref` is 1 for the R828D and 2 for the R820T,
/// and also bounds the integer divider.
pub fn compute_pll(freq_hz: u32, xtal_hz: u32, vco_fine_tune: u8, vco_power_ref: u8) -> (r: Result<
    PllSetting,
    PllError,
>)
    requires
        pll_defined(freq_hz, xtal_hz, vco_power_ref),
    ensures
        r == spec_compute_pll(freq_hz, xtal_hz, vco_fine_tune, vco_power_ref),
{
    let freq_khz: u64 = (freq_hz as u64 + 500) / 1000;

    // Pick the smallest divider that puts the oscillator inside its usable range.
    let mut mix_div: u64 = 2;
    let mut step: u8 = 0;
    let mut vco_khz: u64 = freq_khz * 2;
    while step < 6 && !(VCO_MIN_KHZ <= vco_khz && vco_khz < VCO_MAX_KHZ)
        invariant
            step <= 6,
            freq_khz == to_khz(freq_hz),
            freq_khz <= 4_294_968,
            step < 6 ==> mix_div == mixer_divider(step as int),
            mix_div <= 128,
            vco_khz == freq_khz * mix_div,
            first_usable(freq_hz, 0) == first_usable(freq_hz, step as int),
        decreases 6 - step,
    {
        assert(freq_khz * mix_div <= 4_294_968 * 128 && freq_khz * (2 * mix_div) == 2 * (freq_khz
            * mix_div)) by (nonlinear_arith)
            requires
                freq_khz <= 4_294_968,
                mix_div <= 128,
        ;
        vco_khz = vco_khz * 2;
        mix_div = mix_div * 2;
        step = step + 1;
    }
    if step == 6 {
        return Err(PllError::OutOfRange);
    }
    assert(usable_divider(freq_hz, step as int));
    // The oscillator reports which side of centre it is sitting on; shifting the divider
    // moves it back before it runs out of tuning range.
    let div_num: u8 = if vco_fine_tune > vco_power_ref {
        if step == 0 {
            0
        } else {
            step - 1
        }
    } else if vco_fine_tune < vco_power_ref {
        if step == 5 {
            5
        } else {
            step + 1
        }
    } else {
        step
    };

    // Integer-exact fractional division.
    assert(freq_hz * mix_div < 0x40_0000_0000) by (nonlinear_arith)
        requires
            freq_hz <= u32::MAX,
            mix_div <= 64,
    ;
    let vco_freq: u64 = freq_hz as u64 * mix_div;
    let pll_ref: u64 = xtal_hz as u64;
    let vco_div: u64 = (pll_ref + 65536 * vco_freq) / (2 * pll_ref);
    proof {
        assert(vco_div == oscillator_ratio(freq_hz, xtal_hz, step as int));
    }
    let whole: u64 = vco_div / 65536;
    let sdm: u64 = vco_div % 65536;
    proof {
        assert(128int / (vco_power_ref as int) >= 1) by (nonlinear_arith)
            requires
                1 <= vco_power_ref <= 128,
        ;
    }

    if whole > (128 / vco_power_ref as u64) - 1 {
        return Err(PllError::DividerTooLarge);
    }
    assert(whole < 128) by (nonlinear_arith)
        requires
            whole <= (128int / vco_power_ref as int) - 1,
            vco_power_ref >= 1,
    ;
    // The integer divider is stored as a quotient and remainder about 13, not directly.
    let ni: u64 = (whole - 13) / 4;
    let si: u64 = (whole - 13) % 4;

    Ok(
        PllSetting {
            mix_div: mix_div as u32,
            div_num,
            nint: whole as u32,
            sdm: sdm as u16,
            reg_14: (ni + 64 * si) as u8,
            reg_15: (sdm % 0x100) as u8,
            reg_16: (sdm / 0x100) as u8,
            power_down_sdm: sdm == 0,
        },
    )
}

/// Which port of the triplexer a frequency arrives on.
#[derive(Debug, Clone, Copy, PartialEq, Eq, Structural)]
pub enum Band {
    /// Through the upconverter and into the tuner's second cable input.
    Hf,
    /// Directly into the tuner's first cable input.
    Vhf,
    /// Directly into the tuner's antenna input.
    Uhf,
}

/// The triplexer port for a frequency.
pub open spec fn spec_band_for(freq_hz: u32) -> Band {
    if freq_hz <= UPCONVERT_CROSSOVER {
        Band::Hf
    } else if freq_hz < VHF_UHF_BOUNDARY {
        Band::Vhf
    } else {
        Band::Uhf
    }
}

/// Selects the triplexer port for a frequency.
pub fn band_for(freq_hz: u32) -> (band: Band)
    ensures
        band == spec_band_for(freq_hz),
{
    if freq_hz <= UPCONVERT_CROSSOVER {
        Band::Hf
    } else if freq_hz < VHF_UHF_BOUNDARY {
        Band::Vhf
    } else {
        Band::Uhf
    }
}

/// The frequency as the tuner sees it: everything in the HF band is shifted up.
pub open spec fn spec_tuner_frequency(freq_hz: u32) -> u32 {
    if spec_band_for(freq_hz) is Hf {
        (freq_hz + UPCONVERT_CROSSOVER) as u32
    } else {
        freq_hz
    }
}

/// Frequency the tuner should be asked for, accounting for the upconverter.
///
/// The comparison is non-strict, as it is for the band, so that a request for exactly the
/// crossover frequency takes the HF path and is upconverted too.
pub fn tuner_frequency(freq_hz: u32) -> (tuner_hz: u32)
    ensures
        tuner_hz == spec_tuner_frequency(freq_hz),
{
    if freq_hz <= UPCONVERT_CROSSOVER {
        freq_hz + UPCONVERT_CROSSOVER
    } else {
        freq_hz
    }
}

/// The broadcast AM, broadcast FM and DAB bands.
pub open spec fn in_broadcast_band(freq_hz: u32) -> bool {
    ||| freq_hz <= 2_200_000
    ||| 85_000_000 <= freq_hz <= 112_000_000
    ||| 172_000_000 <= freq_hz <= 242_000_000
}

/// Whether the switchable notch filters should be engaged at this frequency.
///
/// The notches attenuate the broadcast AM, broadcast FM and DAB bands, which are strong
/// enough to desensitise the front end from outside the wanted channel. They are bypassed
/// when the receiver is tuned into one of those bands, since notching the thing you are
/// trying to hear defeats the purpose.
pub fn notch_engaged(freq_hz: u32) -> (engaged: bool)
    ensures
        engaged == !in_broadcast_band(freq_hz),
{
    let in_broadcast_band = freq_hz <= 2_200_000 || (85_000_000 <= freq_hz && freq_hz
        <= 112_000_000) || (172_000_000 <= freq_hz && freq_hz <= 242_000_000);
    !in_broadcast_band
}

/// Incremental gain of each low-noise amplifier step, in tenths of a decibel.
pub const LNA_STEPS: [i32; 16] = [0, 9, 13, 40, 38, 13, 31, 22, 26, 31, 26, 14, 19, 5, 35, 13];

/// Incremental gain of each mixer step, in tenths of a decibel.
pub const MIXER_STEPS: [i32; 16] = [0, 5, 10, 10, 19, 9, 10, 25, 17, 10, 8, 16, 13, 6, 3, -8];

/// Gain settings the tuner can actually reach, in tenths of a decibel.
pub const GAIN_VALUES: [i32; 29] = [
    0,
    9,
    14,
    27,
    37,
    77,
    87,
    125,
    144,
    157,
    166,
    197,
    207,
    229,
    254,
    280,
    297,
    328,
    338,
    364,
    372,
    386,
    402,
    421,
    434,
    439,
    445,
    480,
    496,
];

/// Amplifier index positions for a requested gain.
#[derive(Debug, Clone, Copy, PartialEq, Eq, Structural)]
pub struct GainSetting {
    pub lna_index: u8,
    pub mixer_index: u8,
    /// Total gain actually achieved, in tenths of a decibel.
    pub achieved: i32,
}

/// Total gain after `n` increments, taken alternately from the amplifier and the mixer and
/// starting with the amplifier.
pub open spec fn rung(n: int) -> int
    decreases n,
{
    if n <= 0 {
        0
    } else if n % 2 == 1 {
        rung(n - 1) + LNA_STEPS@[n / 2 + 1]
    } else {
        rung(n - 1) + MIXER_STEPS@[n / 2]
    }
}

/// How many increments are taken towards `target`, from the `n`th on.
pub open spec fn rungs_taken(target: int, n: int) -> int
    decreases 30 - n,
{
    if n >= 30 || rung(n + 1) >= target {
        n
    } else {
        rungs_taken(target, n + 1)
    }
}

/// The amplifier positions for a requested gain.
pub open spec fn spec_distribute_gain(target: int) -> GainSetting {
    let n = rungs_taken(target, 0);
    GainSetting {
        lna_index: ((n + 1) / 2) as u8,
        mixer_index: (n / 2) as u8,
        achieved: rung(n) as i32,
    }
}

/// A setting is the climb towards `target`: every rung taken stays below the target, and
/// either the ladder ends or the next rung would reach it.
pub open spec fn climbs_to(setting: GainSetting, target: int) -> bool {
    let n = setting.lna_index + setting.mixer_index;
    &&& setting.lna_index <= 15
    &&& setting.mixer_index <= setting.lna_index <= setting.mixer_index + 1
    &&& setting.achieved == rung(n)
    &&& forall|k: int| 1 <= k <= n ==> #[trigger] rung(k) < target
    &&& n == 30 || rung(n + 1) >= target
}

/// Distributes a requested gain across the low-noise amplifier and mixer stages.
///
/// The two are stepped alternately rather than filling one before the other, which keeps
/// both away from the ends of their ranges where their steps are least well behaved. The
/// tables are not monotonic, and the mixer's last step is negative.
pub fn distribute_gain(target_tenths: i32) -> (setting: GainSetting)
    ensures
        setting == spec_distribute_gain(target_tenths as int),
        climbs_to(setting, target_tenths as int),
{
    let mut total: i32 = 0;
    let mut lna_index: u8 = 0;
    let mut mixer_index: u8 = 0;
    let mut step: usize = 1;
    while step < 16
        invariant
            1 <= step <= 16,
            lna_index == step - 1,
            mixer_index == step - 1,
            total == rung(2 * (step - 1)),
            -100 * step <= total <= 100 * step,
            rungs_taken(target_tenths as int, 0) == rungs_taken(
                target_tenths as int,
                2 * (step - 1),
            ),
            forall|k: int| 1 <= k <= 2 * (step - 1) ==> #[trigger] rung(k) < target_tenths,
        decreases 16 - step,
    {
        let ghost n = 2 * (step - 1);
        proof {
            assert(rung(n + 1) == rung(n) + LNA_STEPS@[step as int]);
            assert(rung(n + 2) == rung(n + 1) + MIXER_STEPS@[step as int]);
            reveal_with_fuel(rungs_taken, 3);
        }
        let next_lna: i32 = total + LNA_STEPS[step];
        if next_lna >= target_tenths {
            return GainSetting { lna_index, mixer_index, achieved: total };
        }
        total = next_lna;
        lna_index = step as u8;

        let next_mixer: i32 = total + MIXER_STEPS[step];
        if next_mixer >= target_tenths {
            return GainSetting { lna_index, mixer_index, achieved: total };
        }
        total = next_mixer;
        mixer_index = step as u8;
        step += 1;
    }
    GainSetting { lna_index, mixer_index, achieved: total }
}

/// How far apart two gains are.
pub open spec fn gain_distance(a: int, b: int) -> int {
    if a >= b {
        a - b
    } else {
        b - a
    }
}

/// `i` is the first place in the table of gains that nothing is nearer to `target` than.
pub open spec fn first_nearest(i: int, target: int) -> bool {
    &&& 0 <= i < 29
    &&& forall|j: int|
        0 <= j < 29 ==> gain_distance(GAIN_VALUES@[i] as int, target) <= gain_distance(
            #[trigger] GAIN_VALUES@[j] as int,
            target,
        )
    &&& forall|j: int|
        0 <= j < i ==> gain_distance(GAIN_VALUES@[i] as int, target) < gain_distance(
            #[trigger] GAIN_VALUES@[j] as int,
            target,
        )
}

/// Snaps a gain in tenths of a decibel to the nearest value the tuner supports.
///
/// Halfway between two supported values, the lower one is chosen.
pub fn nearest_gain(target_tenths: i32) -> (gain: i32)
    requires
        496 - target_tenths <= i32::MAX,
    ensures
        exists|i: int| #[trigger]
            first_nearest(i, target_tenths as int) && gain == GAIN_VALUES@[i],
{
    let mut best: usize = 0;
    let mut i: usize = 1;
    while i < 29
        invariant
            1 <= i <= 29,
            best < i,
            496 - target_tenths <= i32::MAX,
            forall|j: int| 0 <= j < 29 ==> 0 <= #[trigger] GAIN_VALUES@[j] <= 496,
            forall|j: int|
                0 <= j < i ==> gain_distance(
                    GAIN_VALUES@[best as int] as int,
                    target_tenths as int,
                ) <= gain_distance(#[trigger] GAIN_VALUES@[j] as int, target_tenths as int),
            forall|j: int|
                0 <= j < best ==> gain_distance(
                    GAIN_VALUES@[best as int] as int,
                    target_tenths as int,
                ) < gain_distance(#[trigger] GAIN_VALUES@[j] as int, target_tenths as int),
        decreases 29 - i,
    {
        if away(GAIN_VALUES[i], target_tenths) < away(GAIN_VALUES[best], target_tenths) {
            best = i;
        }
        i += 1;
    }
    assert(first_nearest(best as int, target_tenths as int));
    GAIN_VALUES[best]
}

/// How far `gain` is from `target`.
fn away(gain: i32, target: i32) -> (distance: u32)
    requires
        gain - target <= i32::MAX,
        target - gain <= i32::MAX,
    ensures
        distance == gain_distance(gain as int, target as int),
{
    if gain >= target {
        (gain - target) as u32
    } else {
        (target - gain) as u32
    }
}

/// The resampler only ever gets a multiple of four that fits twenty-eight bits, and the two
/// halves that are written put the ratio back together.
pub proof fn ratio_is_aligned_and_split(rate: u32, xtal: u32)
    ensures
        spec_ratio(rate, xtal) % 4 == 0,
        spec_ratio(rate, xtal) < 0x1000_0000,
        spec_sample_rate(rate, xtal).high * 0x1_0000 + spec_sample_rate(rate, xtal).low
            == spec_ratio(rate, xtal),
{
    let full = truncated_quotient(xtal as nat * 0x40_0000, rate as nat);
    assert(0 <= full % 0x1000_0000 / 4 * 4 < 0x1000_0000);
}

/// The three offset registers hold the negated offset, modulo 2^22.
pub proof fn if_registers_hold_the_negated_offset(if_hz: u32, xtal: u32)
    ensures
        ({
            let r = spec_if_frequency(if_hz, xtal);
            (r[0] * 0x1_0000 + r[1] * 0x100 + r[2] + if_offset(if_hz, xtal)) % 0x40_0000 == 0
        }),
{
    let offset = if_offset(if_hz, xtal);
    let value = (-offset) % 0x40_0000;
    negated_remainder(offset, 0x40_0000);
    assert((value + offset) % 0x40_0000 == 0);
}

/// The band and the shift agree everywhere, the crossover itself included: a frequency is
/// upconverted exactly when it takes the HF path.
pub proof fn upconversion_follows_the_band(freq_hz: u32)
    ensures
        spec_band_for(freq_hz) is Hf <==> spec_tuner_frequency(freq_hz) == freq_hz
            + UPCONVERT_CROSSOVER,
        spec_band_for(freq_hz) !is Hf <==> spec_tuner_frequency(freq_hz) == freq_hz,
        spec_tuner_frequency(freq_hz) >= UPCONVERT_CROSSOVER,
{
}

/// The synthesiser registers put the divider back together: the integer part about 13, the
/// fraction as two bytes, and the two within half a unit of what was asked for.
pub proof fn pll_registers_describe_the_divider(
    freq_hz: u32,
    xtal_hz: u32,
    vco_fine_tune: u8,
    vco_power_ref: u8,
    step: int,
)
    requires
        pll_defined(freq_hz, xtal_hz, vco_power_ref),
        usable_divider(freq_hz, step),
        oscillator_ratio(freq_hz, xtal_hz, step) / 65536 <= largest_nint(vco_power_ref),
    ensures
        ({
            let s = pll_at(freq_hz, xtal_hz, vco_fine_tune, vco_power_ref, step);
            &&& s.nint == 4 * (s.reg_14 % 64) + s.reg_14 / 64 + 13
            &&& s.sdm == s.reg_16 * 0x100 + s.reg_15
            &&& s.div_num <= 5
            &&& -(xtal_hz as int) <= 2 * xtal_hz * (65536 * s.nint + s.sdm) - 65536 * (freq_hz
                * s.mix_div) <= xtal_hz
        }),
{
    let ratio = oscillator_ratio(freq_hz, xtal_hz, step);
    let nint = ratio / 65536;
    let vco = freq_hz * mixer_divider(step);
    let total = xtal_hz + 65536 * vco;
    let double = 2 * xtal_hz as int;
    assert(128int / (vco_power_ref as int) <= 128) by (nonlinear_arith)
        requires
            vco_power_ref >= 1,
    ;
    assert(vco >= 0) by (nonlinear_arith)
        requires
            vco == freq_hz * mixer_divider(step),
            mixer_divider(step) >= 0,
    ;
    vstd::arithmetic::div_mod::lemma_fundamental_div_mod(total, double);
    assert(ratio == total / double);
    assert(0 <= total % double < double);
    assert(double * ratio == 2 * xtal_hz * ratio) by (nonlinear_arith)
        requires
            double == 2 * xtal_hz,
    ;
    assert(13 <= nint < 128);
    assert(ratio == 65536 * nint + ratio % 65536);
}

/// The oscillator has no solution below about 27.7 MHz, which is why HF has to be upconverted.
pub proof fn nothing_below_the_lowest_divider_is_reachable(freq_hz: u32)
    requires
        freq_hz < 27_655_500,
    ensures
        first_usable(freq_hz, 0) is None,
{
    reveal_with_fuel(first_usable, 7);
    assert(to_khz(freq_hz) <= 27_655);
}

/// Above that and below 1770 MHz some divider always suits, and the integer divider that
/// follows fits its field for both crystals that tuners are clocked from.
pub proof fn everything_in_range_is_reachable(freq_hz: u32, xtal_hz: u32, vco_fine_tune: u8)
    requires
        27_656_500 <= freq_hz < 1_769_999_500,
        xtal_hz == RTL_XTAL || xtal_hz == 16_000_000,
    ensures
        spec_compute_pll(freq_hz, xtal_hz, vco_fine_tune, 1) is Ok,
{
    reveal_with_fuel(first_usable, 7);
    let khz = to_khz(freq_hz);
    let step: int = if khz >= 885_000 {
        0
    } else if khz >= 442_500 {
        1
    } else if khz >= 221_250 {
        2
    } else if khz >= 110_625 {
        3
    } else if khz >= 55_313 {
        4
    } else {
        5
    };
    assert(usable_divider(freq_hz, step));
    assert(first_usable(freq_hz, 0) == Some(step));
    let m = mixer_divider(step);
    assert(freq_hz * m <= 1000 * (khz * m) + 500 * m) by (nonlinear_arith)
        requires
            freq_hz <= 1000 * khz + 500,
            m >= 0,
    ;
    let vco = freq_hz * m;
    assert(0 <= vco) by (nonlinear_arith)
        requires
            vco == freq_hz * m,
            m >= 0,
    ;
    assert(vco <= 3_540_032_000);
    let total = xtal_hz + 65536 * vco;
    let ratio = oscillator_ratio(freq_hz, xtal_hz, step);
    assert(ratio < 65536 * 128) by (nonlinear_arith)
        requires
            ratio == total / (2 * xtal_hz as int),
            0 <= total < 268_435_456_000_000,
            xtal_hz >= 16_000_000,
    ;
    assert(largest_nint(1) == 127);
}

/// Every HF frequency reaches the tuner inside its range, the intermediate frequency
/// included.
pub proof fn hf_is_reachable_through_the_upconverter(freq_hz: u32, vco_fine_tune: u8)
    requires
        spec_band_for(freq_hz) is Hf,
    ensures
        spec_compute_pll(
            (spec_tuner_frequency(freq_hz) + 3_570_000) as u32,
            RTL_XTAL,
            vco_fine_tune,
            1,
        ) is Ok,
{
    everything_in_range_is_reachable(
        (spec_tuner_frequency(freq_hz) + 3_570_000) as u32,
        RTL_XTAL,
        vco_fine_tune,
    );
}

/// A positive target is approached from below.
pub proof fn achieved_gain_stays_below_the_target(setting: GainSetting, target: int)
    requires
        climbs_to(setting, target),
        target > 0,
    ensures
        setting.achieved < target,
{
    let n = setting.lna_index + setting.mixer_index;
    if n > 0 {
        assert(rung(n) < target);
    }
}

/// A gain that the tuner supports is its own nearest gain.
pub proof fn supported_gains_are_kept(k: int, i: int)
    requires
        0 <= k < 29,
        first_nearest(i, GAIN_VALUES@[k] as int),
    ensures
        GAIN_VALUES@[i] == GAIN_VALUES@[k],
{
    assert(gain_distance(GAIN_VALUES@[i] as int, GAIN_VALUES@[k] as int) <= gain_distance(
        GAIN_VALUES@[k] as int,
        GAIN_VALUES@[k] as int,
    ));
}

/// The gain of an amplifier at a position: its steps up to there, added up.
pub open spec fn climbed(steps: Seq<i32>, position: int) -> int
    decreases position,
{
    if position <= 0 {
        0
    } else {
        climbed(steps, position - 1) + steps[position]
    }
}

/// A rung is the gain of the two amplifiers at the positions that it leaves them at.
pub proof fn rungs_are_both_amplifiers(lna: int, mixer: int)
    requires
        0 <= mixer <= lna <= mixer + 1,
        lna <= 15,
    ensures
        rung(lna + mixer) == climbed(LNA_STEPS@, lna) + climbed(MIXER_STEPS@, mixer),
    decreases lna + mixer,
{
    if lna + mixer > 0 {
        if lna == mixer {
            rungs_are_both_amplifiers(lna, mixer - 1);
        } else {
            rungs_are_both_amplifiers(lna - 1, mixer);
        }
    }
}

/// The supported gains are the rungs of the ladder, from none at all to the highest that it
/// reaches, 49.6 dB: one for each step up, but for the one rung below the top that stands
/// between its two neighbours.
pub proof fn supported_gains_are_the_rungs(k: int)
    requires
        0 <= k < 29,
    ensures
        GAIN_VALUES@[k] == rung(
            if k < 28 {
                k
            } else {
                29
            },
        ),
        0 <= GAIN_VALUES@[k] <= 496,
        k > 0 ==> GAIN_VALUES@[k - 1] < GAIN_VALUES@[k],
        GAIN_VALUES@[28] == 496,
{
    assert(rung(0) == 0);
    assert(rung(1) == 9);
    assert(rung(2) == 14);
    assert(rung(3) == 27);
    assert(rung(4) == 37);
    assert(rung(5) == 77);
    assert(rung(6) == 87);
    assert(rung(7) == 125);
    assert(rung(8) == 144);
    assert(rung(9) == 157);
    assert(rung(10) == 166);
    assert(rung(11) == 197);
    assert(rung(12) == 207);
    assert(rung(13) == 229);
    assert(rung(14) == 254);
    assert(rung(15) == 280);
    assert(rung(16) == 297);
    assert(rung(17) == 328);
    assert(rung(18) == 338);
    assert(rung(19) == 364);
    assert(rung(20) == 372);
    assert(rung(21) == 386);
    assert(rung(22) == 402);
    assert(rung(23) == 421);
    assert(rung(24) == 434);
    assert(rung(25) == 439);
    assert(rung(26) == 445);
    assert(rung(27) == 480);
    assert(rung(28) == 483);
    assert(rung(29) == 496);
    assert(rung(30) == 488);
    assert(GAIN_VALUES@[k] == rung(
        if k < 28 {
            k
        } else {
            29
        },
    ));
}

/// A gain snaps to a supported one that no other is nearer to.
pub proof fn snapping_moves_as_little_as_possible(i: int, j: int, target: int)
    requires
        first_nearest(i, target),
        0 <= j < 29,
    ensures
        -gain_distance(rung_or_top(j), target) <= rung_or_top(i) - target <= gain_distance(
            rung_or_top(j),
            target,
        ),
        rung_or_top(i) - target == target - rung_or_top(j) ==> rung_or_top(i) <= rung_or_top(j),
{
    supported_gains_are_the_rungs(i);
    supported_gains_are_the_rungs(j);
    if j < i {
        assert(gain_distance(GAIN_VALUES@[i] as int, target) < gain_distance(
            GAIN_VALUES@[j] as int,
            target,
        ));
    } else {
        gains_rise(i, j);
        assert(gain_distance(GAIN_VALUES@[i] as int, target) <= gain_distance(
            GAIN_VALUES@[j] as int,
            target,
        ));
    }
}

/// Supported gain number `k`: a rung of the ladder, or its top.
pub open spec fn rung_or_top(k: int) -> int {
    rung(
        if k < 28 {
            k
        } else {
            29
        },
    )
}

proof fn gains_rise(i: int, j: int)
    requires
        0 <= i <= j < 29,
    ensures
        GAIN_VALUES@[i] <= GAIN_VALUES@[j],
    decreases j - i,
{
    if i < j {
        supported_gains_are_the_rungs(j);
        gains_rise(i, j - 1);
    }
}

/// A read and a write of the same place differ in the write flag alone, and no two places share
/// a target: not two registers of a flat block, nor two of the demodulator.
pub proof fn targets_are_told_apart(a: u16, b: u16, p: u8, q: u8, one: Block, other: Block)
    requires
        p <= 0x0F,
        q <= 0x0F,
        a < 256,
        b < 256,
    ensures
        spec_block_read(a, one).0 == a && spec_block_write(a, one).0 == a,
        spec_block_write(a, one).1 == spec_block_read(a, one).1 + 0x10,
        spec_block_read(a, one).1 == spec_block_read(b, other).1 ==> one == other,
        spec_demod_read(p, a).0 == spec_demod_write(p, a).0,
        spec_demod_write(p, a).1 == spec_demod_read(p, a).1 + 0x10,
        spec_demod_read(p, a) == spec_demod_read(q, b) ==> p == q && a == b,
        spec_demod_read(p, a).0 == a * 256 + 0x20 && spec_demod_read(p, a).1 == p,
        spec_i2c_read(p).0 == p && spec_i2c_write(p).0 == p,
        spec_i2c_read(p).1 == spec_block_read(a, Block::I2c).1,
        spec_i2c_write(p).1 == spec_block_write(a, Block::I2c).1,
        spec_i2c_read(p).1 == 0x600,
{
    let page = p as u16;
    assert(0x10u16 | page == page + 0x10) by (bit_vector)
        requires
            page <= 0x0F,
    ;
}

/// A register value goes out most significant byte first, and can be read back from its bytes.
pub proof fn values_are_sent_most_significant_first(value: u16)
    ensures
        ({
            let two = spec_encode_value(value, 2);
            let one = spec_encode_value(value, 1);
            &&& two.len() == 2 && two[0] * 256 + two[1] == value
            &&& one.len() == 1 && one[0] == value % 256
        }),
{
}

/// The blocks are numbered on the wire in the order of the hardware's address map.
pub proof fn blocks_are_numbered_in_order(block: Block)
    ensures
        spec_block_read(0, block).1 == 0x100 * (match block {
            Block::Demod => 0int,
            Block::Usb => 1,
            Block::Sys => 2,
            Block::Tuner => 3,
            Block::Rom => 4,
            Block::InfraRed => 5,
            Block::I2c => 6,
        }),
{
}

} // verus!
