//! What a device holds after a run of transfers.
//!
//! The drivers are stated as lists of transfers. This is the other side of the bus: which data
//! a run of transfers leaves in which register, and what the device does with it. The laws here
//! speak of the wire alone, by the numbers that the hardware knows its registers by.

use vstd::prelude::*;

use crate::conversation::{carried, Exchange, Step};
use crate::r82xx::{held, FIRST_REG, INIT_REGS};
use crate::receiver::{answered, brought_up};
use crate::regs;
use crate::regs::{
    clock_offset, extended_ratio, if_offset, if_registers_hold_the_negated_offset, rate_fault,
    ratio_is_aligned_and_split, spec_frequency_correction, spec_if_frequency, spec_ratio,
    spec_sample_rate,
};
use crate::rtl2832::{
    bias_tee_plan, burst_plan, burst_step, correction_program, gpio_output_plan, gpio_write_plan,
    if_program, in_brackets, message_count, program_plan, r82xx_program, rate_program,
    repeater_plan, reset_program, startup_program, tuner_step, write_plan, RegisterWrite,
    DEFAULT_IF_HZ, R828D_I2C_ADDR,
};
use crate::transport::{steps_since, writes_among};

verus! {

/// The data that a run of transfers last writes to a target, if it writes there at all.
pub open spec fn last_written(steps: Seq<Step>, value: u16, index: u16) -> Option<Seq<u8>>
    decreases steps.len(),
{
    if steps.len() == 0 {
        None
    } else {
        match steps.last() {
            Step::Out { value: v, index: i, data } => if v == value && i == index {
                Some(data)
            } else {
                last_written(steps.drop_last(), value, index)
            },
            _ => last_written(steps.drop_last(), value, index),
        }
    }
}

/// The target of demodulator register `addr` on `page`, on the wire.
pub open spec fn demod_target(page: int, addr: int) -> (u16, u16) {
    ((addr * 256 + 32) as u16, (16 + page) as u16)
}

/// The data that a run of transfers leaves in a demodulator register.
pub open spec fn left_in_demod(steps: Seq<Step>, page: int, addr: int) -> Option<Seq<u8>> {
    last_written(steps, demod_target(page, addr).0, demod_target(page, addr).1)
}

/// The data that a run of transfers leaves in a register of the USB block.
pub open spec fn left_in_usb(steps: Seq<Step>, addr: u16) -> Option<Seq<u8>> {
    last_written(steps, addr, 0x110)
}

/// The data that a run of transfers leaves in a register of the system block.
pub open spec fn left_in_sys(steps: Seq<Step>, addr: u16) -> Option<Seq<u8>> {
    last_written(steps, addr, 0x210)
}

/// Bytes as one number, most significant first.
pub open spec fn number(bytes: Seq<u8>) -> int
    decreases bytes.len(),
{
    if bytes.len() == 0 {
        0
    } else {
        number(bytes.drop_last()) * 256 + bytes.last()
    }
}

proof fn small_numbers(bytes: Seq<u8>)
    ensures
        bytes.len() == 1 ==> number(bytes) == bytes[0],
        bytes.len() == 2 ==> number(bytes) == bytes[0] * 256 + bytes[1],
        bytes.len() == 3 ==> number(bytes) == bytes[0] * 65536 + bytes[1] * 256 + bytes[2],
{
    reveal_with_fuel(number, 4);
}

/// What is written last stays: a later run of transfers overwrites what an earlier one left.
pub proof fn later_writes_stay(first: Seq<Step>, second: Seq<Step>, value: u16, index: u16)
    ensures
        last_written(first + second, value, index) == (match last_written(second, value, index) {
            Some(data) => Some(data),
            None => last_written(first, value, index),
        }),
    decreases second.len(),
{
    let both = first + second;
    if second.len() == 0 {
        assert(both =~= first);
    } else {
        assert(both.drop_last() =~= first + second.drop_last());
        assert(both.last() == second.last());
        later_writes_stay(first, second.drop_last(), value, index);
    }
}

/// Whether a write of a sequence goes to this target.
spec fn goes_to(write: RegisterWrite, value: u16, index: u16) -> bool {
    write_plan(false, write)[0] matches Step::Out { value: v, index: i, .. } && v == value && i
        == index
}

proof fn one_write(verify: bool, write: RegisterWrite, value: u16, index: u16)
    ensures
        last_written(write_plan(verify, write), value, index) == (if goes_to(
            write,
            value,
            index,
        ) {
            Some(write_plan(false, write)[0]->Out_data)
        } else {
            None::<Seq<u8>>
        }),
{
    let plan = write_plan(verify, write);
    reveal_with_fuel(last_written, 3);
    assert(plan[0] == write_plan(false, write)[0]);
    if plan.len() == 2 {
        assert(plan.drop_last()[0] == plan[0]);
        assert(plan.drop_last().last() == plan[0]);
        assert(plan.last() == plan[1]);
    } else {
        assert(plan.last() == plan[0]);
    }
}

/// A sequence of register writes leaves in a register what its write `k` put there, when no
/// later one goes there.
proof fn programs_leave(
    verify: bool,
    program: Seq<RegisterWrite>,
    k: int,
    value: u16,
    index: u16,
)
    requires
        0 <= k < program.len(),
        goes_to(program[k], value, index),
        forall|j: int| k < j < program.len() ==> !goes_to(#[trigger] program[j], value, index),
    ensures
        last_written(program_plan(verify, program), value, index) == Some(
            write_plan(false, program[k])[0]->Out_data,
        ),
    decreases program.len(),
{
    let shorter = program.drop_last();
    one_write(verify, program.last(), value, index);
    later_writes_stay(
        program_plan(verify, shorter),
        write_plan(verify, program.last()),
        value,
        index,
    );
    if k < program.len() - 1 {
        assert forall|j: int| k < j < shorter.len() implies !goes_to(
            #[trigger] shorter[j],
            value,
            index,
        ) by {
            assert(shorter[j] == program[j]);
        }
        assert(program.last() == program[program.len() - 1]);
        programs_leave(verify, shorter, k, value, index);
    }
}

proof fn page_flags()
    ensures
        0x10u16 | 0u16 == 0x10u16,
        0x10u16 | 1u16 == 0x11u16,
{
    assert(0x10u16 | 0u16 == 0x10u16 && 0x10u16 | 1u16 == 0x11u16) by (bit_vector);
}

/// What is written for a sample rate is the ratio of the crystal to the rate: the two registers
/// read as one number `n` that is a multiple of four, with `n * rate` less than four rates from
/// the crystal times 2^22. The trim of the sample clock is cleared, and the resampler has been
/// put into reset and let out of it again.
#[verifier::spinoff_prover]
#[verifier::rlimit(30)]
pub proof fn rates_are_programmed_as_ratios(verify: bool, rate: u32, xtal: u32)
    requires
        225_000 < rate <= 3_200_000,
        xtal * 0x40_0000 < rate * 0x1000_0000 - rate,
    ensures
        ({
            let steps = program_plan(verify, rate_program(rate, xtal));
            let high = left_in_demod(steps, 1, 0x9F);
            let low = left_in_demod(steps, 1, 0xA1);
            let n = number(high->0 + low->0);
            &&& high is Some && low is Some && high->0.len() == 2 && low->0.len() == 2
            &&& n == spec_ratio(rate, xtal)
            &&& n % 4 == 0
            &&& -4 * rate < n * rate - xtal * 0x40_0000 <= rate
            &&& left_in_demod(steps, 1, 0x3E) == Some(seq![0u8])
            &&& left_in_demod(steps, 1, 0x3F) == Some(seq![0u8])
            &&& left_in_demod(steps, 1, 0x01) == Some(seq![0x10u8])
            &&& last_written(steps.drop_last(), 0x120, 0x11) is Some
        }),
{
    let program = rate_program(rate, xtal);
    let steps = program_plan(verify, program);
    page_flags();
    ratio_is_aligned_and_split(rate, xtal);
    programs_leave(verify, program, 0, 0x9F20, 0x11);
    programs_leave(verify, program, 1, 0xA120, 0x11);
    programs_leave(verify, program, 2, 0x3E20, 0x11);
    programs_leave(verify, program, 3, 0x3F20, 0x11);
    programs_leave(verify, program, 5, 0x120, 0x11);
    let shorter = program.drop_last();
    programs_leave(verify, shorter, 4, 0x120, 0x11);
    later_writes_stay(program_plan(verify, shorter), write_plan(verify, program.last()), 0x120, 0x11);
    let last = write_plan(verify, program.last());
    assert(steps.drop_last() =~= program_plan(verify, shorter) + last.drop_last());
    later_writes_stay(program_plan(verify, shorter), last.drop_last(), 0x120, 0x11);

    let setting = spec_sample_rate(rate, xtal);
    let high = left_in_demod(steps, 1, 0x9F)->0;
    let low = left_in_demod(steps, 1, 0xA1)->0;
    let both = high + low;
    reveal_with_fuel(number, 5);
    assert(both.drop_last() =~= seq![both[0], both[1], both[2]]);
    assert(seq![both[0], both[1], both[2]].drop_last() =~= seq![both[0], both[1]]);
    assert(seq![both[0], both[1]].drop_last() =~= seq![both[0]]);
    assert(number(both) == setting.high * 0x1_0000 + setting.low);
    assert(spec_frequency_correction(0) =~= seq![0u8, 0u8]);
    ratios_are_close(rate, xtal);
}

/// The ratio is the crystal over the rate in units of 2^-22, rounded down to a multiple of
/// four, but for the last digit of a double.
proof fn ratios_are_close(rate: u32, xtal: u32)
    requires
        rate > 0,
        xtal * 0x40_0000 < rate * 0x1000_0000 - rate,
    ensures
        -4 * rate < spec_ratio(rate, xtal) * rate - xtal * 0x40_0000 <= rate,
{
    let top = xtal as nat * 0x40_0000;
    let full = crate::binary64::truncated_quotient(top, rate as nat) as int;
    let q = top as int / rate as int;
    vstd::arithmetic::div_mod::lemma_fundamental_div_mod(top as int, rate as int);
    assert(q < 0x1000_0000 - 1) by (nonlinear_arith)
        requires
            top == rate * q + top as int % rate as int,
            0 <= top as int % rate as int,
            top < rate * 0x1000_0000 - rate,
            rate > 0,
    ;
    assert(q >= 0) by (nonlinear_arith)
        requires
            q == top as int / rate as int,
            top >= 0,
            rate > 0,
    ;
    crate::binary64::truncation_is_close(top, rate as nat);
    let ratio = spec_ratio(rate, xtal) as int;
    assert(full == q || full == q + 1);
    assert(ratio == full / 4 * 4);
    assert(full - 3 <= ratio <= full);
    let r = top as int % rate as int;
    assert(-4 * rate < ratio * rate - top <= rate) by (nonlinear_arith)
        requires
            top == rate * q + r,
            0 <= r < rate,
            q - 3 <= ratio <= q + 1,
            rate > 0,
    ;
}

/// The resampler extends bit 27 of a ratio into bit 28.
proof fn extension_of_a_ratio(ratio: u32)
    requires
        ratio < 0x1000_0000,
    ensures
        extended_ratio(ratio) == (if ratio >= 0x0800_0000 {
            ratio + 0x1000_0000
        } else {
            ratio as int
        }),
{
    assert(ratio | ((ratio & 0x0800_0000u32) << 1u32) == (if ratio >= 0x0800_0000u32 {
        (ratio + 0x1000_0000u32) as u32
    } else {
        ratio
    })) by (bit_vector)
        requires
            ratio < 0x1000_0000u32,
    ;
}

/// On the board's crystal every rate that is accepted is met: the ratio that is programmed, with
/// bit 27 extended as the resampler does, times the rate asked for is less than four rates from
/// the crystal times 2^22. The rates accepted are those from 225 kHz up to 300 kHz and from
/// 900 kHz up to 3.2 MHz.
#[verifier::spinoff_prover]
#[verifier::rlimit(30)]
pub proof fn accepted_rates_are_met(rate: u32)
    ensures
        rate_fault(rate) is None <==> 225_000 < rate <= 300_000 || 900_000 < rate <= 3_200_000,
        rate_fault(rate) == Some(regs::RateError::TooLow) <==> rate <= 225_000,
        rate_fault(rate) == Some(regs::RateError::TooHigh) <==> 3_200_000 < rate,
        rate_fault(rate) == Some(regs::RateError::UnsupportedGap) <==> 300_000 < rate <= 900_000,
        rate_fault(rate) is None ==> {
            let programmed = extended_ratio(spec_ratio(rate, 28_800_000));
            &&& -4 * rate < programmed * rate - 28_800_000 * 0x40_0000 <= rate
            &&& programmed % 4 == 0
        },
{
    if rate_fault(rate) is None {
        let xtal: u32 = 28_800_000;
        ratio_is_aligned_and_split(rate, xtal);
        let ratio = spec_ratio(rate, xtal);
        extension_of_a_ratio(ratio);
        if rate > 900_000 {
            ratios_are_close(rate, xtal);
            assert(ratio < 0x0800_0000) by (nonlinear_arith)
                requires
                    ratio * rate <= 28_800_000 * 0x40_0000 + rate,
                    rate > 900_000,
            ;
        } else {
            let top: nat = 120_795_955_200_000;
            let r = rate as int;
            let q = top as int / r;
            vstd::arithmetic::div_mod::lemma_fundamental_div_mod(top as int, r);
            assert(0x1800_0000 <= q < 0x1FFF_FFF0) by (nonlinear_arith)
                requires
                    top == r * q + top as int % r,
                    0 <= top as int % r < r,
                    225_000 < r <= 300_000,
                    top == 120_795_955_200_000int,
            ;
            crate::binary64::truncation_is_close(top, rate as nat);
            let full = crate::binary64::truncated_quotient(top, rate as nat) as int;
            assert(xtal as nat * 0x40_0000 == top);
            assert(ratio == full % 0x1000_0000 / 4 * 4);
            assert(full % 0x1000_0000 == full - 0x1000_0000);
            let programmed = ratio + 0x1000_0000;
            assert(full - 3 <= programmed <= full);
            assert(-4 * r < programmed * r - top <= r) by (nonlinear_arith)
                requires
                    top == r * q + top as int % r,
                    0 <= top as int % r < r,
                    q - 3 <= programmed <= q + 1,
                    r > 0,
            ;
        }
    }
}

/// A trim of the sample clock is written as its negation in units of 2^-24, rounded towards
/// zero: the two registers read as one number that differs from `-ppm * 2^24 / 10^6` by less
/// than one, modulo 2^14.
#[verifier::spinoff_prover]
#[verifier::rlimit(30)]
pub proof fn trims_are_negated(verify: bool, ppm: int) -> (turns: int)
    ensures
        ({
            let steps = program_plan(verify, correction_program(ppm));
            let high = left_in_demod(steps, 1, 0x3E);
            let low = left_in_demod(steps, 1, 0x3F);
            let n = number(high->0 + low->0) + turns * 0x4000;
            &&& high is Some && low is Some && high->0.len() == 1 && low->0.len() == 1
            &&& -1_000_000 < n * 1_000_000 + ppm * 0x100_0000 < 1_000_000
            &&& ppm >= 0 ==> -ppm * 0x100_0000 <= n * 1_000_000 <= 0
            &&& ppm <= 0 ==> 0 <= n * 1_000_000 <= -ppm * 0x100_0000
        }),
{
    let program = correction_program(ppm);
    page_flags();
    programs_leave(verify, program, 0, 0x3E20, 0x11);
    programs_leave(verify, program, 1, 0x3F20, 0x11);
    let steps = program_plan(verify, program);
    let high = left_in_demod(steps, 1, 0x3E)->0;
    let low = left_in_demod(steps, 1, 0x3F)->0;
    small_numbers(high + low);
    let offset = clock_offset(ppm);
    let value = offset % 0x4000;
    assert(number(high + low) == value);
    offset / 0x4000
}

/// Digital gain control is one bit of its register: switching it on and off differs in bit 5
/// alone, and the rest keeps the device in software-defined-radio mode.
pub proof fn digital_gain_is_one_bit(verify: bool, enabled: bool)
    ensures
        left_in_demod(crate::rtl2832::agc_plan(verify, enabled), 0, 0x19) == Some(
            seq![
                if enabled {
                    0x25u8
                } else {
                    0x05
                },
            ],
        ),
{
    page_flags();
    let plan = crate::rtl2832::agc_plan(verify, enabled);
    reveal_with_fuel(last_written, 3);
    if verify {
        assert(plan.drop_last().last() == plan[0]);
        assert(plan.last() == plan[1]);
    } else {
        assert(plan.last() == plan[0]);
    }
    assert(left_in_demod(plan, 0, 0x19)->0 =~= seq![
        if enabled {
            0x25u8
        } else {
            0x05
        },
    ]);
}

/// Clearing the buffer stalls the endpoint and lets it run again: the control register is
/// written twice, last with zero.
pub proof fn clearing_lets_the_endpoint_run(verify: bool)
    ensures
        ({
            let steps = program_plan(verify, reset_program());
            &&& steps.len() == 2
            &&& steps[0] == (Step::Out { value: 0x2148, index: 0x110, data: seq![0x10u8, 0x02] })
            &&& left_in_usb(steps, 0x2148) == Some(seq![0u8, 0])
        }),
{
    let program = reset_program();
    programs_leave(verify, program, 1, 0x2148, 0x110);
    reveal_with_fuel(program_plan, 3);
    let steps = program_plan(verify, program);
    assert(program.drop_last().drop_last() =~= seq![]);
    assert(program.drop_last().last() == program[0]);
    assert(steps[0]->Out_data =~= seq![0x10u8, 0x02]);
    assert(left_in_usb(steps, 0x2148)->0 =~= seq![0u8, 0]);
}

/// An output pin: its direction bit is cleared and its enable bit set, and every other pin
/// keeps what it had.
pub proof fn pins_become_outputs_alone(gpio: u8, direction: u8, enable: u8, other: u8)
    requires
        gpio < 8,
        other < 8,
    ensures
        ({
            let steps = gpio_output_plan(gpio, direction as u16, enable as u16);
            let d = left_in_sys(steps, 0x3002)->0[0];
            let e = left_in_sys(steps, 0x3003)->0[0];
            &&& left_in_sys(steps, 0x3002) is Some && left_in_sys(steps, 0x3003) is Some
            &&& (d >> other) & 1 == if other == gpio {
                0
            } else {
                (direction >> other) & 1
            }
            &&& (e >> other) & 1 == if other == gpio {
                1
            } else {
                (enable >> other) & 1
            }
        }),
{
    let steps = gpio_output_plan(gpio, direction as u16, enable as u16);
    reveal_with_fuel(last_written, 5);
    assert(steps.last() == steps[3]);
    assert(steps.drop_last().last() == steps[2]);
    assert(steps.drop_last().drop_last().last() == steps[1]);
    let mask: u16 = 1u16 << gpio;
    let d = ((direction as u16 & !mask) % 0x100) as u8;
    let e = ((enable as u16 | mask) % 0x100) as u8;
    assert((d >> other) & 1 == if other == gpio {
        0u8
    } else {
        (direction >> other) & 1
    }) by (bit_vector)
        requires
            d == ((direction as u16 & !(1u16 << gpio)) % 0x100) as u8,
            gpio < 8,
            other < 8,
    ;
    assert((e >> other) & 1 == if other == gpio {
        1u8
    } else {
        (enable >> other) & 1
    }) by (bit_vector)
        requires
            e == ((enable as u16 | (1u16 << gpio)) % 0x100) as u8,
            gpio < 8,
            other < 8,
    ;
}

/// Driving a pin sets it high or low as asked, and every other pin keeps what it had.
pub proof fn pins_are_driven_alone(gpio: u8, high: bool, current: u8, other: u8)
    requires
        gpio < 8,
        other < 8,
    ensures
        ({
            let steps = gpio_write_plan(gpio, high, current as u16);
            let o = left_in_sys(steps, 0x3001)->0[0];
            &&& left_in_sys(steps, 0x3001) is Some
            &&& (o >> other) & 1 == if other != gpio {
                (current >> other) & 1
            } else if high {
                1
            } else {
                0
            }
        }),
{
    let steps = gpio_write_plan(gpio, high, current as u16);
    reveal_with_fuel(last_written, 3);
    assert(steps.last() == steps[1]);
    let set = ((current as u16 | (1u16 << gpio)) % 0x100) as u8;
    let cleared = ((current as u16 & !(1u16 << gpio)) % 0x100) as u8;
    assert((set >> other) & 1 == if other != gpio {
        (current >> other) & 1
    } else {
        1u8
    }) by (bit_vector)
        requires
            set == ((current as u16 | (1u16 << gpio)) % 0x100) as u8,
            gpio < 8,
            other < 8,
    ;
    assert((cleared >> other) & 1 == if other != gpio {
        (current >> other) & 1
    } else {
        0u8
    }) by (bit_vector)
        requires
            cleared == ((current as u16 & !(1u16 << gpio)) % 0x100) as u8,
            gpio < 8,
            other < 8,
    ;
}

/// Driving a pin leaves the direction and enable registers alone.
pub proof fn driving_leaves_directions(gpio: u8, high: bool, current: u16)
    ensures
        last_written(gpio_write_plan(gpio, high, current), 0x3002, 0x210) is None,
        last_written(gpio_write_plan(gpio, high, current), 0x3003, 0x210) is None,
{
    let plan = gpio_write_plan(gpio, high, current);
    reveal_with_fuel(last_written, 3);
    assert(plan.last() == plan[1]);
    assert(plan.drop_last().last() == plan[0]);
}

/// The antenna feed hangs on pin 0: it is made an output, and driven high to power the feed and
/// low to cut it. The other pins keep what they had.
pub proof fn the_antenna_feed_is_pin_zero(
    enabled: bool,
    direction: u8,
    enable: u8,
    current: u8,
    other: u8,
)
    requires
        other < 8,
    ensures
        ({
            let steps = bias_tee_plan(enabled, direction as u16, enable as u16, current as u16);
            let d = left_in_sys(steps, 0x3002)->0[0];
            let e = left_in_sys(steps, 0x3003)->0[0];
            let o = left_in_sys(steps, 0x3001)->0[0];
            &&& (d >> other) & 1 == if other == 0 {
                0
            } else {
                (direction >> other) & 1
            }
            &&& (e >> other) & 1 == if other == 0 {
                1
            } else {
                (enable >> other) & 1
            }
            &&& (o >> other) & 1 == if other != 0 {
                (current >> other) & 1
            } else if enabled {
                1
            } else {
                0
            }
        }),
{
    let first = gpio_output_plan(0, direction as u16, enable as u16);
    let second = gpio_write_plan(0, enabled, current as u16);
    pins_become_outputs_alone(0, direction, enable, other);
    pins_are_driven_alone(0, enabled, current, other);
    later_writes_stay(first, second, 0x3001, 0x210);
    later_writes_stay(first, second, 0x3002, 0x210);
    later_writes_stay(first, second, 0x3003, 0x210);
    reveal_with_fuel(last_written, 3);
    assert(second.last() == second[1]);
    assert(second.drop_last().last() == second[0]);
}

/// A demodulator register holds one byte after a run of transfers.
pub open spec fn demod_holds(steps: Seq<Step>, page: int, addr: int, byte: u8) -> bool {
    left_in_demod(steps, page, addr) == Some(seq![byte])
}

/// Write `k` of a sequence puts `byte` into a demodulator register, and stays.
proof fn leaves_byte(
    verify: bool,
    program: Seq<RegisterWrite>,
    k: int,
    page: int,
    addr: int,
    byte: u8,
)
    requires
        0 <= k < program.len(),
        0 <= page <= 1,
        0 <= addr < 256,
        program[k] == (RegisterWrite::Demod {
            page: page as u8,
            addr: addr as u16,
            value: byte as u16,
            len: 1,
        }),
        forall|j: int|
            k < j < program.len() ==> !goes_to(
                #[trigger] program[j],
                demod_target(page, addr).0,
                demod_target(page, addr).1,
            ),
    ensures
        demod_holds(program_plan(verify, program), page, addr, byte),
{
    page_flags();
    programs_leave(verify, program, k, demod_target(page, addr).0, demod_target(page, addr).1);
    assert(write_plan(false, program[k])[0]->Out_data =~= seq![byte]);
}

/// Starting up leaves the demodulator in software-defined-radio mode: out of reset, with no
/// offset and no inversion, its gain loops and its test clock off, and its converter at zero
/// intermediate frequency.
#[verifier::spinoff_prover]
#[verifier::rlimit(30)]
pub proof fn startup_leaves_the_demodulator_ready(verify: bool, k: int)
    requires
        0 <= k < 6,
    ensures
        ({
            let steps = program_plan(verify, startup_program());
            &&& demod_holds(steps, 1, 0x01, 0x10)
            &&& demod_holds(steps, 1, 0x15, 0x00)
            &&& demod_holds(steps, 1, 0x16 + k, 0x00)
            &&& demod_holds(steps, 0, 0x19, 0x05)
            &&& demod_holds(steps, 1, 0x93, 0xF0)
            &&& demod_holds(steps, 1, 0x94, 0x0F)
            &&& demod_holds(steps, 1, 0x11, 0x00)
            &&& demod_holds(steps, 1, 0x04, 0x00)
            &&& demod_holds(steps, 0, 0x61, 0x60)
            &&& demod_holds(steps, 0, 0x06, 0x80)
            &&& demod_holds(steps, 1, 0xB1, 0x1B)
            &&& demod_holds(steps, 0, 0x0D, 0x83)
        }),
{
    let program = startup_program();
    page_flags();
    leaves_byte(verify, program, 6, 1, 0x01, 0x10);
    leaves_byte(verify, program, 7, 1, 0x15, 0x00);
    leaves_byte(verify, program, 9 + k, 1, 0x16 + k, 0x00);
    leaves_byte(verify, program, 35, 0, 0x19, 0x05);
    leaves_byte(verify, program, 36, 1, 0x93, 0xF0);
    leaves_byte(verify, program, 37, 1, 0x94, 0x0F);
    leaves_byte(verify, program, 38, 1, 0x11, 0x00);
    leaves_byte(verify, program, 39, 1, 0x04, 0x00);
    leaves_byte(verify, program, 40, 0, 0x61, 0x60);
    leaves_byte(verify, program, 41, 0, 0x06, 0x80);
    leaves_byte(verify, program, 42, 1, 0xB1, 0x1B);
    leaves_byte(verify, program, 43, 0, 0x0D, 0x83);
}

/// Starting up makes the bulk endpoint of 512 bytes, held until the buffer is cleared, and
/// powers the demodulator.
pub proof fn startup_configures_the_endpoint(verify: bool)
    ensures
        ({
            let steps = program_plan(verify, startup_program());
            &&& left_in_usb(steps, 0x2000) == Some(seq![0x09u8])
            &&& left_in_usb(steps, 0x2158) == Some(seq![0x00u8, 0x02])
            &&& left_in_usb(steps, 0x2148) == Some(seq![0x10u8, 0x02])
            &&& left_in_sys(steps, 0x300B) == Some(seq![0x22u8])
            &&& left_in_sys(steps, 0x3000) == Some(seq![0xE8u8])
        }),
{
    let program = startup_program();
    page_flags();
    let steps = program_plan(verify, program);
    programs_leave(verify, program, 0, 0x2000, 0x110);
    programs_leave(verify, program, 1, 0x2158, 0x110);
    programs_leave(verify, program, 2, 0x2148, 0x110);
    programs_leave(verify, program, 3, 0x300B, 0x210);
    programs_leave(verify, program, 4, 0x3000, 0x210);
    assert(left_in_usb(steps, 0x2000)->0 =~= seq![0x09u8]);
    assert(left_in_usb(steps, 0x2158)->0 =~= seq![0x00u8, 0x02]);
    assert(left_in_usb(steps, 0x2148)->0 =~= seq![0x10u8, 0x02]);
    assert(left_in_sys(steps, 0x300B)->0 =~= seq![0x22u8]);
    assert(left_in_sys(steps, 0x3000)->0 =~= seq![0xE8u8]);
}

/// The bytes of the decimating filter, as the hardware reads them.
pub open spec fn filter_bytes() -> Seq<u8> {
    seq![
        0xCAu8, 0xDC, 0xD7, 0xD8, 0xE0, 0xF2, 0x0E, 0x35, 0x06, 0x50, 0x9C, 0x0D, 0x71, 0x11, 0x14,
        0x71, 0x74, 0x19, 0x41, 0xA5,
    ]
}

/// Starting up programs the decimating filter, one byte to a register.
#[verifier::spinoff_prover]
#[verifier::rlimit(30)]
pub proof fn startup_programs_the_filter_bytes(verify: bool, k: int)
    requires
        0 <= k < 20,
    ensures
        demod_holds(program_plan(verify, startup_program()), 1, 0x1C + k, filter_bytes()[k]),
{
    let program = startup_program();
    page_flags();
    assert(crate::rtl2832::spec_pack_fir(crate::rtl2832::FIR_COEFFICIENTS@) =~= filter_bytes());
    assert(program[15 + k] == (RegisterWrite::Demod {
        page: 1,
        addr: (0x1C + k) as u16,
        value: filter_bytes()[k] as u16,
        len: 1,
    }));
    leaves_byte(verify, program, 15 + k, 1, 0x1C + k, filter_bytes()[k]);
}

/// The offset registers of the demodulator, read as one number, undo the intermediate frequency
/// `if_hz`: added to the offset of that frequency in units of 2^-22 of the crystal they are a
/// multiple of 2^22.
pub open spec fn undoes(steps: Seq<Step>, if_hz: int, xtal: int, offset: int) -> bool {
    let a = left_in_demod(steps, 1, 0x19);
    let b = left_in_demod(steps, 1, 0x1A);
    let c = left_in_demod(steps, 1, 0x1B);
    &&& a is Some && b is Some && c is Some
    &&& a->0.len() == 1 && b->0.len() == 1 && c->0.len() == 1
    &&& (number(a->0 + b->0 + c->0) + offset) % 0x40_0000 == 0
    &&& -xtal < offset * xtal - if_hz * 0x40_0000 <= xtal
}

/// An intermediate frequency as an offset.
proof fn offsets_are_close(if_hz: u32, xtal: u32)
    requires
        xtal > 0,
        if_hz * 0x40_0000 < xtal * 0x7FFF_FFFF,
    ensures
        -(xtal as int) < if_offset(if_hz, xtal) * xtal - if_hz * 0x40_0000 <= xtal,
{
    let top = if_hz as nat * 0x40_0000;
    let q = top as int / xtal as int;
    let r = top as int % xtal as int;
    vstd::arithmetic::div_mod::lemma_fundamental_div_mod(top as int, xtal as int);
    assert(0 <= q < 0x7FFF_FFFF) by (nonlinear_arith)
        requires
            top == xtal * q + r,
            0 <= r < xtal,
            0 <= top < xtal * 0x7FFF_FFFF,
    ;
    crate::binary64::truncation_is_close(top, xtal as nat);
    let offset = if_offset(if_hz, xtal);
    assert(offset == q || offset == q + 1);
    assert(-(xtal as int) < offset * xtal - top <= xtal) by (nonlinear_arith)
        requires
            top == xtal * q + r,
            0 <= r < xtal,
            q <= offset <= q + 1,
    ;
}

/// Programming an intermediate frequency makes the demodulator undo it.
pub proof fn offsets_are_undone(verify: bool, if_hz: u32, xtal: u32)
    requires
        xtal > 0,
        if_hz * 0x40_0000 < xtal * 0x7FFF_FFFF,
    ensures
        undoes(
            program_plan(verify, if_program(if_hz, xtal)),
            if_hz as int,
            xtal as int,
            if_offset(if_hz, xtal),
        ),
{
    let program = if_program(if_hz, xtal);
    page_flags();
    let r = spec_if_frequency(if_hz, xtal);
    leaves_byte(verify, program, 0, 1, 0x19, r[0]);
    leaves_byte(verify, program, 1, 1, 0x1A, r[1]);
    leaves_byte(verify, program, 2, 1, 0x1B, r[2]);
    small_numbers(seq![r[0]] + seq![r[1]] + seq![r[2]]);
    if_registers_hold_the_negated_offset(if_hz, xtal);
    offsets_are_close(if_hz, xtal);
}

/// Switched to an R82xx, the demodulator undoes the 3.57 MHz that the tuner mixes to and the
/// inversion that mixing from above brings; the converter runs on one input, off zero
/// intermediate frequency.
pub proof fn the_data_path_undoes_the_tuner(verify: bool, xtal: u32)
    requires
        xtal > 6_973,
    ensures
        ({
            let steps = program_plan(verify, r82xx_program(xtal));
            &&& undoes(steps, 3_570_000, xtal as int, if_offset(3_570_000, xtal))
            &&& demod_holds(steps, 1, 0x15, 0x01)
            &&& demod_holds(steps, 1, 0xB1, 0x1A)
            &&& demod_holds(steps, 0, 0x08, 0x4D)
        }),
{
    let program = r82xx_program(xtal);
    page_flags();
    let r = spec_if_frequency(3_570_000, xtal);
    leaves_byte(verify, program, 0, 1, 0xB1, 0x1A);
    leaves_byte(verify, program, 1, 0, 0x08, 0x4D);
    leaves_byte(verify, program, 2, 1, 0x19, r[0]);
    leaves_byte(verify, program, 3, 1, 0x1A, r[1]);
    leaves_byte(verify, program, 4, 1, 0x1B, r[2]);
    leaves_byte(verify, program, 5, 1, 0x15, 0x01);
    small_numbers(seq![r[0]] + seq![r[1]] + seq![r[2]]);
    if_registers_hold_the_negated_offset(3_570_000, xtal);
    offsets_are_close(3_570_000, xtal);
}

/// The transfers of a stretch are the steps that its history gained.
proof fn stretch_is_its_plan(before: Seq<Exchange>, after: Seq<Exchange>, plan: Seq<Step>)
    requires
        carried(before, after, plan, None),
    ensures
        steps_since(after, before.len() as int) == plan,
{
    let steps = steps_since(after, before.len() as int);
    assert(steps.len() == plan.len());
    assert forall|i: int| 0 <= i < steps.len() implies steps[i] == plan[i] by {
        assert(after[before.len() + i].step == plan[i]);
    }
    assert(steps =~= plan);
}

/// Once a receiver has come up, the demodulator undoes exactly the intermediate frequency of
/// the tuner, and the inversion of its spectrum.
#[verifier::spinoff_prover]
#[verifier::rlimit(30)]
pub proof fn a_receiver_undoes_what_its_tuner_does(
    before: Seq<Exchange>,
    after: Seq<Exchange>,
    verify: bool,
    xtal: u32,
)
    requires
        brought_up(before, after, verify, xtal, None),
        xtal > 6_973,
    ensures
        ({
            let steps = steps_since(after, before.len() as int);
            &&& undoes(steps, 3_570_000, xtal as int, if_offset(DEFAULT_IF_HZ, xtal))
            &&& demod_holds(steps, 1, 0x15, 0x01)
            &&& demod_holds(steps, 1, 0xB1, 0x1A)
        }),
{
    let path = program_plan(verify, r82xx_program(xtal));
    let (h, i, j) = choose|h: Seq<Exchange>, i: Seq<Exchange>, j: Seq<Exchange>| #[trigger]
        carried(before, h, program_plan(verify, startup_program()), None) && #[trigger] answered(
            h,
            i,
            verify,
            true,
        ) && #[trigger] in_brackets(
            i,
            j,
            verify,
            crate::rtl2832::burst_plan(
                crate::rtl2832::R828D_I2C_ADDR,
                crate::r82xx::FIRST_REG,
                crate::r82xx::INIT_REGS@,
            ),
            None,
        ) && carried(j, after, path, None);
    the_data_path_undoes_the_tuner(verify, xtal);
    stretch_is_its_plan(j, after, path);
    let n = before.len() as int;
    assert(n <= j.len());
    let earlier = steps_since(after.take(j.len() as int), n);
    assert(steps_since(after, n) =~= earlier + path);
    later_writes_stay(earlier, path, 0x1920, 0x11);
    later_writes_stay(earlier, path, 0x1A20, 0x11);
    later_writes_stay(earlier, path, 0x1B20, 0x11);
    later_writes_stay(earlier, path, 0x1520, 0x11);
    later_writes_stay(earlier, path, 0xB120, 0x11);
}

/// The repeater is one register of the demodulator, open at 0x18 and closed at 0x10.
pub proof fn repeater_holds(verify: bool, enabled: bool)
    ensures
        demod_holds(
            repeater_plan(verify, enabled),
            1,
            0x01,
            if enabled {
                0x18
            } else {
                0x10
            },
        ),
        forall|addr: u16| last_written(repeater_plan(verify, enabled), addr, 0x210) is None,
{
    page_flags();
    let plan = repeater_plan(verify, enabled);
    reveal_with_fuel(last_written, 3);
    if verify {
        assert(plan.drop_last().last() == plan[0]);
        assert(plan.last() == plan[1]);
    } else {
        assert(plan.last() == plan[0]);
    }
    assert(left_in_demod(plan, 1, 0x01)->0 =~= seq![
        if enabled {
            0x18u8
        } else {
            0x10
        },
    ]);
}

/// The byte that a run of messages last writes to a register of the device at `i2c_addr` on the
/// tuner bus. A message names the register it starts at and then one byte for each from there.
pub open spec fn tuner_left(steps: Seq<Step>, i2c_addr: u8, reg: int) -> Option<u8>
    decreases steps.len(),
{
    if steps.len() == 0 {
        None
    } else {
        match steps.last() {
            Step::Out { value, index, data } => if value == i2c_addr && index == 0x610 && data.len()
                > 0 && data[0] <= reg < data[0] + data.len() - 1 {
                Some(data[reg - data[0] + 1])
            } else {
                tuner_left(steps.drop_last(), i2c_addr, reg)
            },
            _ => tuner_left(steps.drop_last(), i2c_addr, reg),
        }
    }
}

/// A single write to the tuner puts the value into the register and leaves every other alone.
pub proof fn tuner_writes_reach_their_register(i2c_addr: u8, reg: u8, value: u8, other: int)
    ensures
        tuner_left(seq![tuner_step(i2c_addr, reg, value)], i2c_addr, other) == (if other == reg {
            Some(value)
        } else {
            None
        }),
{
    let steps = seq![tuner_step(i2c_addr, reg, value)];
    reveal_with_fuel(tuner_left, 2);
    assert(steps.last() == steps[0]);
    assert(steps.drop_last().len() == 0);
}

/// A run of values ends up in the registers from the first on, one to each, however many
/// messages it takes.
pub proof fn bursts_reach_their_registers(i2c_addr: u8, start_reg: u8, values: Seq<u8>, k: int)
    requires
        start_reg + values.len() <= 256,
        0 <= k < values.len(),
    ensures
        tuner_left(burst_plan(i2c_addr, start_reg, values), i2c_addr, start_reg + k) == Some(
            values[k],
        ),
{
    let plan = burst_plan(i2c_addr, start_reg, values);
    burst_prefix(i2c_addr, start_reg, values, k, plan.len() as int);
    assert(plan.take(plan.len() as int) =~= plan);
}

proof fn burst_prefix(i2c_addr: u8, start_reg: u8, values: Seq<u8>, k: int, n: int)
    requires
        start_reg + values.len() <= 256,
        0 <= k < values.len(),
        0 <= n <= message_count(values.len() as int),
    ensures
        tuner_left(
            burst_plan(i2c_addr, start_reg, values).take(n),
            i2c_addr,
            start_reg + k,
        ) == (if k < 7 * n {
            Some(values[k])
        } else {
            None
        }),
    decreases n,
{
    let plan = burst_plan(i2c_addr, start_reg, values);
    let upto = plan.take(n);
    if n > 0 {
        burst_prefix(i2c_addr, start_reg, values, k, n - 1);
        assert(upto.drop_last() =~= plan.take(n - 1));
        assert(upto.last() == burst_step(i2c_addr, start_reg, values, n - 1));
        let data = upto.last()->Out_data;
        assert(7 * (n - 1) < values.len());
        assert(data[0] == start_reg + 7 * (n - 1));
    }
}

/// The tuner's registers after its initialisation, from 0x05 on.
pub open spec fn power_on_values() -> Seq<u8> {
    seq![
        0x83u8, 0x30, 0x75, 0xC0, 0x40, 0xD6, 0x6C, 0xF5, 0x63, 0x75, 0x68, 0x6C, 0x83, 0x80, 0x00,
        0x0F, 0x00, 0xC0, 0x30, 0x48, 0xCC, 0x60, 0x00, 0x54, 0xAE, 0x4A, 0xC0,
    ]
}

/// Initialising a tuner loads every writable register, 0x05 to 0x1F, with its power-on value.
pub proof fn initialising_loads_every_register(reg: int)
    requires
        0x05 <= reg <= 0x1F,
    ensures
        tuner_left(burst_plan(0x74, FIRST_REG, INIT_REGS@), 0x74, reg) == Some(
            power_on_values()[reg - 0x05],
        ),
        held(INIT_REGS@, reg as u8) == power_on_values()[reg - 0x05],
        R828D_I2C_ADDR == 0x74,
{
    assert(INIT_REGS@ =~= power_on_values());
    bursts_reach_their_registers(0x74, FIRST_REG, INIT_REGS@, reg - 0x05);
}

/// The steps of one stretch after another.
proof fn stretches_join(h: Seq<Exchange>, i: Seq<Exchange>, from: int)
    requires
        0 <= from <= h.len(),
        crate::conversation::continues(h, i),
    ensures
        steps_since(i, from) == steps_since(h, from) + steps_since(i, h.len() as int),
{
    let whole = steps_since(i, from);
    let joined = steps_since(h, from) + steps_since(i, h.len() as int);
    assert(whole.len() == joined.len());
    assert forall|k: int| 0 <= k < whole.len() implies whole[k] == joined[k] by {
        if from + k < h.len() {
            assert(i[from + k] == h[from + k]);
        }
    }
    assert(whole =~= joined);
}

/// Nothing in a run of transfers goes to a target.
spec fn spares(steps: Seq<Step>, value: u16, index: u16) -> bool {
    forall|k: int| 0 <= k < steps.len() ==> match #[trigger] steps[k] {
        Step::Out { value: v, index: i, .. } => v != value || i != index,
        _ => true,
    }
}

proof fn spared_targets(steps: Seq<Step>, value: u16, index: u16)
    requires
        spares(steps, value, index),
    ensures
        last_written(steps, value, index) is None,
    decreases steps.len(),
{
    if steps.len() > 0 {
        let shorter = steps.drop_last();
        assert forall|k: int| 0 <= k < shorter.len() implies match #[trigger] shorter[k] {
            Step::Out { value: v, index: i, .. } => v != value || i != index,
            _ => true,
        } by {
            assert(shorter[k] == steps[k]);
        }
        spared_targets(shorter, value, index);
        assert(steps.last() == steps[steps.len() - 1]);
    }
}

/// No step of a sequence of register writes goes where none of its writes does.
proof fn programs_spare(verify: bool, program: Seq<RegisterWrite>, value: u16, index: u16)
    requires
        forall|j: int| 0 <= j < program.len() ==> !goes_to(#[trigger] program[j], value, index),
    ensures
        last_written(program_plan(verify, program), value, index) is None,
    decreases program.len(),
{
    if program.len() > 0 {
        let shorter = program.drop_last();
        assert forall|j: int| 0 <= j < shorter.len() implies !goes_to(
            #[trigger] shorter[j],
            value,
            index,
        ) by {
            assert(shorter[j] == program[j]);
        }
        programs_spare(verify, shorter, value, index);
        assert(program.last() == program[program.len() - 1]);
        one_write(verify, program.last(), value, index);
        later_writes_stay(
            program_plan(verify, shorter),
            write_plan(verify, program.last()),
            value,
            index,
        );
    }
}

/// A demodulator register that a run of transfers leaves alone keeps what was there before it.
#[verifier::spinoff_prover]
#[verifier::rlimit(30)]
proof fn registers_keep(
    verify: bool,
    before: Seq<Exchange>,
    h: Seq<Exchange>,
    i: Seq<Exchange>,
    j: Seq<Exchange>,
    after: Seq<Exchange>,
    xtal: u32,
    addr: int,
)
    requires
        came_up_through(verify, before, h, i, j, after, xtal),
        0x1C <= addr <= 0xA0,
    ensures
        left_in_demod(steps_since(after, before.len() as int), 1, addr) == left_in_demod(
            program_plan(verify, startup_program()),
            1,
            addr,
        ),
{
    page_flags();
    let n = before.len() as int;
    let (v, x) = demod_target(1, addr);
    let path = program_plan(verify, r82xx_program(xtal));
    let burst = burst_plan(0x74, FIRST_REG, INIT_REGS@);
    let opening = repeater_plan(verify, true);
    let closing = repeater_plan(verify, false);
    let r = spec_if_frequency(DEFAULT_IF_HZ, xtal);
    stretch_is_its_plan(before, h, program_plan(verify, startup_program()));
    stretch_is_its_plan(i, j, opening + (burst + closing));
    stretch_is_its_plan(j, after, path);
    stretches_join(h, i, n);
    stretches_join(i, j, n);
    stretches_join(j, after, n);
    programs_spare(verify, r82xx_program(xtal), v, x);
    let probing = steps_since(i, h.len() as int);
    assert(spares(probing, v, x)) by {
        probing_spares(verify, h, i, v, x);
    }
    spared_targets(probing, v, x);
    assert(spares(opening + (burst + closing), v, x));
    spared_targets(opening + (burst + closing), v, x);
    later_writes_stay(steps_since(h, n), probing, v, x);
    later_writes_stay(steps_since(i, n), opening + (burst + closing), v, x);
    later_writes_stay(steps_since(j, n), path, v, x);
}

#[verifier::spinoff_prover]
#[verifier::rlimit(30)]
proof fn probing_spares(verify: bool, h: Seq<Exchange>, i: Seq<Exchange>, value: u16, index: u16)
    requires
        answered(h, i, verify, true),
        value != 0x120,
    ensures
        spares(steps_since(i, h.len() as int), value, index),
        crate::conversation::continues(h, i),
{
    page_flags();
    let opening = repeater_plan(verify, true);
    let closing = repeater_plan(verify, false);
    let at = h.len() + opening.len() as int;
    let steps = steps_since(i, h.len() as int);
    assert(i.len() > at);
    assert(carried(i.take(at + 1), i, closing, None));
    assert forall|k: int| 0 <= k < steps.len() implies match #[trigger] steps[k] {
        Step::Out { value: v, index: x, .. } => v != value || x != index,
        _ => true,
    } by {
        let p = h.len() + k;
        if p < at {
            assert(i.take(at)[p] == i[p]);
            assert(i.take(at)[p].step == opening[k]);
        } else if p > at {
            assert(i[p].step == closing[p - at - 1]);
        }
    }
    assert forall|k: int| 0 <= k < h.len() implies #[trigger] i[k] == h[k] by {
        assert(i.take(at)[k] == h[k]);
    }
}

/// The four stretches of bringing a receiver up.
spec fn came_up_through(
    verify: bool,
    before: Seq<Exchange>,
    h: Seq<Exchange>,
    i: Seq<Exchange>,
    j: Seq<Exchange>,
    after: Seq<Exchange>,
    xtal: u32,
) -> bool {
    let opening = repeater_plan(verify, true);
    let closing = repeater_plan(verify, false);
    &&& carried(before, h, program_plan(verify, startup_program()), None)
    &&& answered(h, i, verify, true)
    &&& crate::conversation::continues(h, i)
    &&& carried(i, j, opening + (burst_plan(0x74, FIRST_REG, INIT_REGS@) + closing), None)
    &&& carried(j, after, program_plan(verify, r82xx_program(xtal)), None)
}

/// A receiver that has come up is whole: the decimating filter and the thresholds of the
/// demodulator are programmed, a tuner that answered as an R82xx was asked for first, every one
/// of its registers holds its power-on value, and the tuner bus is closed.
#[verifier::spinoff_prover]
#[verifier::rlimit(30)]
pub proof fn a_receiver_comes_up_whole(
    before: Seq<Exchange>,
    after: Seq<Exchange>,
    verify: bool,
    xtal: u32,
    k: int,
    reg: int,
)
    requires
        brought_up(before, after, verify, xtal, None),
        0 <= k < 20,
        0x05 <= reg <= 0x1F,
    ensures
        ({
            let steps = steps_since(after, before.len() as int);
            &&& demod_holds(steps, 1, 0x1C + k, filter_bytes()[k])
            &&& demod_holds(steps, 1, 0x93, 0xF0)
            &&& demod_holds(steps, 1, 0x94, 0x0F)
            &&& demod_holds(steps, 1, 0x01, 0x10)
            &&& tuner_left(steps, 0x74, reg) == Some(power_on_values()[reg - 0x05])
            &&& exists|n: int|
                before.len() <= n < after.len() && (#[trigger] after[n]).step == (Step::In {
                    value: 0x74,
                    index: 0x600,
                    len: 1,
                }) && after[n].bytes() == seq![0x69u8]
        }),
{
    let burst = burst_plan(0x74, FIRST_REG, INIT_REGS@);
    let (h, i, j) = choose|h: Seq<Exchange>, i: Seq<Exchange>, j: Seq<Exchange>| #[trigger]
        carried(before, h, program_plan(verify, startup_program()), None) && #[trigger] answered(
            h,
            i,
            verify,
            true,
        ) && #[trigger] in_brackets(i, j, verify, burst, None) && carried(
            j,
            after,
            program_plan(verify, r82xx_program(xtal)),
            None,
        );
    probing_spares(verify, h, i, 0, 0);
    assert(came_up_through(verify, before, h, i, j, after, xtal));
    registers_keep(verify, before, h, i, j, after, xtal, 0x1C + k);
    registers_keep(verify, before, h, i, j, after, xtal, 0x93);
    registers_keep(verify, before, h, i, j, after, xtal, 0x94);
    startup_programs_the_filter_bytes(verify, k);
    startup_leaves_the_demodulator_ready(verify, 0);
    let at = h.len() + repeater_plan(verify, true).len() as int;
    assert(after[at] == i[at]) by {
        assert(j[at] == i[at]);
        assert(after[at] == j[at]);
    }
    bus_is_closed(verify, before, h, i, j, after, xtal);
    tuner_is_loaded(verify, before, h, i, j, after, xtal, reg);
}

/// The last stretch but one closes the bus, and the last leaves it alone.
#[verifier::spinoff_prover]
#[verifier::rlimit(30)]
proof fn bus_is_closed(
    verify: bool,
    before: Seq<Exchange>,
    h: Seq<Exchange>,
    i: Seq<Exchange>,
    j: Seq<Exchange>,
    after: Seq<Exchange>,
    xtal: u32,
)
    requires
        came_up_through(verify, before, h, i, j, after, xtal),
    ensures
        demod_holds(steps_since(after, before.len() as int), 1, 0x01, 0x10),
{
    page_flags();
    let n = before.len() as int;
    let path = program_plan(verify, r82xx_program(xtal));
    let burst = burst_plan(0x74, FIRST_REG, INIT_REGS@);
    let opening = repeater_plan(verify, true);
    let closing = repeater_plan(verify, false);
    stretch_is_its_plan(i, j, opening + (burst + closing));
    stretch_is_its_plan(j, after, path);
    stretches_join(i, j, n);
    stretches_join(j, after, n);
    programs_spare(verify, r82xx_program(xtal), 0x120, 0x11);
    repeater_holds(verify, false);
    later_writes_stay(burst, closing, 0x120, 0x11);
    later_writes_stay(opening, burst + closing, 0x120, 0x11);
    later_writes_stay(steps_since(i, n), opening + (burst + closing), 0x120, 0x11);
    later_writes_stay(steps_since(j, n), path, 0x120, 0x11);
}

/// What a run of messages leaves in the tuner, a later run that does not reach it leaves there.
proof fn later_messages_stay(first: Seq<Step>, second: Seq<Step>, i2c_addr: u8, reg: int)
    ensures
        tuner_left(first + second, i2c_addr, reg) == (match tuner_left(second, i2c_addr, reg) {
            Some(byte) => Some(byte),
            None => tuner_left(first, i2c_addr, reg),
        }),
    decreases second.len(),
{
    let both = first + second;
    if second.len() == 0 {
        assert(both =~= first);
    } else {
        assert(both.drop_last() =~= first + second.drop_last());
        assert(both.last() == second.last());
        later_messages_stay(first, second.drop_last(), i2c_addr, reg);
    }
}

/// A sequence of register writes says nothing to the tuner.
proof fn programs_say_nothing(verify: bool, program: Seq<RegisterWrite>, reg: int)
    requires
        forall|k: int| 0 <= k < program.len() ==> #[trigger] program[k] is Demod,
        forall|k: int| 0 <= k < program.len() ==> (#[trigger] program[k])->page <= 1,
    ensures
        tuner_left(program_plan(verify, program), 0x74, reg) is None,
    decreases program.len(),
{
    if program.len() > 0 {
        let shorter = program.drop_last();
        assert forall|k: int| 0 <= k < shorter.len() implies #[trigger] shorter[k] is Demod
            && shorter[k]->page <= 1 by {
            assert(shorter[k] == program[k]);
        }
        programs_say_nothing(verify, shorter, reg);
        let write = program.last();
        assert(write == program[program.len() - 1]);
        let plan = write_plan(verify, write);
        page_flags();
        reveal_with_fuel(tuner_left, 3);
        if verify {
            assert(plan.drop_last().last() == plan[0]);
            assert(plan.last() == plan[1]);
        } else {
            assert(plan.last() == plan[0]);
        }
        assert(tuner_left(plan, 0x74, reg) is None);
        later_messages_stay(program_plan(verify, shorter), plan, 0x74, reg);
    }
}

proof fn data_path_says_nothing(verify: bool, xtal: u32, reg: int)
    ensures
        tuner_left(program_plan(verify, r82xx_program(xtal)), 0x74, reg) is None,
{
    programs_say_nothing(verify, r82xx_program(xtal), reg);
}

proof fn repeater_says_nothing(verify: bool, reg: int)
    ensures
        tuner_left(repeater_plan(verify, false), 0x74, reg) is None,
{
    let closing = repeater_plan(verify, false);
    page_flags();
    reveal_with_fuel(tuner_left, 3);
    if verify {
        assert(closing.drop_last().last() == closing[0]);
        assert(closing.last() == closing[1]);
    } else {
        assert(closing.last() == closing[0]);
    }
}

/// The tuner is loaded by the last messages to it.
#[verifier::spinoff_prover]
#[verifier::rlimit(30)]
proof fn tuner_is_loaded(
    verify: bool,
    before: Seq<Exchange>,
    h: Seq<Exchange>,
    i: Seq<Exchange>,
    j: Seq<Exchange>,
    after: Seq<Exchange>,
    xtal: u32,
    reg: int,
)
    requires
        came_up_through(verify, before, h, i, j, after, xtal),
        0x05 <= reg <= 0x1F,
    ensures
        tuner_left(steps_since(after, before.len() as int), 0x74, reg) == Some(
            power_on_values()[reg - 0x05],
        ),
{
    let n = before.len() as int;
    let path = program_plan(verify, r82xx_program(xtal));
    let burst = burst_plan(0x74, FIRST_REG, INIT_REGS@);
    let opening = repeater_plan(verify, true);
    let closing = repeater_plan(verify, false);
    stretch_is_its_plan(i, j, opening + (burst + closing));
    stretch_is_its_plan(j, after, path);
    stretches_join(i, j, n);
    stretches_join(j, after, n);
    initialising_loads_every_register(reg);
    data_path_says_nothing(verify, xtal, reg);
    repeater_says_nothing(verify, reg);
    later_messages_stay(burst, closing, 0x74, reg);
    later_messages_stay(opening, burst + closing, 0x74, reg);
    later_messages_stay(steps_since(i, n), opening + (burst + closing), 0x74, reg);
    later_messages_stay(steps_since(j, n), path, 0x74, reg);
}

/// The writes of two runs of transfers are those of the first and then those of the second.
proof fn writes_join(first: Seq<Step>, second: Seq<Step>)
    ensures
        writes_among(first + second) == writes_among(first) + writes_among(second),
    decreases second.len(),
{
    let both = first + second;
    if second.len() == 0 {
        assert(both =~= first);
        assert(writes_among(first) + seq![] =~= writes_among(first));
    } else {
        assert(both.drop_last() =~= first + second.drop_last());
        assert(both.last() == second.last());
        writes_join(first, second.drop_last());
        assert(writes_among(both) =~= writes_among(first) + writes_among(second));
    }
}

/// What a write of a sequence puts on the wire.
spec fn wire(write: RegisterWrite) -> (u16, u16, Seq<u8>) {
    let step = write_plan(false, write)[0];
    (step->Out_value, step->Out_index, step->Out_data)
}

/// The writes of a sequence go out in its order, read-backs aside.
proof fn programs_keep_their_order(verify: bool, program: Seq<RegisterWrite>)
    ensures
        writes_among(program_plan(verify, program)) == program.map_values(
            |write: RegisterWrite| wire(write),
        ),
    decreases program.len(),
{
    let sent = program.map_values(|write: RegisterWrite| wire(write));
    if program.len() == 0 {
        assert(sent =~= seq![]);
    } else {
        let shorter = program.drop_last();
        let plan = write_plan(verify, program.last());
        programs_keep_their_order(verify, shorter);
        writes_join(program_plan(verify, shorter), plan);
        reveal_with_fuel(writes_among, 3);
        if plan.len() == 2 {
            assert(plan.drop_last().last() == plan[0]);
            assert(plan.last() == plan[1]);
        } else {
            assert(plan.last() == plan[0]);
        }
        assert(plan[0] == write_plan(false, program.last())[0]);
        assert(writes_among(plan) =~= seq![wire(program.last())]);
        assert(sent =~= shorter.map_values(|write: RegisterWrite| wire(write)).push(
            wire(program.last()),
        ));
    }
}

/// A new rate takes effect by a reset of the resampler: once both halves of the ratio are
/// written, the reset is asserted and then released, and nothing is written after that.
pub proof fn rates_take_effect_by_a_reset(verify: bool, rate: u32, xtal: u32)
    ensures
        ({
            let writes = writes_among(program_plan(verify, rate_program(rate, xtal)));
            &&& writes.len() == 6
            &&& (writes[0].0, writes[0].1) == (0x9F20u16, 0x11u16)
            &&& (writes[1].0, writes[1].1) == (0xA120u16, 0x11u16)
            &&& writes[4] == (0x120u16, 0x11u16, seq![0x14u8])
            &&& writes[5] == (0x120u16, 0x11u16, seq![0x10u8])
        }),
{
    page_flags();
    let program = rate_program(rate, xtal);
    programs_keep_their_order(verify, program);
    assert(wire(program[4]).2 =~= seq![0x14u8]);
    assert(wire(program[5]).2 =~= seq![0x10u8]);
}

/// Starting up configures the endpoint before it powers the demodulator, and resets the
/// demodulator, first asserting and then releasing, before it programs anything of it.
pub proof fn startup_resets_before_it_programs(verify: bool, k: int)
    requires
        7 <= k < 44,
    ensures
        ({
            let writes = writes_among(program_plan(verify, startup_program()));
            &&& writes.len() == 44
            &&& writes[0].1 == 0x110 && writes[1].1 == 0x110 && writes[2].1 == 0x110
            &&& writes[3].1 == 0x210 && writes[4].1 == 0x210
            &&& writes[5] == (0x120u16, 0x11u16, seq![0x14u8])
            &&& writes[6] == (0x120u16, 0x11u16, seq![0x10u8])
            &&& writes[k].1 == 0x10 || writes[k].1 == 0x11
            &&& writes[k].0 != 0x120
        }),
{
    page_flags();
    let program = startup_program();
    programs_keep_their_order(verify, program);
    assert(wire(program[5]).2 =~= seq![0x14u8]);
    assert(wire(program[6]).2 =~= seq![0x10u8]);
    let sent = program.map_values(|write: RegisterWrite| wire(write));
    assert(sent[k] == wire(program[k]));
}

} // verus!
