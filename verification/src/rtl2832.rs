//! The RTL2832U demodulator: register access, initialisation, and the sample stream.

use vstd::prelude::*;
use vstd::string::*;

use crate::conversation::{
    break_off, carried, failure_of, group_carried, undisturbed, Exchange, Outcome, Step,
};
use crate::regs;
use crate::regs::{
    encode_value, extended_ratio, rate_fault, spec_block_read, spec_block_write, spec_demod_read,
    spec_demod_write, spec_encode_value, spec_frequency_correction, spec_i2c_read, spec_i2c_write,
    spec_if_frequency, spec_ratio, spec_sample_rate, Block, RateError,
};
use crate::transport::{group_reached, ControlRequest, Transport, TransportError};

verus! {

broadcast use group_reached;

/// I2C address of the R828D tuner fitted to the Blog V4.
///
/// This is the eight-bit form, which is what the demodulator's I2C master expects. The
/// R820T on earlier boards sits at 0x34, and probing the wrong one is the first thing that
/// goes wrong when a V3 driver meets V4 hardware.
pub const R828D_I2C_ADDR: u8 = 0x74;

/// Register 0 of the R82xx family reads back as this on a working part.
pub const R82XX_CHECK_VALUE: u8 = 0x69;

/// Default intermediate frequency for the R82xx tuners.
pub const DEFAULT_IF_HZ: u32 = 3_570_000;

/// Longest I2C message the demodulator's bus master will carry, register address included.
pub const MAX_I2C_MSG_LEN: usize = 8;

/// Decimating filter the demodulator applies ahead of the resampler.
///
/// The first eight are plain signed bytes; the remaining eight are twelve-bit values
/// packed three bytes to every two coefficients.
pub const FIR_COEFFICIENTS: [i32; 16] = [
    -54,
    -36,
    -41,
    -40,
    -32,
    -14,
    14,
    53,
    101,
    156,
    215,
    273,
    327,
    372,
    404,
    421,
];

/// Byte `i` of a packed filter: the low eight bits of each of the first eight coefficients,
/// then the low twelve bits of each pair of the others across three bytes.
pub open spec fn packed_byte(coefficients: Seq<i32>, i: int) -> u8 {
    if i < 8 {
        (coefficients[i] as int % 0x100) as u8
    } else {
        let first = coefficients[8 + (i - 8) / 3 * 2] as int;
        let second = coefficients[9 + (i - 8) / 3 * 2] as int;
        if (i - 8) % 3 == 0 {
            (first / 0x10 % 0x100) as u8
        } else if (i - 8) % 3 == 1 {
            (first % 0x10 * 0x10 + second / 0x100 % 0x10) as u8
        } else {
            (second % 0x100) as u8
        }
    }
}

/// A packed filter.
pub open spec fn spec_pack_fir(coefficients: Seq<i32>) -> Seq<u8> {
    Seq::new(20, |i: int| packed_byte(coefficients, i))
}

proof fn lifting_keeps_low_bits(c: int)
    ensures
        (c + 0x1_0000_0000) % 0x10 == c % 0x10,
        (c + 0x1_0000_0000) % 0x100 == c % 0x100,
        (c + 0x1_0000_0000) / 0x10 % 0x100 == c / 0x10 % 0x100,
        (c + 0x1_0000_0000) / 0x100 % 0x10 == c / 0x100 % 0x10,
{
    let wide = c + 0x1_0000_0000;
    assert(wide / 0x10 == c / 0x10 + 0x1000_0000) by {
        vstd::arithmetic::div_mod::lemma_hoist_over_denominator(c, 0x1000_0000, 0x10);
    }
    assert(wide / 0x100 == c / 0x100 + 0x100_0000) by {
        vstd::arithmetic::div_mod::lemma_hoist_over_denominator(c, 0x100_0000, 0x100);
    }
    vstd::arithmetic::div_mod::lemma_mod_multiples_vanish(0x1000_0000, c, 0x10);
    vstd::arithmetic::div_mod::lemma_mod_multiples_vanish(0x100_0000, c, 0x100);
    vstd::arithmetic::div_mod::lemma_mod_multiples_vanish(0x10_0000, c / 0x10, 0x100);
    vstd::arithmetic::div_mod::lemma_mod_multiples_vanish(0x10_0000, c / 0x100, 0x10);
}

/// A coefficient lifted by 2^32, which leaves its low bits as they are.
fn lifted(coefficient: i32) -> (wide: u64)
    ensures
        wide == coefficient + 0x1_0000_0000,
        wide % 0x10 == coefficient as int % 0x10,
        wide % 0x100 == coefficient as int % 0x100,
        wide / 0x10 % 0x100 == coefficient as int / 0x10 % 0x100,
        wide / 0x100 % 0x10 == coefficient as int / 0x100 % 0x10,
{
    proof {
        lifting_keeps_low_bits(coefficient as int);
    }
    (coefficient as i64 + 0x1_0000_0000) as u64
}

/// Packs the filter coefficients into the twenty bytes the register block expects.
///
/// The mixed widths are not a quirk worth abstracting away: the first half genuinely is
/// eight-bit and the second half genuinely is twelve, and the packing is what the hardware
/// reads.
pub fn pack_fir(coefficients: &[i32; 16]) -> (packed: [u8; 20])
    ensures
        packed@ == spec_pack_fir(coefficients@),
{
    let mut out: [u8; 20] = [0u8; 20];
    let mut i: usize = 0;
    while i < 8
        invariant
            i <= 8,
            forall|j: int| 0 <= j < i ==> out@[j] == packed_byte(coefficients@, j),
        decreases 8 - i,
    {
        out[i] = (lifted(coefficients[i]) % 0x100) as u8;
        i += 1;
    }
    // Two twelve-bit values share three bytes.
    let mut pair: usize = 0;
    while pair < 4
        invariant
            pair <= 4,
            forall|j: int| 0 <= j < 8 + 3 * pair ==> out@[j] == packed_byte(coefficients@, j),
        decreases 4 - pair,
    {
        let first: u64 = lifted(coefficients[8 + pair * 2]);
        let second: u64 = lifted(coefficients[8 + pair * 2 + 1]);
        let base: usize = 8 + pair * 3;
        out[base] = (first / 0x10 % 0x100) as u8;
        out[base + 1] = ((first % 0x10) * 0x10 + second / 0x100 % 0x10) as u8;
        out[base + 2] = (second % 0x100) as u8;
        pair += 1;
    }
    assert(out@ =~= spec_pack_fir(coefficients@));
    out
}

/// A twelve-bit value is its upper byte and lower digit, and its upper digit and lower byte.
proof fn twelve_bits_join(c: int)
    ensures
        (c / 0x10 % 0x100) * 0x10 + c % 0x10 == c % 0x1000,
        (c / 0x100 % 0x10) * 0x100 + c % 0x100 == c % 0x1000,
{
}

/// Packing loses nothing: eight-bit and twelve-bit two's complement values can be read back
/// from the twenty bytes.
#[verifier::spinoff_prover]
pub proof fn packing_keeps_every_coefficient(coefficients: Seq<i32>, i: int)
    requires
        coefficients.len() == 16,
        0 <= i < 16,
        forall|j: int| 0 <= j < 8 ==> -0x80 <= #[trigger] coefficients[j] < 0x80,
        forall|j: int| 8 <= j < 16 ==> -0x800 <= #[trigger] coefficients[j] < 0x800,
    ensures
        ({
            let packed = spec_pack_fir(coefficients);
            let base = 8 + (i - 8) / 2 * 3;
            let raw = if i < 8 {
                packed[i] as int
            } else if i % 2 == 0 {
                packed[base] * 0x10 + packed[base + 1] / 0x10
            } else {
                packed[base + 1] % 0x10 * 0x100 + packed[base + 2]
            };
            let span: int = if i < 8 {
                0x100
            } else {
                0x1000
            };
            coefficients[i] == if raw < span / 2 {
                raw
            } else {
                raw - span
            }
        }),
{
    if i >= 8 {
        let pair = (i - 8) / 2;
        let first = coefficients[8 + pair * 2] as int;
        let second = coefficients[9 + pair * 2] as int;
        assert((8 + pair * 3 - 8) / 3 == pair && (9 + pair * 3 - 8) / 3 == pair && (10 + pair * 3
            - 8) / 3 == pair);
        assert(i == 8 + pair * 2 || i == 9 + pair * 2);
        assert(0 <= pair < 4);
        twelve_bits_join(first);
        twelve_bits_join(second);
        let packed = spec_pack_fir(coefficients);
        let base = 8 + pair * 3;
        assert(packed[base] == first / 0x10 % 0x100);
        assert(packed[base + 1] == (first % 0x10) * 0x10 + second / 0x100 % 0x10);
        assert(packed[base + 2] == second % 0x100);
        assert(packed[base + 1] / 0x10 == first % 0x10);
        assert(packed[base + 1] % 0x10 == second / 0x100 % 0x10);
    }
}

/// One register write of a longer sequence.
#[derive(Debug, Clone, Copy, PartialEq, Eq, Structural)]
pub enum RegisterWrite {
    /// To one of the flat address blocks.
    Flat { block: Block, addr: u16, value: u16, len: usize },
    /// To the demodulator.
    Demod { page: u8, addr: u16, value: u16, len: usize },
}

/// The transfer that writes a flat block register.
pub open spec fn flat_step(block: Block, addr: u16, value: u16, len: int) -> Step {
    let (v, i) = spec_block_write(addr, block);
    Step::Out { value: v, index: i, data: spec_encode_value(value, len) }
}

/// The transfer that reads a flat block register.
pub open spec fn flat_read_step(block: Block, addr: u16, len: nat) -> Step {
    let (v, i) = spec_block_read(addr, block);
    Step::In { value: v, index: i, len }
}

/// The transfer that writes a demodulator register.
pub open spec fn demod_step(page: u8, addr: u16, value: u16, len: int) -> Step {
    let (v, i) = spec_demod_write(page, addr);
    Step::Out { value: v, index: i, data: spec_encode_value(value, len) }
}

/// The transfer that reads a demodulator register.
pub open spec fn demod_read_step(page: u8, addr: u16) -> Step {
    let (v, i) = spec_demod_read(page, addr);
    Step::In { value: v, index: i, len: 1 }
}

/// The transfers for one demodulator write, with the read-back where it is switched on.
pub open spec fn demod_plan(verify: bool, page: u8, addr: u16, value: u16, len: int) -> Seq<Step> {
    if verify {
        seq![demod_step(page, addr, value, len), demod_read_step(0x0A, 0x01)]
    } else {
        seq![demod_step(page, addr, value, len)]
    }
}

/// The transfers for one register write.
pub open spec fn write_plan(verify: bool, write: RegisterWrite) -> Seq<Step> {
    match write {
        RegisterWrite::Flat { block, addr, value, len } => seq![
            flat_step(block, addr, value, len as int),
        ],
        RegisterWrite::Demod { page, addr, value, len } => demod_plan(
            verify,
            page,
            addr,
            value,
            len as int,
        ),
    }
}

/// The transfers for a sequence of register writes.
pub open spec fn program_plan(verify: bool, program: Seq<RegisterWrite>) -> Seq<Step>
    decreases program.len(),
{
    if program.len() == 0 {
        seq![]
    } else {
        program_plan(verify, program.drop_last()) + write_plan(verify, program.last())
    }
}

/// A sequence of writes can be split anywhere.
pub proof fn program_plan_splits(verify: bool, first: Seq<RegisterWrite>, second: Seq<RegisterWrite>)
    ensures
        program_plan(verify, first + second) == program_plan(verify, first) + program_plan(
            verify,
            second,
        ),
    decreases second.len(),
{
    if second.len() == 0 {
        assert(first + second =~= first);
        assert(program_plan(verify, first) + seq![] =~= program_plan(verify, first));
    } else {
        program_plan_splits(verify, first, second.drop_last());
        assert((first + second).drop_last() =~= first + second.drop_last());
        assert((first + second).last() == second.last());
        assert(program_plan(verify, first) + program_plan(verify, second) =~= (program_plan(
            verify,
            first,
        ) + program_plan(verify, second.drop_last())) + write_plan(verify, second.last()));
    }
}

/// The write that opens or closes the path to the tuner bus.
pub open spec fn repeater_plan(verify: bool, enabled: bool) -> Seq<Step> {
    demod_plan(
        verify,
        1,
        0x01,
        if enabled {
            0x18
        } else {
            0x10
        },
        1,
    )
}

/// The write that switches the demodulator's own gain control.
pub open spec fn agc_plan(verify: bool, enabled: bool) -> Seq<Step> {
    demod_plan(
        verify,
        0,
        0x19,
        if enabled {
            0x25
        } else {
            0x05
        },
        1,
    )
}

/// The transfer that writes one tuner register.
pub open spec fn tuner_step(i2c_addr: u8, reg: u8, value: u8) -> Step {
    let (v, i) = spec_i2c_write(i2c_addr);
    Step::Out { value: v, index: i, data: seq![reg, value] }
}

/// The transfer that reads `len` bytes from the tuner.
pub open spec fn tuner_read_step(i2c_addr: u8, len: nat) -> Step {
    let (v, i) = spec_i2c_read(i2c_addr);
    Step::In { value: v, index: i, len }
}

/// Registers carried by one message of a run.
pub open spec fn per_message() -> int {
    MAX_I2C_MSG_LEN - 1
}

/// How many messages a run of `len` registers takes.
pub open spec fn message_count(len: int) -> int {
    (len + per_message() - 1) / per_message()
}

/// The registers that message `c` of a run carries.
pub open spec fn message_values(values: Seq<u8>, c: int) -> Seq<u8> {
    let start = c * per_message();
    let end = start + per_message();
    values.subrange(
        start,
        if end <= values.len() {
            end
        } else {
            values.len() as int
        },
    )
}

/// Message `c` of a run: the register it starts at, then what it carries.
pub open spec fn burst_step(i2c_addr: u8, start_reg: u8, values: Seq<u8>, c: int) -> Step {
    let (v, i) = spec_i2c_write(i2c_addr);
    Step::Out {
        value: v,
        index: i,
        data: seq![(start_reg + c * per_message() % 0x100) as u8] + message_values(values, c),
    }
}

/// The messages for a run of consecutive tuner registers.
pub open spec fn burst_plan(i2c_addr: u8, start_reg: u8, values: Seq<u8>) -> Seq<Step> {
    Seq::new(
        message_count(values.len() as int) as nat,
        |c: int| burst_step(i2c_addr, start_reg, values, c),
    )
}

/// The register that each message of a run starts at stays inside a byte.
pub open spec fn burst_fits(start_reg: u8, len: int) -> bool {
    forall|c: int|
        0 <= c < message_count(len) ==> start_reg + #[trigger] (c * per_message()) % 0x100 <= 0xFF
}

/// The value that a register read gives.
pub open spec fn read_value(bytes: Seq<u8>) -> u16 {
    if bytes.len() == 1 {
        bytes[0] as u16
    } else if bytes.len() == 2 {
        (bytes[0] * 0x100 + bytes[1]) as u16
    } else {
        0
    }
}

/// The value that the read at position `at` of a history gave.
pub open spec fn reply(history: Seq<Exchange>, at: int) -> u16 {
    read_value(history[at].bytes())
}

/// The mask for one pin.
pub open spec fn pin_mask(gpio: u8) -> u16 {
    1u16 << gpio
}

/// The transfers that make a pin an output, given what the direction and the enable register
/// held.
pub open spec fn gpio_output_plan(gpio: u8, direction: u16, enable: u16) -> Seq<Step> {
    seq![
        flat_read_step(Block::Sys, regs::sys::GPD, 1),
        flat_step(Block::Sys, regs::sys::GPD, direction & !pin_mask(gpio), 1),
        flat_read_step(Block::Sys, regs::sys::GPOE, 1),
        flat_step(Block::Sys, regs::sys::GPOE, enable | pin_mask(gpio), 1),
    ]
}

/// The transfers that drive a pin, given what the output register held.
pub open spec fn gpio_write_plan(gpio: u8, high: bool, current: u16) -> Seq<Step> {
    seq![
        flat_read_step(Block::Sys, regs::sys::GPO, 1),
        flat_step(
            Block::Sys,
            regs::sys::GPO,
            if high {
                current | pin_mask(gpio)
            } else {
                current & !pin_mask(gpio)
            },
            1,
        ),
    ]
}

/// The transfers that switch the antenna feed, given what the direction, the enable and the
/// output register held.
pub open spec fn bias_tee_plan(
    enabled: bool,
    direction: u16,
    enable: u16,
    current: u16,
) -> Seq<Step> {
    gpio_output_plan(0, direction, enable) + gpio_write_plan(0, enabled, current)
}

/// A register write to a flat block.
pub open spec fn flat(block: Block, addr: u16, value: u16, len: usize) -> RegisterWrite {
    RegisterWrite::Flat { block, addr, value, len }
}

/// A register write to the demodulator.
pub open spec fn demod(page: u8, addr: u16, value: u16, len: usize) -> RegisterWrite {
    RegisterWrite::Demod { page, addr, value, len }
}

/// Everything that brings the demodulator up, in order.
pub open spec fn startup_program() -> Seq<RegisterWrite> {
    seq![
        flat(Block::Usb, regs::usb::SYSCTL, 0x09, 1),
        flat(Block::Usb, regs::usb::EPA_MAXPKT, 0x0002, 2),
        flat(Block::Usb, regs::usb::EPA_CTL, 0x1002, 2),
        flat(Block::Sys, regs::sys::DEMOD_CTL_1, 0x22, 1),
        flat(Block::Sys, regs::sys::DEMOD_CTL, 0xE8, 1),
        demod(1, 0x01, 0x14, 1),
        demod(1, 0x01, 0x10, 1),
        demod(1, 0x15, 0x00, 1),
        demod(1, 0x16, 0x0000, 2),
    ] + Seq::new(6, |i: int| demod(1, (0x16 + i) as u16, 0x00, 1)) + Seq::new(
        20,
        |i: int|
            demod(1, (0x1C + i) as u16, spec_pack_fir(FIR_COEFFICIENTS@)[i] as u16, 1),
    ) + seq![
        demod(0, 0x19, 0x05, 1),
        demod(1, 0x93, 0xF0, 1),
        demod(1, 0x94, 0x0F, 1),
        demod(1, 0x11, 0x00, 1),
        demod(1, 0x04, 0x00, 1),
        demod(0, 0x61, 0x60, 1),
        demod(0, 0x06, 0x80, 1),
        demod(1, 0xB1, 0x1B, 1),
        demod(0, 0x0D, 0x83, 1),
    ]
}

/// The writes that program an intermediate frequency.
pub open spec fn if_program(if_hz: u32, xtal: u32) -> Seq<RegisterWrite> {
    let registers = spec_if_frequency(if_hz, xtal);
    seq![
        demod(1, 0x19, registers[0] as u16, 1),
        demod(1, 0x1A, registers[1] as u16, 1),
        demod(1, 0x1B, registers[2] as u16, 1),
    ]
}

/// The writes that switch the data path to an R82xx tuner.
pub open spec fn r82xx_program(xtal: u32) -> Seq<RegisterWrite> {
    seq![demod(1, 0xB1, 0x1A, 1), demod(0, 0x08, 0x4D, 1)] + if_program(DEFAULT_IF_HZ, xtal)
        + seq![demod(1, 0x15, 0x01, 1)]
}

/// The writes that trim the sample clock.
pub open spec fn correction_program(ppm: int) -> Seq<RegisterWrite> {
    let registers = spec_frequency_correction(ppm);
    seq![demod(1, 0x3E, registers[0] as u16, 1), demod(1, 0x3F, registers[1] as u16, 1)]
}

/// The writes that program a sample rate.
pub open spec fn rate_program(rate: u32, xtal: u32) -> Seq<RegisterWrite> {
    let setting = spec_sample_rate(rate, xtal);
    seq![demod(1, 0x9F, setting.high, 2), demod(1, 0xA1, setting.low, 2)] + correction_program(0)
        + seq![demod(1, 0x01, 0x14, 1), demod(1, 0x01, 0x10, 1)]
}

/// The writes that clear the endpoint's buffer.
pub open spec fn reset_program() -> Seq<RegisterWrite> {
    seq![
        flat(Block::Usb, regs::usb::EPA_CTL, 0x1002, 2),
        flat(Block::Usb, regs::usb::EPA_CTL, 0x0000, 2),
    ]
}

/// The name of a rate fault.
pub open spec fn rate_fault_name(fault: RateError) -> Seq<char> {
    match fault {
        RateError::TooLow => "TooLow"@,
        RateError::TooHigh => "TooHigh"@,
        RateError::UnsupportedGap => "UnsupportedGap"@,
    }
}

/// Between `before` and `after` the repeater was opened, the tuner was read once, and the
/// repeater was closed again, whatever became of the read.
///
/// A failure to open ends it there. A failure to close is reported in place of one to read.
pub open spec fn read_in_brackets(
    before: Seq<Exchange>,
    after: Seq<Exchange>,
    verify: bool,
    read: Step,
    failure: Option<TransportError>,
) -> bool {
    let opening = repeater_plan(verify, true);
    let closing = repeater_plan(verify, false);
    let at = before.len() + opening.len();
    if after.len() <= at {
        failure is Some && carried(before, after, opening, failure)
    } else {
        let closed = carried(after.take(at as int + 1), after, closing, None);
        &&& carried(before, after.take(at as int), opening, None)
        &&& after[at as int].step == read
        &&& after[at as int].directed()
        &&& if closed {
            failure == after[at as int].failure()
        } else {
            failure is Some && carried(after.take(at as int + 1), after, closing, failure)
        }
    }
}

/// Behind an open repeater the transfers of `work`, which begin with opening it, were made as
/// far as they went, up to position `k` of `after`; then the repeater was closed, as far as
/// that went. `e` is the first failure.
pub open spec fn broke_off(
    before: Seq<Exchange>,
    after: Seq<Exchange>,
    verify: bool,
    work: Seq<Step>,
    k: int,
    e: TransportError,
) -> bool {
    let opened = before.len() + repeater_plan(verify, true).len();
    let closing = repeater_plan(verify, false);
    let done = after.take(k);
    let worked = break_off(before, done);
    let closed = break_off(done, after);
    &&& opened <= k <= after.len()
    &&& worked is Some ==> opened < k
    &&& carried(before, done, work, worked)
    &&& carried(done, after, closing, closed)
    &&& first_failure(worked, closed) == Some(e)
}

/// Between `before` and `after` the repeater was opened, the transfers of `plan` made, and the
/// repeater closed again, whatever became of them. A failure to open ends it there. The first
/// failure is the one reported.
pub open spec fn in_brackets(
    before: Seq<Exchange>,
    after: Seq<Exchange>,
    verify: bool,
    plan: Seq<Step>,
    failure: Option<TransportError>,
) -> bool {
    let opening = repeater_plan(verify, true);
    let closing = repeater_plan(verify, false);
    if undisturbed(before, after) {
        failure is None && carried(before, after, opening + (plan + closing), None)
    } else {
        failure matches Some(e) && (carried(before, after, opening, Some(e)) || exists|k: int|
            #[trigger] broke_off(before, after, verify, opening + plan, k, e))
    }
}

/// The failure of what was done first, or else of closing after it.
pub open spec fn first_failure(
    worked: Option<TransportError>,
    closed: Option<TransportError>,
) -> Option<TransportError> {
    if worked is Some {
        worked
    } else {
        closed
    }
}

/// A stretch that began by opening the repeater and did not get past that.
pub proof fn never_opened(
    before: Seq<Exchange>,
    after: Seq<Exchange>,
    verify: bool,
    plan: Seq<Step>,
    e: TransportError,
)
    requires
        carried(before, after, repeater_plan(verify, true), Some(e)),
    ensures
        !undisturbed(before, after),
        in_brackets(before, after, verify, plan, Some(e)),
{
    assert(after.last() == after[after.len() - 1]);
}

/// Work behind an open repeater that something failed in, or in closing after it.
pub proof fn broken_off_then_closed(
    before: Seq<Exchange>,
    opened: Seq<Exchange>,
    done: Seq<Exchange>,
    after: Seq<Exchange>,
    verify: bool,
    plan: Seq<Step>,
    worked: Option<TransportError>,
    closed: Option<TransportError>,
)
    requires
        carried(before, opened, repeater_plan(verify, true), None),
        carried(opened, done, plan, worked),
        carried(done, after, repeater_plan(verify, false), closed),
        first_failure(worked, closed) is Some,
    ensures
        !undisturbed(before, after),
        broke_off(
            before,
            after,
            verify,
            repeater_plan(verify, true) + plan,
            done.len() as int,
            first_failure(worked, closed)->0,
        ),
{
    broadcast use group_carried;

    let work = repeater_plan(verify, true) + plan;
    assert(after.take(done.len() as int) =~= done);
    assert(carried(before, done, work, worked));
    assert(done.last() == done[done.len() - 1]);
    assert(break_off(before, done) == worked);
    assert(after.len() > done.len());
    assert(after.last() == after[after.len() - 1]);
    assert(break_off(done, after) == closed);
    if worked is Some {
        assert(after[done.len() - 1] == done[done.len() - 1]);
    }
}

/// Work behind an open repeater, then closing it: the whole is bracketed.
pub proof fn opened_then_closed(
    before: Seq<Exchange>,
    opened: Seq<Exchange>,
    done: Seq<Exchange>,
    after: Seq<Exchange>,
    verify: bool,
    plan: Seq<Step>,
    worked: Option<TransportError>,
    closed: Option<TransportError>,
)
    requires
        carried(before, opened, repeater_plan(verify, true), None),
        carried(opened, done, plan, worked),
        carried(done, after, repeater_plan(verify, false), closed),
    ensures
        in_brackets(before, after, verify, plan, first_failure(worked, closed)),
{
    broadcast use group_carried;

    if first_failure(worked, closed) is Some {
        broken_off_then_closed(before, opened, done, after, verify, plan, worked, closed);
    } else {
        let closing = repeater_plan(verify, false);
        assert(carried(opened, after, plan + closing, None));
        assert(carried(before, after, repeater_plan(verify, true) + (plan + closing), None));
    }
}

/// From position `k` on, a history holds the transfers that close the repeater: all of them,
/// or up to one that failed.
pub open spec fn closing_begins(after: Seq<Exchange>, verify: bool, k: int) -> bool {
    let closing = repeater_plan(verify, false);
    &&& 0 <= k < after.len() <= k + closing.len()
    &&& after[k].step == demod_step(1, 0x01, 0x10, 1)
    &&& after.len() < k + closing.len() ==> after.last().outcome is Failed
}

/// The repeater is opened first; and unless that failed, what is sent last closes it.
pub open spec fn opened_first_closed_last(
    before: Seq<Exchange>,
    after: Seq<Exchange>,
    verify: bool,
    failure: Option<TransportError>,
) -> bool {
    let opening = repeater_plan(verify, true);
    &&& before.len() < after.len()
    &&& after[before.len() as int].step == demod_step(1, 0x01, 0x18, 1)
    &&& carried(before, after, opening, failure) && failure is Some || exists|k: int|
        before.len() + opening.len() <= k && #[trigger] closing_begins(after, verify, k)
}

/// Closing ends work behind the repeater that nothing failed in.
pub proof fn undisturbed_brackets_close(
    before: Seq<Exchange>,
    after: Seq<Exchange>,
    verify: bool,
    plan: Seq<Step>,
    failure: Option<TransportError>,
)
    requires
        carried(
            before,
            after,
            repeater_plan(verify, true) + (plan + repeater_plan(verify, false)),
            None,
        ),
    ensures
        opened_first_closed_last(before, after, verify, failure),
{
    let opening = repeater_plan(verify, true);
    let closing = repeater_plan(verify, false);
    let whole = opening + (plan + closing);
    let k = after.len() - closing.len();
    assert(whole[k - before.len()] == closing[0]);
    assert(whole[0] == opening[0]);
    assert(closing_begins(after, verify, k));
}

/// Closing begins where work behind the repeater broke off.
pub proof fn broken_brackets_close(
    before: Seq<Exchange>,
    after: Seq<Exchange>,
    verify: bool,
    plan: Seq<Step>,
    k: int,
    e: TransportError,
    failure: Option<TransportError>,
)
    requires
        broke_off(before, after, verify, repeater_plan(verify, true) + plan, k, e),
    ensures
        opened_first_closed_last(before, after, verify, failure),
{
    let done = after.take(k);
    let closing = repeater_plan(verify, false);
    let opening = repeater_plan(verify, true);
    assert((opening + plan)[0] == opening[0]);
    assert(done[before.len() as int] == after[before.len() as int]);
    assert(after.len() > k);
    assert(after[k].step == closing[0]);
    assert(after.last() == after[after.len() - 1]);
    assert(closing_begins(after, verify, k));
}

/// Whatever becomes of work behind the repeater, the bus is opened first, and unless opening
/// it failed, what is sent last closes it.
pub proof fn brackets_close_the_repeater(
    before: Seq<Exchange>,
    after: Seq<Exchange>,
    verify: bool,
    plan: Seq<Step>,
    failure: Option<TransportError>,
)
    requires
        in_brackets(before, after, verify, plan, failure),
    ensures
        opened_first_closed_last(before, after, verify, failure),
{
    let opening = repeater_plan(verify, true);
    if undisturbed(before, after) {
        undisturbed_brackets_close(before, after, verify, plan, failure);
    } else {
        let e = failure->0;
        if !carried(before, after, opening, Some(e)) {
            let k = choose|k: int| #[trigger] broke_off(before, after, verify, opening + plan, k, e);
            broken_brackets_close(before, after, verify, plan, k, e, failure);
        }
    }
}

/// A register write to a flat block.
fn flat_register(block: Block, addr: u16, value: u16, len: usize) -> (write: RegisterWrite)
    ensures
        write == flat(block, addr, value, len),
{
    RegisterWrite::Flat { block, addr, value, len }
}

/// A register write to the demodulator.
fn demod_register(page: u8, addr: u16, value: u16, len: usize) -> (write: RegisterWrite)
    ensures
        write == demod(page, addr, value, len),
{
    RegisterWrite::Demod { page, addr, value, len }
}

/// Everything that brings the demodulator up, in order.
fn startup_writes() -> (program: Vec<RegisterWrite>)
    ensures
        program@ == startup_program(),
{
    let mut program: Vec<RegisterWrite> = Vec::new();
    // USB endpoint first, so the bulk path exists before anything can drive it.
    program.push(flat_register(Block::Usb, regs::usb::SYSCTL, 0x09, 1));
    program.push(flat_register(Block::Usb, regs::usb::EPA_MAXPKT, 0x0002, 2));
    program.push(flat_register(Block::Usb, regs::usb::EPA_CTL, 0x1002, 2));

    // Power up the demodulator.
    program.push(flat_register(Block::Sys, regs::sys::DEMOD_CTL_1, 0x22, 1));
    program.push(flat_register(Block::Sys, regs::sys::DEMOD_CTL, 0xE8, 1));

    // Soft reset: assert then release.
    program.push(demod_register(1, 0x01, 0x14, 1));
    program.push(demod_register(1, 0x01, 0x10, 1));

    // Clear the spectrum-inversion and offset registers before they are set properly.
    program.push(demod_register(1, 0x15, 0x00, 1));
    program.push(demod_register(1, 0x16, 0x0000, 2));
    let ghost head = program@;
    let ghost cleared = Seq::new(6, |i: int| demod(1, (0x16 + i) as u16, 0x00, 1));
    let mut offset: u16 = 0;
    while offset < 6
        invariant
            offset <= 6,
            cleared == Seq::new(6, |i: int| demod(1, (0x16 + i) as u16, 0x00, 1)),
            program@ == head + cleared.take(offset as int),
        decreases 6 - offset,
    {
        program.push(demod_register(1, 0x16 + offset, 0x00, 1));
        offset += 1;
        assert(program@ =~= head + cleared.take(offset as int));
    }

    // Decimating filter, twenty bytes across consecutive registers.
    let fir = pack_fir(&FIR_COEFFICIENTS);
    let ghost filter = Seq::new(
        20,
        |i: int| demod(1, (0x1C + i) as u16, spec_pack_fir(FIR_COEFFICIENTS@)[i] as u16, 1),
    );
    let mut tap: usize = 0;
    while tap < 20
        invariant
            tap <= 20,
            offset == 6,
            cleared.len() == 6,
            fir@ == spec_pack_fir(FIR_COEFFICIENTS@),
            filter == Seq::new(
                20,
                |i: int|
                    demod(1, (0x1C + i) as u16, spec_pack_fir(FIR_COEFFICIENTS@)[i] as u16, 1),
            ),
            program@ == head + cleared + filter.take(tap as int),
        decreases 20 - tap,
    {
        program.push(demod_register(1, 0x1C + tap as u16, fir[tap] as u16, 1));
        tap += 1;
        assert(program@ =~= head + cleared + filter.take(tap as int));
    }

    // Software-defined-radio mode, with the digital gain control off.
    program.push(demod_register(0, 0x19, 0x05, 1));

    // State machine thresholds.
    program.push(demod_register(1, 0x93, 0xF0, 1));
    program.push(demod_register(1, 0x94, 0x0F, 1));

    // Disable the broadcast television automatic gain loops, which would otherwise fight
    // whatever gain the tuner is set to.
    program.push(demod_register(1, 0x11, 0x00, 1));
    program.push(demod_register(1, 0x04, 0x00, 1));

    // No transport-stream filtering, and the default converter data path.
    program.push(demod_register(0, 0x61, 0x60, 1));
    program.push(demod_register(0, 0x06, 0x80, 1));

    // Zero intermediate frequency with offset cancellation and quadrature correction.
    program.push(demod_register(1, 0xB1, 0x1B, 1));

    // Stop driving the 4.096 MHz test clock onto a pin.
    program.push(demod_register(0, 0x0D, 0x83, 1));
    assert(program@ =~= startup_program());
    program
}

/// The writes that program an intermediate frequency.
fn if_writes(if_hz: u32, xtal: u32) -> (program: Vec<RegisterWrite>)
    ensures
        program@ == if_program(if_hz, xtal),
{
    let registers = regs::if_frequency(if_hz, xtal);
    let mut program: Vec<RegisterWrite> = Vec::new();
    program.push(demod_register(1, 0x19, registers[0] as u16, 1));
    program.push(demod_register(1, 0x1A, registers[1] as u16, 1));
    program.push(demod_register(1, 0x1B, registers[2] as u16, 1));
    assert(program@ =~= if_program(if_hz, xtal));
    program
}

/// The writes that trim the sample clock.
fn correction_writes(ppm: i32) -> (program: Vec<RegisterWrite>)
    requires
        ppm != i32::MIN,
    ensures
        program@ == correction_program(ppm as int),
{
    let registers = regs::frequency_correction(ppm);
    let mut program: Vec<RegisterWrite> = Vec::new();
    program.push(demod_register(1, 0x3E, registers[0] as u16, 1));
    program.push(demod_register(1, 0x3F, registers[1] as u16, 1));
    assert(program@ =~= correction_program(ppm as int));
    program
}

/// Driver for the demodulator half of the device.
#[derive(Debug)]
pub struct Rtl2832<T> {
    transport: T,
    xtal: u32,
    /// Reads a demodulator register back after every write. It is undocumented why the part
    /// would want it, and it doubles the number of round trips on a bus where round trips
    /// are the bottleneck, so it stays switchable. On by default.
    verify_demod_writes: bool,
}

impl<T: Transport> Rtl2832<T> {
    /// The transport underneath.
    pub closed spec fn link(&self) -> T {
        self.transport
    }

    /// Every transfer made so far.
    pub open spec fn history(&self) -> Seq<Exchange> {
        self.link().history()
    }

    /// The crystal that rates and offsets are computed against.
    pub closed spec fn crystal(&self) -> u32 {
        self.xtal
    }

    /// Whether demodulator writes are read back.
    pub closed spec fn verifies(&self) -> bool {
        self.verify_demod_writes
    }

    /// Everything but the transport is as it was.
    pub open spec fn configured_as(&self, other: &Self) -> bool {
        &&& self.crystal() == other.crystal()
        &&& self.verifies() == other.verifies()
    }

    /// No transfer will fail from here on.
    pub open spec fn steady(&self) -> bool {
        self.link().steady()
    }

    /// Transfers were made since `other` and nothing else.
    pub open spec fn carries_on(&self, other: &Self) -> bool {
        &&& self.configured_as(other)
        &&& self.link().reached_from(&other.link())
        &&& other.steady() ==> self.steady() && undisturbed(other.history(), self.history())
    }

    pub fn new(transport: T) -> (rtl: Self)
        ensures
            rtl.link() == transport,
            rtl.crystal() == regs::RTL_XTAL,
            rtl.verifies(),
    {
        Self { transport, xtal: regs::RTL_XTAL, verify_demod_writes: true }
    }

    pub fn transport_mut(&mut self) -> (transport: &mut T)
        ensures
            *transport == old(self).link(),
            final(self).link() == *final(transport),
            final(self).configured_as(old(self)),
    {
        &mut self.transport
    }

    pub fn into_transport(self) -> (transport: T)
        ensures
            transport == self.link(),
    {
        self.transport
    }

    pub fn xtal(&self) -> (xtal: u32)
        ensures
            xtal == self.crystal(),
    {
        self.xtal
    }

    pub fn set_verify_demod_writes(&mut self, verify: bool)
        ensures
            final(self).verifies() == verify,
            final(self).link() == old(self).link(),
            final(self).crystal() == old(self).crystal(),
    {
        self.verify_demod_writes = verify;
    }

    /// Writes to one of the flat address blocks.
    pub fn write_reg(&mut self, block: Block, addr: u16, value: u16, len: usize) -> (r: Result<
        (),
        TransportError,
    >)
        ensures
            carried(
                old(self).history(),
                final(self).history(),
                seq![flat_step(block, addr, value, len as int)],
                failure_of(r),
            ),
            final(self).carries_on(old(self)),
            old(self).steady() ==> r is Ok,
    {
        let (v, i) = regs::block_write(addr, block);
        let bytes = encode_value(value, len);
        self.transport.control_out(ControlRequest::write(v, i), bytes.as_slice())
    }

    /// Reads from one of the flat address blocks.
    pub fn read_reg(&mut self, block: Block, addr: u16, len: usize) -> (r: Result<
        u16,
        TransportError,
    >)
        requires
            len <= 2,
        ensures
            carried(
                old(self).history(),
                final(self).history(),
                seq![flat_read_step(block, addr, len as nat)],
                failure_of(r),
            ),
            r matches Ok(value) ==> {
                &&& value == reply(final(self).history(), old(self).history().len() as int)
                &&& final(self).history().last().bytes().len() == len
            },
            final(self).carries_on(old(self)),
            old(self).steady() ==> r is Ok,
    {
        let (v, i) = regs::block_read(addr, block);
        if len == 1 {
            let mut buf: [u8; 1] = [0u8; 1];
            self.transport.control_in(ControlRequest::read(v, i), &mut buf)?;
            Ok(buf[0] as u16)
        } else if len == 2 {
            let mut buf: [u8; 2] = [0u8; 2];
            self.transport.control_in(ControlRequest::read(v, i), &mut buf)?;
            Ok(buf[0] as u16 * 0x100 + buf[1] as u16)
        } else {
            let mut buf: [u8; 0] = [];
            self.transport.control_in(ControlRequest::read(v, i), &mut buf)?;
            Ok(0)
        }
    }

    /// Writes a demodulator register on the given page.
    pub fn demod_write(&mut self, page: u8, addr: u16, value: u16, len: usize) -> (r: Result<
        (),
        TransportError,
    >)
        ensures
            carried(
                old(self).history(),
                final(self).history(),
                demod_plan(old(self).verifies(), page, addr, value, len as int),
                failure_of(r),
            ),
            final(self).carries_on(old(self)),
            old(self).steady() ==> r is Ok,
    {
        let (v, i) = regs::demod_write(page, addr);
        let bytes = encode_value(value, len);
        self.transport.control_out(ControlRequest::write(v, i), bytes.as_slice())?;
        if self.verify_demod_writes {
            let (rv, ri) = regs::demod_read(0x0A, 0x01);
            let mut scratch: [u8; 1] = [0u8; 1];
            self.transport.control_in(ControlRequest::read(rv, ri), &mut scratch)?;
        }
        Ok(())
    }

    /// Reads a demodulator register on the given page.
    pub fn demod_read(&mut self, page: u8, addr: u16) -> (r: Result<u8, TransportError>)
        ensures
            carried(
                old(self).history(),
                final(self).history(),
                seq![demod_read_step(page, addr)],
                failure_of(r),
            ),
            r matches Ok(value) ==> final(self).history().last().bytes() == seq![value],
            final(self).carries_on(old(self)),
            old(self).steady() ==> r is Ok,
    {
        let (v, i) = regs::demod_read(page, addr);
        let mut buf: [u8; 1] = [0u8; 1];
        self.transport.control_in(ControlRequest::read(v, i), &mut buf)?;
        assert(buf@ =~= seq![buf@[0]]);
        Ok(buf[0])
    }

    /// Carries out one register write.
    fn write_one(&mut self, write: RegisterWrite) -> (r: Result<(), TransportError>)
        ensures
            carried(
                old(self).history(),
                final(self).history(),
                write_plan(old(self).verifies(), write),
                failure_of(r),
            ),
            final(self).carries_on(old(self)),
            old(self).steady() ==> r is Ok,
    {
        match write {
            RegisterWrite::Flat { block, addr, value, len } => self.write_reg(
                block,
                addr,
                value,
                len,
            ),
            RegisterWrite::Demod { page, addr, value, len } => self.demod_write(
                page,
                addr,
                value,
                len,
            ),
        }
    }

    /// Carries out a sequence of register writes, stopping at the first that fails.
    fn run(&mut self, program: &Vec<RegisterWrite>) -> (r: Result<(), TransportError>)
        ensures
            carried(
                old(self).history(),
                final(self).history(),
                program_plan(old(self).verifies(), program@),
                failure_of(r),
            ),
            final(self).carries_on(old(self)),
            old(self).steady() ==> r is Ok,
    {
        broadcast use group_carried;

        let ghost verify = self.verifies();
        let ghost before = self.history();
        let mut i: usize = 0;
        while i < program.len()
            invariant
                i <= program@.len(),
                verify == self.verifies(),
                verify == old(self).verifies(),
                before == old(self).history(),
                self.carries_on(old(self)),
                carried(before, self.history(), program_plan(verify, program@.take(i as int)), None),
            decreases program@.len() - i,
        {
            proof {
                let done = program@.take(i as int);
                let next = program@.take(i + 1);
                assert(next.drop_last() =~= done);
                assert(next.last() == program@[i as int]);
                program_plan_splits(verify, next, program@.skip(i + 1));
                assert(next + program@.skip(i + 1) =~= program@);
            }
            self.write_one(program[i])?;
            i += 1;
        }
        assert(program@.take(i as int) =~= program@);
        Ok(())
    }

    /// Opens or closes the path between the USB host and the tuner's I2C bus.
    ///
    /// The tuner is unreachable while this is closed, so every tuner access has to be
    /// bracketed by it.
    pub fn set_i2c_repeater(&mut self, enabled: bool) -> (r: Result<(), TransportError>)
        ensures
            carried(
                old(self).history(),
                final(self).history(),
                repeater_plan(old(self).verifies(), enabled),
                failure_of(r),
            ),
            final(self).carries_on(old(self)),
            old(self).steady() ==> r is Ok,
    {
        self.demod_write(
            1,
            0x01,
            if enabled {
                0x18
            } else {
                0x10
            },
            1,
        )
    }

    /// Writes `value` to `reg` on the tuner.
    pub fn tuner_write(&mut self, i2c_addr: u8, reg: u8, value: u8) -> (r: Result<
        (),
        TransportError,
    >)
        ensures
            carried(
                old(self).history(),
                final(self).history(),
                seq![tuner_step(i2c_addr, reg, value)],
                failure_of(r),
            ),
            final(self).history().len() == old(self).history().len() + 1,
            final(self).carries_on(old(self)),
            old(self).steady() ==> r is Ok,
    {
        let (v, i) = regs::i2c_write(i2c_addr);
        let payload = [reg, value];
        assert(payload@ =~= seq![reg, value]);
        self.transport.control_out(ControlRequest::write(v, i), payload.as_slice())
    }

    /// Writes a run of consecutive tuner registers.
    ///
    /// The demodulator's I2C master will not carry a message longer than
    /// [`MAX_I2C_MSG_LEN`], so a long run is split across several transfers with the
    /// register address advanced each time. Sending the whole run in one transfer stalls
    /// the endpoint, which is what happens if the limit is missed, since nothing in the
    /// interface hints that it exists.
    pub fn tuner_write_burst(&mut self, i2c_addr: u8, start_reg: u8, values: &[u8]) -> (r: Result<
        (),
        TransportError,
    >)
        requires
            burst_fits(start_reg, values@.len() as int),
        ensures
            carried(
                old(self).history(),
                final(self).history(),
                burst_plan(i2c_addr, start_reg, values@),
                failure_of(r),
            ),
            final(self).carries_on(old(self)),
            old(self).steady() ==> r is Ok,
    {
        broadcast use group_carried;

        let (v, i) = regs::i2c_write(i2c_addr);
        let ghost plan = burst_plan(i2c_addr, start_reg, values@);
        let ghost before = self.history();
        let mut sent: usize = 0;
        let ghost mut c: int = 0;
        assert(plan.take(0) =~= seq![]);
        while sent < values.len()
            invariant
                plan == burst_plan(i2c_addr, start_reg, values@),
                burst_fits(start_reg, values@.len() as int),
                (v, i) == spec_i2c_write(i2c_addr),
                before == old(self).history(),
                self.carries_on(old(self)),
                0 <= c <= plan.len(),
                sent == if c < plan.len() {
                    c * per_message()
                } else {
                    values@.len() as int
                },
                carried(before, self.history(), plan.take(c), None),
            decreases values@.len() - sent,
        {
            let left: usize = values.len() - sent;
            let take: usize = if left < MAX_I2C_MSG_LEN - 1 {
                left
            } else {
                MAX_I2C_MSG_LEN - 1
            };
            assert(c < message_count(values@.len() as int));
            assert(start_reg + (c * per_message()) % 0x100 <= 0xFF);
            let mut payload: Vec<u8> = Vec::with_capacity(take + 1);
            payload.push(start_reg + (sent % 0x100) as u8);
            payload.extend_from_slice(vstd::slice::slice_subrange(values, sent, sent + take));
            proof {
                assert(payload@ =~= seq![(start_reg + c * per_message() % 0x100) as u8]
                    + message_values(values@, c));
                assert(plan[c] == burst_step(i2c_addr, start_reg, values@, c));
                assert(plan.take(c + 1) =~= plan.take(c) + seq![plan[c]]);
                assert(plan.take(c + 1) + plan.skip(c + 1) =~= plan);
            }
            let ghost middle = self.history();
            let r = self.transport.control_out(ControlRequest::write(v, i), payload.as_slice());
            assert(carried(middle, self.history(), seq![plan[c]], failure_of(r)));
            r?;
            sent = sent + take;
            proof {
                c = c + 1;
            }
        }
        assert(plan.take(c) =~= plan);
        Ok(())
    }

    /// Reads `buf.len()` bytes from the tuner, starting at register zero.
    ///
    /// The R82xx has no read pointer: a read always begins at register zero and streams
    /// forward, so getting at register 4 means reading five bytes and discarding four. The
    /// bytes arrive the right way round and are passed on as they are.
    pub fn tuner_read(&mut self, i2c_addr: u8, buf: &mut [u8]) -> (r: Result<(), TransportError>)
        ensures
            carried(
                old(self).history(),
                final(self).history(),
                seq![tuner_read_step(i2c_addr, old(buf)@.len())],
                failure_of(r),
            ),
            final(self).history().len() == old(self).history().len() + 1,
            r is Ok ==> final(self).history().last().bytes() == final(buf)@,
            final(buf)@.len() == old(buf)@.len(),
            final(self).carries_on(old(self)),
            old(self).steady() ==> r is Ok,
    {
        let (v, i) = regs::i2c_read(i2c_addr);
        self.transport.control_in(ControlRequest::read(v, i), buf)?;
        Ok(())
    }

    /// Configures a pin as an output.
    pub fn set_gpio_output(&mut self, gpio: u8) -> (r: Result<(), TransportError>)
        requires
            gpio < 16,
        ensures
            ({
                let after = final(self).history();
                let at = old(self).history().len() as int;
                carried(
                    old(self).history(),
                    after,
                    gpio_output_plan(gpio, reply(after, at), reply(after, at + 2)),
                    failure_of(r),
                )
            }),
            final(self).carries_on(old(self)),
            old(self).steady() ==> r is Ok,
    {
        broadcast use group_carried;

        let ghost at = self.history().len() as int;
        let mask: u16 = 1u16 << gpio;
        let direction: u16 = self.read_reg(Block::Sys, regs::sys::GPD, 1)?;
        self.write_reg(Block::Sys, regs::sys::GPD, direction & !mask, 1)?;
        let enable: u16 = self.read_reg(Block::Sys, regs::sys::GPOE, 1)?;
        self.write_reg(Block::Sys, regs::sys::GPOE, enable | mask, 1)
    }

    /// Drives a pin high or low.
    pub fn write_gpio(&mut self, gpio: u8, high: bool) -> (r: Result<(), TransportError>)
        requires
            gpio < 16,
        ensures
            ({
                let after = final(self).history();
                let at = old(self).history().len() as int;
                carried(
                    old(self).history(),
                    after,
                    gpio_write_plan(gpio, high, reply(after, at)),
                    failure_of(r),
                )
            }),
            final(self).carries_on(old(self)),
            old(self).steady() ==> r is Ok,
    {
        let mask: u16 = 1u16 << gpio;
        let current: u16 = self.read_reg(Block::Sys, regs::sys::GPO, 1)?;
        let updated: u16 = if high {
            current | mask
        } else {
            current & !mask
        };
        self.write_reg(Block::Sys, regs::sys::GPO, updated, 1)
    }

    /// Powers the antenna feed. Leave it off unless something upstream needs it: it puts
    /// 4.5 V on the connector, which not every antenna appreciates.
    pub fn set_bias_tee(&mut self, enabled: bool) -> (r: Result<(), TransportError>)
        ensures
            ({
                let after = final(self).history();
                let at = old(self).history().len() as int;
                carried(
                    old(self).history(),
                    after,
                    bias_tee_plan(
                        enabled,
                        reply(after, at),
                        reply(after, at + 2),
                        reply(after, at + 4),
                    ),
                    failure_of(r),
                )
            }),
            final(self).carries_on(old(self)),
            old(self).steady() ==> r is Ok,
    {
        broadcast use group_carried;

        self.set_gpio_output(0)?;
        self.write_gpio(0, enabled)
    }

    /// Reads raw interleaved samples, returning how many bytes arrived.
    pub fn read_samples(&mut self, buf: &mut [u8]) -> (r: Result<usize, TransportError>)
        ensures
            final(self).history() == old(self).history().push(
                Exchange {
                    direction: None,
                    step: Step::Bulk { len: old(buf)@.len() },
                    outcome: Outcome::of_read(r, final(buf)@),
                },
            ),
            final(buf)@.len() == old(buf)@.len(),
            final(self).carries_on(old(self)),
            old(self).steady() ==> r is Ok,
    {
        let r = self.transport.bulk_in(buf);
        assert(self.history()[old(self).history().len() as int].outcome == Outcome::of_read(r, buf@));
        r
    }

    /// Checks that a tuner is present and answering at the given address.
    pub fn probe_tuner(&mut self, i2c_addr: u8) -> (r: Result<bool, TransportError>)
        ensures
            read_in_brackets(
                old(self).history(),
                final(self).history(),
                old(self).verifies(),
                tuner_read_step(i2c_addr, 1),
                failure_of(r),
            ),
            r matches Ok(found) ==> {
                let at = old(self).history().len() + repeater_plan(
                    old(self).verifies(),
                    true,
                ).len();
                found == (final(self).history()[at as int].bytes() == seq![R82XX_CHECK_VALUE])
            },
            final(self).carries_on(old(self)),
            old(self).steady() ==> r is Ok,
    {
        self.set_i2c_repeater(true)?;
        let ghost opened = self.history();
        let mut buf: [u8; 1] = [0u8; 1];
        let result = self.tuner_read(i2c_addr, &mut buf);
        let ghost answered = self.history();
        let closing = self.set_i2c_repeater(false);
        proof {
            let after = self.history();
            assert(after.take(opened.len() as int) =~= opened);
            assert(after.take(answered.len() as int) =~= answered);
            assert(after[opened.len() as int] == answered[opened.len() as int]);
        }
        closing?;
        result?;
        proof {
            let bytes = answered[opened.len() as int].bytes();
            assert(bytes =~= seq![buf@[0]]);
            assert(seq![R82XX_CHECK_VALUE][0] == R82XX_CHECK_VALUE);
        }
        Ok(buf[0] == R82XX_CHECK_VALUE)
    }

    /// Brings the demodulator up into software-defined-radio mode.
    ///
    /// The order matters throughout. Powering the demodulator before the USB endpoint is
    /// configured, or programming the filter before the soft reset, leaves the part in a
    /// state that only shows up much later as a stream that never starts.
    pub fn init_baseband(&mut self) -> (r: Result<(), TransportError>)
        ensures
            carried(
                old(self).history(),
                final(self).history(),
                program_plan(old(self).verifies(), startup_program()),
                failure_of(r),
            ),
            final(self).carries_on(old(self)),
            old(self).steady() ==> r is Ok,
    {
        let program = startup_writes();
        self.run(&program)
    }

    /// Switches the data path to suit an R82xx tuner.
    ///
    /// These parts present a real intermediate frequency rather than quadrature baseband,
    /// so the converter runs single-ended and the demodulator undoes both the offset and
    /// the spectral flip the tuner's high-side mixing introduces.
    pub fn configure_for_r82xx(&mut self) -> (r: Result<(), TransportError>)
        ensures
            carried(
                old(self).history(),
                final(self).history(),
                program_plan(old(self).verifies(), r82xx_program(old(self).crystal())),
                failure_of(r),
            ),
            final(self).carries_on(old(self)),
            old(self).steady() ==> r is Ok,
    {
        let mut program: Vec<RegisterWrite> = Vec::new();
        program.push(demod_register(1, 0xB1, 0x1A, 1));
        program.push(demod_register(0, 0x08, 0x4D, 1));
        let mut offset = if_writes(DEFAULT_IF_HZ, self.xtal);
        program.append(&mut offset);
        // The tuner mixes from above, which inverts the spectrum; this puts it back.
        program.push(demod_register(1, 0x15, 0x01, 1));
        assert(program@ =~= r82xx_program(self.xtal));
        self.run(&program)
    }

    /// Programs the demodulator's intermediate frequency offset.
    pub fn set_if_frequency(&mut self, if_hz: u32) -> (r: Result<(), TransportError>)
        ensures
            carried(
                old(self).history(),
                final(self).history(),
                program_plan(old(self).verifies(), if_program(if_hz, old(self).crystal())),
                failure_of(r),
            ),
            final(self).carries_on(old(self)),
            old(self).steady() ==> r is Ok,
    {
        let program = if_writes(if_hz, self.xtal);
        self.run(&program)
    }

    /// Programs the sample rate, returning the rate actually achieved as a numerator and a
    /// denominator.
    ///
    /// The requested rate is a ratio against the crystal and rarely lands exactly, so the
    /// caller has to use the returned value for anything rate-dependent downstream. A rate
    /// that cannot be programmed is refused before any transfer.
    pub fn set_sample_rate(&mut self, rate: u32) -> (r: Result<(u64, u32), TransportError>)
        ensures
            match rate_fault(rate) {
                Some(fault) => {
                    &&& final(self).link() == old(self).link()
                    &&& r matches Err(TransportError::Io(text)) && text@
                        == "unsupported sample rate: "@ + rate_fault_name(fault)
                },
                None => {
                    &&& carried(
                        old(self).history(),
                        final(self).history(),
                        program_plan(
                            old(self).verifies(),
                            rate_program(rate, old(self).crystal()),
                        ),
                        failure_of(r),
                    )
                    &&& r matches Ok(achieved) ==> {
                        &&& achieved.0 == old(self).crystal() * 0x40_0000
                        &&& achieved.1 == extended_ratio(spec_ratio(rate, old(self).crystal()))
                    }
                },
            },
            final(self).carries_on(old(self)),
            old(self).steady() && rate_fault(rate) is None ==> r is Ok,
    {
        let setting = match regs::sample_rate(rate, self.xtal) {
            Ok(setting) => setting,
            Err(fault) => {
                let name = match fault {
                    RateError::TooLow => "TooLow",
                    RateError::TooHigh => "TooHigh",
                    RateError::UnsupportedGap => "UnsupportedGap",
                };
                return Err(
                    TransportError::Io("unsupported sample rate: ".to_owned().concat(name)),
                );
            },
        };
        let mut program: Vec<RegisterWrite> = Vec::new();
        program.push(demod_register(1, 0x9F, setting.high, 2));
        program.push(demod_register(1, 0xA1, setting.low, 2));
        let mut trim = correction_writes(0);
        program.append(&mut trim);
        // The resampler needs a reset before the new ratio takes effect.
        program.push(demod_register(1, 0x01, 0x14, 1));
        program.push(demod_register(1, 0x01, 0x10, 1));
        assert(program@ =~= rate_program(rate, self.xtal));
        self.run(&program)?;
        Ok(regs::achieved_rate(setting.ratio, self.xtal))
    }

    /// Trims the sample clock, in parts per million.
    pub fn set_frequency_correction(&mut self, ppm: i32) -> (r: Result<(), TransportError>)
        requires
            ppm != i32::MIN,
        ensures
            carried(
                old(self).history(),
                final(self).history(),
                program_plan(old(self).verifies(), correction_program(ppm as int)),
                failure_of(r),
            ),
            final(self).carries_on(old(self)),
            old(self).steady() ==> r is Ok,
    {
        let program = correction_writes(ppm);
        self.run(&program)
    }

    /// Enables the demodulator's own digital gain control.
    ///
    /// Independent of the tuner's gain, and usually best left off: it operates after the
    /// converter, so it cannot recover anything the tuner already clipped.
    pub fn set_agc(&mut self, enabled: bool) -> (r: Result<(), TransportError>)
        ensures
            carried(
                old(self).history(),
                final(self).history(),
                agc_plan(old(self).verifies(), enabled),
                failure_of(r),
            ),
            final(self).carries_on(old(self)),
            old(self).steady() ==> r is Ok,
    {
        self.demod_write(
            0,
            0x19,
            if enabled {
                0x25
            } else {
                0x05
            },
            1,
        )
    }

    /// Clears whatever the endpoint has buffered.
    ///
    /// Without this the first read returns samples captured before the current tuning,
    /// which shows up as a fraction of a second of the previous frequency at every retune.
    pub fn reset_buffer(&mut self) -> (r: Result<(), TransportError>)
        ensures
            carried(
                old(self).history(),
                final(self).history(),
                program_plan(old(self).verifies(), reset_program()),
                failure_of(r),
            ),
            final(self).carries_on(old(self)),
            old(self).steady() ==> r is Ok,
    {
        let mut program: Vec<RegisterWrite> = Vec::new();
        program.push(flat_register(Block::Usb, regs::usb::EPA_CTL, 0x1002, 2));
        program.push(flat_register(Block::Usb, regs::usb::EPA_CTL, 0x0000, 2));
        assert(program@ =~= reset_program());
        self.run(&program)
    }
}

/// Which of the three phases of starting up a write belongs to.
pub open spec fn startup_phase(write: RegisterWrite) -> int {
    match write {
        RegisterWrite::Flat { block, .. } => if block is Usb {
            0
        } else {
            1
        },
        RegisterWrite::Demod { .. } => 2,
    }
}

/// Starting up configures the USB endpoint, then powers the demodulator, then programs it.
pub proof fn startup_keeps_its_order(i: int, j: int)
    requires
        0 <= i <= j < startup_program().len(),
    ensures
        startup_phase(startup_program()[i]) <= startup_phase(startup_program()[j]),
{
}

/// The soft reset is asserted and released before the filter, and each of the twenty filter
/// bytes goes to its own register.
pub proof fn startup_programs_the_whole_filter(k: int)
    requires
        0 <= k < 20,
    ensures
        startup_program()[5] == demod(1, 0x01, 0x14, 1),
        startup_program()[6] == demod(1, 0x01, 0x10, 1),
        startup_program()[15 + k] == demod(
            1,
            (0x1C + k) as u16,
            spec_pack_fir(FIR_COEFFICIENTS@)[k] as u16,
            1,
        ),
{
}

/// How many writes of a sequence go to the demodulator.
pub open spec fn demod_writes(program: Seq<RegisterWrite>) -> nat
    decreases program.len(),
{
    if program.len() == 0 {
        0
    } else {
        demod_writes(program.drop_last()) + (if program.last() is Demod {
            1nat
        } else {
            0
        })
    }
}

/// Reading back costs exactly one more transfer for each demodulator write.
pub proof fn read_back_costs_one_transfer_each(program: Seq<RegisterWrite>)
    ensures
        program_plan(false, program).len() == program.len(),
        program_plan(true, program).len() == program.len() + demod_writes(program),
    decreases program.len(),
{
    if program.len() > 0 {
        read_back_costs_one_transfer_each(program.drop_last());
    }
}

/// Once the repeater is open, a tuner read is always followed by the attempt to close it;
/// and where nothing failed after the read, the repeater ends up closed.
pub proof fn bracketed_reads_close_the_repeater(
    before: Seq<Exchange>,
    after: Seq<Exchange>,
    verify: bool,
    read: Step,
    failure: Option<TransportError>,
)
    requires
        read_in_brackets(before, after, verify, read, failure),
        after.len() > before.len() + repeater_plan(verify, true).len(),
    ensures
        ({
            let at = before.len() + repeater_plan(verify, true).len();
            &&& after.len() > at + 1
            &&& after[at as int + 1].step == demod_step(1, 0x01, 0x10, 1)
            &&& failure is None ==> after.len() == at + 1 + repeater_plan(verify, false).len()
        }),
{
}

/// The values that the first `n` messages of a run carry.
pub open spec fn carried_values(values: Seq<u8>, n: int) -> Seq<u8>
    decreases n,
{
    if n <= 0 {
        seq![]
    } else {
        carried_values(values, n - 1) + message_values(values, n - 1)
    }
}

/// No message of a run is longer than the bus master carries, each starts where the one
/// before it ended, and together they carry every value in order.
pub proof fn bursts_carry_every_value(i2c_addr: u8, start_reg: u8, values: Seq<u8>)
    requires
        burst_fits(start_reg, values.len() as int),
    ensures
        carried_values(values, message_count(values.len() as int)) == values,
        forall|c: int|
            0 <= c < message_count(values.len() as int) ==> {
                &&& (#[trigger] message_values(values, c)).len() + 1 <= MAX_I2C_MSG_LEN
                &&& carried_values(values, c).len() == c * per_message()
            },
{
    let count = message_count(values.len() as int);
    assert forall|c: int| 0 <= c < count implies {
        &&& (#[trigger] message_values(values, c)).len() + 1 <= MAX_I2C_MSG_LEN
        &&& carried_values(values, c).len() == c * per_message()
    } by {
        messages_join_up(values, c);
    }
    if count > 0 {
        messages_join_up(values, count - 1);
        assert(carried_values(values, count) =~= values);
    } else {
        assert(carried_values(values, count) =~= values);
    }
}

proof fn messages_join_up(values: Seq<u8>, c: int)
    requires
        0 <= c,
        c == 0 || (c - 1) * per_message() < values.len(),
        c * per_message() <= values.len(),
    ensures
        carried_values(values, c) == values.take(c * per_message()),
    decreases c,
{
    if c > 0 {
        messages_join_up(values, c - 1);
        assert(carried_values(values, c) =~= values.take(c * per_message()));
    } else {
        assert(carried_values(values, c) =~= values.take(0));
    }
}

/// A register is read as it is written, most significant byte first.
pub proof fn registers_read_as_they_are_written(value: u16)
    ensures
        read_value(spec_encode_value(value, 2)) == value,
        value < 256 ==> read_value(spec_encode_value(value, 1)) == value,
{
}

/// A part is known as an R82xx by its identification, and a long run is split so that no
/// message, register address included, is longer than eight bytes.
pub proof fn the_bus_carries_eight_bytes()
    ensures
        R82XX_CHECK_VALUE == 0x69,
        R828D_I2C_ADDR == 0x74,
        per_message() + 1 == 8,
{
}

/// A rate is refused by the name of what is wrong with it, a different one for each.
pub proof fn refusals_name_the_fault(a: RateError, b: RateError)
    ensures
        rate_fault_name(a) == rate_fault_name(b) <==> a == b,
        rate_fault_name(RateError::TooLow) == seq!['T', 'o', 'o', 'L', 'o', 'w'],
        rate_fault_name(RateError::TooHigh) == seq!['T', 'o', 'o', 'H', 'i', 'g', 'h'],
{
    reveal_strlit("TooLow");
    reveal_strlit("TooHigh");
    reveal_strlit("UnsupportedGap");
    assert("TooLow"@ =~= seq!['T', 'o', 'o', 'L', 'o', 'w']);
    assert("TooHigh"@ =~= seq!['T', 'o', 'o', 'H', 'i', 'g', 'h']);
    assert("TooLow"@.len() == 6 && "TooHigh"@.len() == 7 && "UnsupportedGap"@.len() == 14);
}

} // verus!
