//! The R828D tuner, and the Blog V4 front end wrapped around it.
//!
//! The tuner's registers cannot be read back selectively (a read always starts at zero and
//! streams forward), so the driver keeps a shadow copy and does every masked update against
//! that. Losing the shadow means losing the ability to change one field without disturbing
//! its neighbours.

use core::marker::PhantomData;

use vstd::prelude::*;
use vstd::string::*;

use crate::conversation::{
    break_off, carried, continues, failure_of, group_carried, undisturbed, went_through, Exchange,
    Step,
};
use crate::regs;
use crate::regs::{
    in_broadcast_band, spec_band_for, spec_compute_pll, spec_distribute_gain, spec_i2c_write,
    spec_tuner_frequency, Band, PllError, PllSetting,
};
use crate::rtl2832::{
    broke_off, broken_brackets_close, broken_off_then_closed, burst_plan, first_failure,
    gpio_output_plan, gpio_write_plan, in_brackets, message_count, never_opened,
    opened_first_closed_last, opened_then_closed, per_message, read_in_brackets, repeater_plan,
    reply, tuner_read_step, tuner_step, undisturbed_brackets_close, Rtl2832, DEFAULT_IF_HZ,
    R828D_I2C_ADDR,
};
use crate::registers::{
    driving_leaves_directions, later_writes_stay, left_in_demod, left_in_sys,
    pins_are_driven_alone, pins_become_outputs_alone, repeater_holds,
};
use crate::text::{decimal, spec_decimal};
use crate::transport::{group_reached, Transport, TransportError};

verus! {

broadcast use group_reached;

/// Lowest writable register.
pub const FIRST_REG: u8 = 0x05;

/// Highest writable register.
pub const LAST_REG: u8 = 0x1F;

/// Power-on values for registers 0x05 through 0x1F.
pub const INIT_REGS: [u8; 27] = [
    0x83,
    0x30,
    0x75,
    0xC0,
    0x40,
    0xD6,
    0x6C,
    0xF5,
    0x63,
    0x75,
    0x68,
    0x6C,
    0x83,
    0x80,
    0x00,
    0x0F,
    0x00,
    0xC0,
    0x30,
    0x48,
    0xCC,
    0x60,
    0x00,
    0x54,
    0xAE,
    0x4A,
    0xC0,
];

/// The R828D reports its oscillator sitting at this level when correctly centred. The
/// R820T uses 2; the value also bounds the integer divider.
pub const VCO_POWER_REF: u8 = 1;

/// How the tuner's gain is decided.
#[derive(Debug, Clone, Copy, PartialEq, Eq, Structural)]
pub enum GainMode {
    /// The tuner runs its own loops.
    Automatic,
    /// Fixed gain, in tenths of a decibel.
    Manual(i32),
}

/// Whether a register can be written.
pub open spec fn writable(reg: u8) -> bool {
    FIRST_REG <= reg <= LAST_REG
}

/// An update of the bits of a register that `mask` covers.
#[derive(Debug, Clone, Copy, PartialEq, Eq, Structural)]
pub struct Edit {
    pub reg: u8,
    pub value: u8,
    pub mask: u8,
}

/// A register with the bits under `mask` taken from `value` and the others as they were.
pub open spec fn merged(current: u8, value: u8, mask: u8) -> u8 {
    (current & !mask) | (value & mask)
}

/// An update, for specifications.
pub open spec fn edit(reg: u8, value: u8, mask: u8) -> Edit {
    Edit { reg, value, mask }
}

/// What a shadow holds for a register.
pub open spec fn held(shadow: Seq<u8>, reg: u8) -> u8 {
    shadow[reg - FIRST_REG]
}

/// The shadow after one update.
pub open spec fn edited(shadow: Seq<u8>, e: Edit) -> Seq<u8> {
    shadow.update(e.reg - FIRST_REG, merged(held(shadow, e.reg), e.value, e.mask))
}

/// The shadow after a run of updates.
pub open spec fn edited_all(shadow: Seq<u8>, edits: Seq<Edit>) -> Seq<u8>
    decreases edits.len(),
{
    if edits.len() == 0 {
        shadow
    } else {
        edited(edited_all(shadow, edits.drop_last()), edits.last())
    }
}

/// The transfers for a run of updates: each writes its whole register.
pub open spec fn edit_plan(i2c_addr: u8, shadow: Seq<u8>, edits: Seq<Edit>) -> Seq<Step>
    decreases edits.len(),
{
    if edits.len() == 0 {
        seq![]
    } else {
        edit_plan(i2c_addr, shadow, edits.drop_last()).push(
            tuner_step(
                i2c_addr,
                edits.last().reg,
                held(edited_all(shadow, edits), edits.last().reg),
            ),
        )
    }
}

/// Every update of a run is to a writable register.
pub open spec fn all_writable(edits: Seq<Edit>) -> bool {
    forall|i: int| 0 <= i < edits.len() ==> writable((#[trigger] edits[i]).reg)
}

/// The register and value that a step writes to the tuner, where it writes one.
pub open spec fn tuner_write_in(i2c_addr: u8, step: Step) -> Option<(u8, u8)> {
    match step {
        Step::Out { value, index, data } => if (value, index) == spec_i2c_write(i2c_addr)
            && data.len() == 2 && writable(data[0]) {
            Some((data[0], data[1]))
        } else {
            None
        },
        _ => None,
    }
}

/// A shadow that has followed every register write attempted since position `from` of a
/// history.
pub open spec fn shadowed(
    shadow: Seq<u8>,
    i2c_addr: u8,
    history: Seq<Exchange>,
    from: int,
) -> Seq<u8>
    decreases history.len(),
{
    if history.len() <= from || history.len() == 0 {
        shadow
    } else {
        let earlier = shadowed(shadow, i2c_addr, history.drop_last(), from);
        match tuner_write_in(i2c_addr, history.last().step) {
            Some((reg, value)) => earlier.update(reg - FIRST_REG, value),
            None => earlier,
        }
    }
}

/// Following a history in two stretches is following it whole.
pub proof fn shadowed_in_turn(
    shadow: Seq<u8>,
    i2c_addr: u8,
    before: Seq<Exchange>,
    middle: Seq<Exchange>,
    after: Seq<Exchange>,
)
    requires
        continues(before, middle),
        continues(middle, after),
    ensures
        shadowed(shadow, i2c_addr, after, before.len() as int) == shadowed(
            shadowed(shadow, i2c_addr, middle, before.len() as int),
            i2c_addr,
            after,
            middle.len() as int,
        ),
    decreases after.len(),
{
    if after.len() == middle.len() {
        assert(after =~= middle);
    } else {
        shadowed_in_turn(shadow, i2c_addr, before, middle, after.drop_last());
    }
}

/// Transfers that write no tuner register leave the shadow as it was.
pub proof fn shadow_ignores_other_transfers(
    shadow: Seq<u8>,
    i2c_addr: u8,
    before: Seq<Exchange>,
    after: Seq<Exchange>,
)
    requires
        before.len() <= after.len(),
        forall|i: int|
            before.len() <= i < after.len() ==> tuner_write_in(i2c_addr, (#[trigger] after[i]).step)
                is None,
    ensures
        shadowed(shadow, i2c_addr, after, before.len() as int) == shadow,
    decreases after.len(),
{
    if after.len() > before.len() {
        let shorter = after.drop_last();
        assert forall|i: int| before.len() <= i < shorter.len() implies tuner_write_in(
            i2c_addr,
            (#[trigger] shorter[i]).step,
        ) is None by {
            assert(shorter[i] == after[i]);
        }
        shadow_ignores_other_transfers(shadow, i2c_addr, before, shorter);
        assert(after.last() == after[after.len() - 1]);
    }
}

/// The updates that route the antenna connector to the tuner input for a band.
pub open spec fn mux_edits(band: Band) -> Seq<Edit> {
    seq![
        edit(
            0x06,
            if band is Hf {
                0x08
            } else {
                0x00
            },
            0x08,
        ),
        edit(
            0x05,
            if band is Vhf {
                0x40
            } else {
                0x00
            },
            0x40,
        ),
        edit(
            0x05,
            if band is Uhf {
                0x00
            } else {
                0x20
            },
            0x20,
        ),
    ]
}

/// The update that engages or bypasses the broadcast notch filters.
pub open spec fn notch_edits(freq_hz: u32) -> Seq<Edit> {
    seq![
        edit(
            0x17,
            if in_broadcast_band(freq_hz) {
                0x00
            } else {
                0x08
            },
            0x08,
        ),
    ]
}

/// The updates that bypass the tracking filter in the HF band.
pub open spec fn bypass_edits(band: Band) -> Seq<Edit> {
    if band is Hf {
        seq![edit(0x1A, 0x40, 0xC3), edit(0x1B, 0x00, 0xFF)]
    } else {
        seq![]
    }
}

/// The updates that prepare the synthesiser: the reference straight through, and autotune at
/// its finest step.
pub open spec fn prepare_edits() -> Seq<Edit> {
    seq![edit(0x10, 0x00, 0x10), edit(0x1A, 0x00, 0x0C), edit(0x12, 0x80, 0xE0)]
}

/// The updates that program the synthesiser.
pub open spec fn divider_edits(pll: PllSetting) -> Seq<Edit> {
    seq![
        edit(0x10, pll.div_num << 5, 0xE0),
        edit(0x14, pll.reg_14, 0xFF),
        edit(
            0x12,
            if pll.power_down_sdm {
                0x08
            } else {
                0x00
            },
            0x08,
        ),
        edit(0x16, pll.reg_16, 0xFF),
        edit(0x15, pll.reg_15, 0xFF),
    ]
}

/// The updates for a gain mode.
pub open spec fn gain_edits(mode: GainMode) -> Seq<Edit> {
    match mode {
        GainMode::Automatic => seq![
            edit(0x05, 0x00, 0x10),
            edit(0x07, 0x10, 0x10),
            edit(0x0C, 0x0B, 0x9F),
        ],
        GainMode::Manual(tenths) => {
            let setting = spec_distribute_gain(tenths as int);
            seq![
                edit(0x05, 0x10, 0x10),
                edit(0x07, 0x00, 0x10),
                edit(0x0C, 0x08, 0x9F),
                edit(0x05, setting.lna_index, 0x0F),
                edit(0x07, setting.mixer_index, 0x0F),
            ]
        },
    }
}

/// The transfers that switch the input for a band, started at position `at` of the history
/// `after` that answers its reads.
///
/// Between the register updates and whatever follows, the pin that powers the upconverter is
/// driven: low for HF, high otherwise. The tuner bus is closed meanwhile.
pub open spec fn mux_plan(
    verify: bool,
    i2c_addr: u8,
    shadow: Seq<u8>,
    band: Band,
    after: Seq<Exchange>,
    at: int,
) -> Seq<Step> {
    let pin = at + 3 + repeater_plan(verify, false).len();
    edit_plan(i2c_addr, shadow, mux_edits(band)) + (repeater_plan(verify, false) + (
    gpio_output_plan(5, reply(after, pin), reply(after, pin + 2)) + (gpio_write_plan(
        5,
        band !is Hf,
        reply(after, pin + 4),
    ) + repeater_plan(verify, true))))
}

/// The transfers that switch the input, where it has to be switched at all.
pub open spec fn switch_plan(
    verify: bool,
    i2c_addr: u8,
    shadow: Seq<u8>,
    current: Option<Band>,
    band: Band,
    after: Seq<Exchange>,
    at: int,
) -> Seq<Step> {
    if current == Some(band) {
        seq![]
    } else {
        mux_plan(verify, i2c_addr, shadow, band, after, at)
    }
}

/// The updates that switch the input, where it has to be switched at all.
pub open spec fn switch_edits(current: Option<Band>, band: Band) -> Seq<Edit> {
    if current == Some(band) {
        seq![]
    } else {
        mux_edits(band)
    }
}

/// What tuning sends behind the open bus before it turns to the synthesiser: the input is
/// switched where the band changes, the notch set, and the tracking filter bypassed in the HF
/// band.
pub open spec fn approach_plan(
    verify: bool,
    i2c_addr: u8,
    shadow: Seq<u8>,
    current: Option<Band>,
    freq_hz: u32,
    after: Seq<Exchange>,
    at: int,
) -> Seq<Step> {
    let band = spec_band_for(freq_hz);
    let routed = edited_all(shadow, switch_edits(current, band));
    let notched = edited_all(routed, notch_edits(freq_hz));
    switch_plan(verify, i2c_addr, shadow, current, band, after, at) + (edit_plan(
        i2c_addr,
        routed,
        notch_edits(freq_hz),
    ) + edit_plan(i2c_addr, notched, bypass_edits(band)))
}

/// The updates of the shadow that go with the approach.
pub open spec fn approach_edits(current: Option<Band>, freq_hz: u32) -> Seq<Edit> {
    let band = spec_band_for(freq_hz);
    switch_edits(current, band) + notch_edits(freq_hz) + bypass_edits(band)
}

/// The oscillator frequency for a wanted frequency: the tuner mixes from above, so the
/// intermediate frequency is added.
pub open spec fn oscillator_hz(freq_hz: u32, if_hz: u32) -> u32 {
    (spec_tuner_frequency(freq_hz) + if_hz) as u32
}

/// The transfers that prepare the synthesiser and ask for its status.
pub open spec fn prepare_plan(i2c_addr: u8, shadow: Seq<u8>) -> Seq<Step> {
    edit_plan(i2c_addr, shadow, prepare_edits()) + seq![tuner_read_step(i2c_addr, 5)]
}

/// How the oscillator reports itself in the status registers.
pub open spec fn fine_tune(status: Seq<u8>) -> u8 {
    (status[4] & 0x30) >> 4
}

/// The name of a synthesiser fault.
pub open spec fn pll_fault_name(fault: PllError) -> Seq<char> {
    match fault {
        PllError::OutOfRange => "OutOfRange"@,
        PllError::DividerTooLarge => "DividerTooLarge"@,
    }
}

/// The message for a frequency that cannot be reached.
pub open spec fn unreachable_message(lo_hz: u32, fault: PllError) -> Seq<char> {
    "cannot tune to "@ + spec_decimal(lo_hz as nat) + " Hz: "@ + pll_fault_name(fault)
}

/// What the synthesiser is set to for the status that position `at` of a history read.
pub open spec fn setting_at(
    lo_hz: u32,
    xtal: u32,
    after: Seq<Exchange>,
    at: int,
) -> Result<PllSetting, PllError> {
    spec_compute_pll(lo_hz, xtal, fine_tune(after[at].bytes()), VCO_POWER_REF)
}

/// The transfers that set the synthesiser, started at position `at` of the history `after`
/// that answers its read: it is prepared and its status read, and where it can then reach
/// `lo_hz` its dividers are written.
pub open spec fn synthesis_plan(
    i2c_addr: u8,
    shadow: Seq<u8>,
    lo_hz: u32,
    xtal: u32,
    after: Seq<Exchange>,
    at: int,
) -> Seq<Step> {
    let prepared = edited_all(shadow, prepare_edits());
    let dividers = match setting_at(lo_hz, xtal, after, at + 3) {
        Ok(pll) => edit_plan(i2c_addr, prepared, divider_edits(pll)),
        Err(_) => seq![],
    };
    prepare_plan(i2c_addr, shadow) + dividers
}

/// A frequency is refused for a fault of the synthesiser.
pub open spec fn refused(r: Result<(), TransportError>, lo_hz: u32, fault: PllError) -> bool {
    r matches Err(TransportError::Io(text)) && text@ == unreachable_message(lo_hz, fault)
}

/// How setting the synthesiser ends: with the failure that broke it off; or else as the
/// status allows.
pub open spec fn set_as(
    before: Seq<Exchange>,
    after: Seq<Exchange>,
    setting: Result<PllSetting, PllError>,
    lo_hz: u32,
    r: Result<(), TransportError>,
) -> bool {
    match break_off(before, after) {
        Some(e) => r == Err::<(), TransportError>(e),
        None => match setting {
            Ok(_) => r is Ok,
            Err(fault) => refused(r, lo_hz, fault),
        },
    }
}

/// A run of updates can be split anywhere.
pub proof fn edits_split(i2c_addr: u8, shadow: Seq<u8>, first: Seq<Edit>, second: Seq<Edit>)
    ensures
        edited_all(shadow, first + second) == edited_all(edited_all(shadow, first), second),
        edit_plan(i2c_addr, shadow, first + second) == edit_plan(i2c_addr, shadow, first)
            + edit_plan(i2c_addr, edited_all(shadow, first), second),
    decreases second.len(),
{
    let whole = first + second;
    if second.len() == 0 {
        assert(whole =~= first);
        assert(edit_plan(i2c_addr, shadow, first) + seq![] =~= edit_plan(i2c_addr, shadow, first));
    } else {
        edits_split(i2c_addr, shadow, first, second.drop_last());
        assert(whole.drop_last() =~= first + second.drop_last());
        assert(whole.last() == second.last());
        assert(edit_plan(i2c_addr, shadow, whole) =~= edit_plan(i2c_addr, shadow, first)
            + edit_plan(i2c_addr, edited_all(shadow, first), second));
    }
}

/// Each update of a run is one transfer, and the shadow keeps its length.
pub proof fn edits_take_one_transfer_each(i2c_addr: u8, shadow: Seq<u8>, edits: Seq<Edit>)
    requires
        all_writable(edits),
        shadow.len() == 27,
    ensures
        edit_plan(i2c_addr, shadow, edits).len() == edits.len(),
        edited_all(shadow, edits).len() == shadow.len(),
    decreases edits.len(),
{
    if edits.len() > 0 {
        assert(all_writable(edits.drop_last())) by {
            assert forall|i: int| 0 <= i < edits.len() - 1 implies writable(
                (#[trigger] edits.drop_last()[i]).reg,
            ) by {
                assert(edits.drop_last()[i] == edits[i]);
            }
        }
        assert(writable(edits[edits.len() - 1].reg));
        edits_take_one_transfer_each(i2c_addr, shadow, edits.drop_last());
    }
}

/// No step of a plan writes a tuner register.
pub open spec fn leaves_tuner_alone(i2c_addr: u8, plan: Seq<Step>) -> bool {
    forall|i: int| 0 <= i < plan.len() ==> tuner_write_in(i2c_addr, #[trigger] plan[i]) is None
}

proof fn repeater_leaves_tuner_alone(i2c_addr: u8, verify: bool, enabled: bool)
    ensures
        leaves_tuner_alone(i2c_addr, repeater_plan(verify, enabled)),
{
    assert(0x10u16 | 1u16 == 0x11u16) by (bit_vector);
}

proof fn pins_leave_tuner_alone(
    i2c_addr: u8,
    gpio: u8,
    high: bool,
    direction: u16,
    enable: u16,
    current: u16,
)
    ensures
        leaves_tuner_alone(i2c_addr, gpio_output_plan(gpio, direction, enable)),
        leaves_tuner_alone(i2c_addr, gpio_write_plan(gpio, high, current)),
{
}

proof fn quiet_plan_keeps_shadow(
    shadow: Seq<u8>,
    i2c_addr: u8,
    before: Seq<Exchange>,
    after: Seq<Exchange>,
    plan: Seq<Step>,
    failure: Option<TransportError>,
)
    requires
        carried(before, after, plan, failure),
        leaves_tuner_alone(i2c_addr, plan),
    ensures
        shadowed(shadow, i2c_addr, after, before.len() as int) == shadow,
{
    assert forall|i: int| before.len() <= i < after.len() implies tuner_write_in(
        i2c_addr,
        (#[trigger] after[i]).step,
    ) is None by {
        assert(after[i].step == plan[i - before.len()]);
    }
    shadow_ignores_other_transfers(shadow, i2c_addr, before, after);
}

/// A stretch breaks off with the failure that it reports.
proof fn broken_prefix(
    before: Seq<Exchange>,
    after: Seq<Exchange>,
    plan: Seq<Step>,
    failure: Option<TransportError>,
)
    requires
        carried(before, after, plan, failure),
    ensures
        break_off(before, after) == failure,
{
    if after.len() > before.len() {
        assert(after.last() == after[after.len() - 1]);
    }
}

/// The synthesiser calculation is defined for both crystals that tuners are clocked from.
proof fn pll_is_defined_for_known_crystals(freq_hz: u32, xtal: u32)
    requires
        xtal == regs::RTL_XTAL || xtal == 16_000_000,
    ensures
        regs::pll_defined(freq_hz, xtal, VCO_POWER_REF),
{
    assert forall|step: int| #[trigger] regs::usable_divider(freq_hz, step) implies xtal > 0
        && regs::oscillator_ratio(freq_hz, xtal, step) / 65536 >= 13 by {
        let m = regs::mixer_divider(step);
        let khz = regs::to_khz(freq_hz);
        assert(freq_hz * m >= 1000 * (khz * m) - 500 * m) by (nonlinear_arith)
            requires
                freq_hz >= 1000 * khz - 500,
                m >= 0,
        ;
        assert(m <= 64);
        let vco = freq_hz * m;
        assert(vco >= 1_769_968_000);
        if xtal == 16_000_000 {
            assert((16_000_000 + 65536 * vco) / 32_000_000 >= 65536 * 13);
        } else {
            assert((28_800_000 + 65536 * vco) / 57_600_000 >= 65536 * 13);
        }
    }
}

/// The band that the switching is at after a history: the new one, once all of the switching,
/// which starts at position `at`, has gone through.
pub open spec fn band_after(
    verify: bool,
    i2c_addr: u8,
    shadow: Seq<u8>,
    current: Option<Band>,
    freq_hz: u32,
    after: Seq<Exchange>,
    at: int,
) -> Option<Band> {
    let band = spec_band_for(freq_hz);
    let switching = switch_plan(verify, i2c_addr, shadow, current, band, after, at);
    if went_through(after, at, at + switching.len()) {
        Some(band)
    } else {
        current
    }
}

/// Everything that tuning sends behind the open bus, started at position `at` of the history
/// `after` that answers its reads: the approach, then the synthesiser.
pub open spec fn tune_plan(
    verify: bool,
    i2c_addr: u8,
    xtal: u32,
    lo_hz: u32,
    freq_hz: u32,
    current: Option<Band>,
    shadow: Seq<u8>,
    after: Seq<Exchange>,
    at: int,
) -> Seq<Step> {
    let way = approach_plan(verify, i2c_addr, shadow, current, freq_hz, after, at);
    let approached = edited_all(shadow, approach_edits(current, freq_hz));
    way + synthesis_plan(i2c_addr, approached, lo_hz, xtal, after, at + way.len())
}

/// What the synthesiser is set to by tuning, started behind the open bus at position `at` of a
/// history.
pub open spec fn tune_setting(
    verify: bool,
    i2c_addr: u8,
    xtal: u32,
    lo_hz: u32,
    freq_hz: u32,
    current: Option<Band>,
    shadow: Seq<u8>,
    after: Seq<Exchange>,
    at: int,
) -> Result<PllSetting, PllError> {
    let way = approach_plan(verify, i2c_addr, shadow, current, freq_hz, after, at);
    setting_at(lo_hz, xtal, after, at + way.len() + 3)
}

/// What tuning sends and what it leaves in the shadow.
///
/// The tuner bus is opened, and closed again whatever came of the transfers between. Where
/// none failed, the frequency is refused if the synthesiser cannot reach it. A failure to
/// open ends tuning there.
pub open spec fn tuned(
    verify: bool,
    i2c_addr: u8,
    xtal: u32,
    lo_hz: u32,
    freq_hz: u32,
    current: Option<Band>,
    shadow: Seq<u8>,
    shadow_after: Seq<u8>,
    before: Seq<Exchange>,
    after: Seq<Exchange>,
    r: Result<(), TransportError>,
) -> bool {
    let opening = repeater_plan(verify, true);
    let closing = repeater_plan(verify, false);
    let at = before.len() + opening.len() as int;
    if undisturbed(before, after) {
        &&& carried(
            before,
            after,
            opening + (tune_plan(
                verify,
                i2c_addr,
                xtal,
                lo_hz,
                freq_hz,
                current,
                shadow,
                after,
                at,
            ) + closing),
            None,
        )
        &&& match tune_setting(
            verify,
            i2c_addr,
            xtal,
            lo_hz,
            freq_hz,
            current,
            shadow,
            after,
            at,
        ) {
            Ok(pll) => r is Ok && shadow_after == edited_all(
                edited_all(shadow, approach_edits(current, freq_hz)),
                prepare_edits() + divider_edits(pll),
            ),
            Err(fault) => refused(r, lo_hz, fault),
        }
    } else {
        r is Err && (carried(before, after, opening, failure_of(r)) || exists|
            k: int,
            e: TransportError,
        | #[trigger]
            broke_off(
                before,
                after,
                verify,
                opening + tune_plan(
                    verify,
                    i2c_addr,
                    xtal,
                    lo_hz,
                    freq_hz,
                    current,
                    shadow,
                    after.take(k),
                    at,
                ),
                k,
                e,
            ) && reported(
                before,
                after.take(k),
                tune_setting(
                    verify,
                    i2c_addr,
                    xtal,
                    lo_hz,
                    freq_hz,
                    current,
                    shadow,
                    after.take(k),
                    at,
                ),
                lo_hz,
                e,
                r,
            ))
    }
}

/// What tuning reports when a transfer has failed, `done` being what was made before the bus
/// was closed: the first failure, unless the frequency had been refused by then.
pub open spec fn reported(
    before: Seq<Exchange>,
    done: Seq<Exchange>,
    setting: Result<PllSetting, PllError>,
    lo_hz: u32,
    e: TransportError,
    r: Result<(), TransportError>,
) -> bool {
    if break_off(before, done) is None && setting is Err {
        refused(r, lo_hz, setting->Err_0)
    } else {
        r == Err::<(), TransportError>(e)
    }
}

proof fn prepare_is_four_transfers(i2c_addr: u8, shadow: Seq<u8>)
    ensures
        prepare_plan(i2c_addr, shadow).len() == 4,
{
    let edits = prepare_edits();
    reveal_with_fuel(edit_plan, 4);
}

/// A history that goes on answers the reads of the switching as before.
proof fn same_replies_same_switch(
    verify: bool,
    i2c_addr: u8,
    shadow: Seq<u8>,
    current: Option<Band>,
    band: Band,
    middle: Seq<Exchange>,
    after: Seq<Exchange>,
    at: int,
)
    requires
        continues(middle, after),
        0 <= at,
        middle.len() == at + switch_plan(
            verify,
            i2c_addr,
            shadow,
            current,
            band,
            middle,
            at,
        ).len(),
    ensures
        switch_plan(verify, i2c_addr, shadow, current, band, middle, at) == switch_plan(
            verify,
            i2c_addr,
            shadow,
            current,
            band,
            after,
            at,
        ),
{
    reveal_with_fuel(edit_plan, 4);
    if current != Some(band) {
        let pin = at + 3 + repeater_plan(verify, false).len();
        assert(edit_plan(i2c_addr, shadow, mux_edits(band)).len() == 3);
        assert(after[pin] == middle[pin]);
        assert(after[pin + 2] == middle[pin + 2]);
        assert(after[pin + 4] == middle[pin + 4]);
    }
}

/// How many transfers the approach takes does not depend on what they read.
proof fn approach_has_a_length(
    verify: bool,
    i2c_addr: u8,
    shadow: Seq<u8>,
    current: Option<Band>,
    freq_hz: u32,
    one: Seq<Exchange>,
    other: Seq<Exchange>,
    at: int,
)
    ensures
        switch_plan(
            verify,
            i2c_addr,
            shadow,
            current,
            spec_band_for(freq_hz),
            one,
            at,
        ).len() == switch_plan(
            verify,
            i2c_addr,
            shadow,
            current,
            spec_band_for(freq_hz),
            other,
            at,
        ).len(),
        approach_plan(verify, i2c_addr, shadow, current, freq_hz, one, at).len() == approach_plan(
            verify,
            i2c_addr,
            shadow,
            current,
            freq_hz,
            other,
            at,
        ).len(),
{
}

/// A history that goes on answers the reads of the approach as before.
proof fn same_replies_same_approach(
    verify: bool,
    i2c_addr: u8,
    shadow: Seq<u8>,
    current: Option<Band>,
    freq_hz: u32,
    middle: Seq<Exchange>,
    after: Seq<Exchange>,
    at: int,
)
    requires
        continues(middle, after),
        0 <= at,
        middle.len() >= at + approach_plan(
            verify,
            i2c_addr,
            shadow,
            current,
            freq_hz,
            middle,
            at,
        ).len(),
    ensures
        approach_plan(verify, i2c_addr, shadow, current, freq_hz, middle, at) == approach_plan(
            verify,
            i2c_addr,
            shadow,
            current,
            freq_hz,
            after,
            at,
        ),
{
    let band = spec_band_for(freq_hz);
    reveal_with_fuel(edit_plan, 4);
    if current != Some(band) {
        let pin = at + 3 + repeater_plan(verify, false).len();
        assert(edit_plan(i2c_addr, shadow, mux_edits(band)).len() == 3);
        assert(after[pin] == middle[pin]);
        assert(after[pin + 2] == middle[pin + 2]);
        assert(after[pin + 4] == middle[pin + 4]);
    }
}

/// Tuning behind the open bus, then closing it.
#[verifier::spinoff_prover]
#[verifier::rlimit(60)]
proof fn tuned_then_closed(
    verify: bool,
    i2c_addr: u8,
    xtal: u32,
    lo_hz: u32,
    freq_hz: u32,
    current: Option<Band>,
    shadow: Seq<u8>,
    set: Seq<u8>,
    before: Seq<Exchange>,
    opened: Seq<Exchange>,
    done: Seq<Exchange>,
    after: Seq<Exchange>,
    tuning: Result<(), TransportError>,
    closing: Result<(), TransportError>,
)
    requires
        carried(before, opened, repeater_plan(verify, true), None),
        ({
            let at = opened.len() as int;
            let setting = tune_setting(
                verify,
                i2c_addr,
                xtal,
                lo_hz,
                freq_hz,
                current,
                shadow,
                done,
                at,
            );
            &&& carried(
                opened,
                done,
                tune_plan(verify, i2c_addr, xtal, lo_hz, freq_hz, current, shadow, done, at),
                break_off(opened, done),
            )
            &&& set_as(opened, done, setting, lo_hz, tuning)
            &&& tuning is Ok ==> set == edited_all(
                edited_all(shadow, approach_edits(current, freq_hz)),
                prepare_edits() + divider_edits(setting->Ok_0),
            )
        }),
        carried(done, after, repeater_plan(verify, false), failure_of(closing)),
    ensures
        tuned(
            verify,
            i2c_addr,
            xtal,
            lo_hz,
            freq_hz,
            current,
            shadow,
            set,
            before,
            after,
            if tuning is Err {
                tuning
            } else {
                closing
            },
        ),
        band_after(
            verify,
            i2c_addr,
            shadow,
            current,
            freq_hz,
            done,
            opened.len() as int,
        ) == band_after(
            verify,
            i2c_addr,
            shadow,
            current,
            freq_hz,
            after,
            opened.len() as int,
        ),
{
    broadcast use group_carried;

    let at = opened.len() as int;
    let opening = repeater_plan(verify, true);
    let shut = repeater_plan(verify, false);
    let plan = tune_plan(verify, i2c_addr, xtal, lo_hz, freq_hz, current, shadow, done, at);
    let worked = break_off(opened, done);
    let band = spec_band_for(freq_hz);
    approach_has_a_length(verify, i2c_addr, shadow, current, freq_hz, done, after, at);
    let way = approach_plan(verify, i2c_addr, shadow, current, freq_hz, done, at);
    let switching = switch_plan(verify, i2c_addr, shadow, current, band, done, at);
    prepare_is_four_transfers(i2c_addr, edited_all(shadow, approach_edits(current, freq_hz)));
    if went_through(done, at, at + switching.len()) {
        assert forall|i: int| at <= i < at + switching.len() implies (
        #[trigger] after[i]).outcome !is Failed by {
            assert(after[i] == done[i]);
        }
    } else {
        assert(worked is Some);
        assert(after[done.len() - 1] == done[done.len() - 1]);
    }
    if first_failure(worked, failure_of(closing)) is Some {
        broken_off_then_closed(
            before,
            opened,
            done,
            after,
            verify,
            plan,
            worked,
            failure_of(closing),
        );
        assert(after.take(done.len() as int) =~= done);
        let e = first_failure(worked, failure_of(closing))->0;
        assert(broke_off(
            before,
            after,
            verify,
            opening + tune_plan(
                verify,
                i2c_addr,
                xtal,
                lo_hz,
                freq_hz,
                current,
                shadow,
                after.take(done.len() as int),
                before.len() + opening.len() as int,
            ),
            done.len() as int,
            e,
        ));
        assert(done.len() > opened.len());
        assert(break_off(before, done) == worked);
    } else {
        same_replies_same_approach(verify, i2c_addr, shadow, current, freq_hz, done, after, at);
        assert(after[at + way.len() + 3] == done[at + way.len() + 3]);
        assert(carried(opened, after, plan + shut, None));
        assert(carried(before, after, opening + (plan + shut), None));
    }
}

/// The message for a frequency that cannot be reached.
fn unreachable_text(lo_hz: u32, fault: PllError) -> (text: String)
    ensures
        text@ == unreachable_message(lo_hz, fault),
{
    let name = match fault {
        PllError::OutOfRange => "OutOfRange",
        PllError::DividerTooLarge => "DividerTooLarge",
    };
    let number = decimal(lo_hz as u64);
    "cannot tune to ".to_owned().concat(number.as_str()).concat(" Hz: ").concat(name)
}

/// Driver for the R828D and the switching around it.
#[derive(Debug)]
pub struct R82xx<T> {
    i2c_addr: u8,
    /// Shadow of registers 0x05 to 0x1F, since the part cannot be read selectively.
    shadow: [u8; 27],
    /// The Blog V4 clocks the tuner from the 28.8 MHz reference. A conventional R828D
    /// board uses a separate 16 MHz crystal, and assuming that here is the single most
    /// common way to end up tuned to entirely the wrong frequency.
    xtal: u32,
    /// Band currently selected, so the switching is only rewritten when it changes.
    band: Option<Band>,
    tuned_hz: u32,
    if_hz: u32,
    _marker: PhantomData<T>,
}

impl<T: Transport> R82xx<T> {
    /// Where the tuner sits on the bus.
    pub closed spec fn address(&self) -> u8 {
        self.i2c_addr
    }

    /// The shadow of the writable registers, lowest first.
    pub closed spec fn registers(&self) -> Seq<u8> {
        self.shadow@
    }

    /// The crystal that the tuner is clocked from.
    pub closed spec fn crystal(&self) -> u32 {
        self.xtal
    }

    /// The band that the switching was last set to.
    pub closed spec fn selected_band(&self) -> Option<Band> {
        self.band
    }

    /// The frequency that was last tuned to.
    pub closed spec fn last_tuned(&self) -> u32 {
        self.tuned_hz
    }

    /// The intermediate frequency.
    pub closed spec fn intermediate(&self) -> u32 {
        self.if_hz
    }

    /// The crystal is one that R828D boards have, and every writable register is shadowed.
    pub open spec fn wf(&self) -> bool {
        &&& self.crystal() == regs::RTL_XTAL || self.crystal() == 16_000_000
        &&& self.registers().len() == 27
    }

    /// The fixed part of the driver is as it was.
    pub open spec fn same_board(&self, other: &Self) -> bool {
        &&& self.address() == other.address()
        &&& self.crystal() == other.crystal()
        &&& self.intermediate() == other.intermediate()
    }

    /// Everything but the shadow is as it was.
    pub open spec fn same_but_shadow(&self, other: &Self) -> bool {
        &&& self.same_board(other)
        &&& self.selected_band() == other.selected_band()
        &&& self.last_tuned() == other.last_tuned()
    }

    /// Builds a driver for the Blog V4's tuner.
    pub fn new_v4() -> (tuner: Self)
        ensures
            tuner.wf(),
            tuner.address() == R828D_I2C_ADDR,
            tuner.registers() == INIT_REGS@,
            tuner.crystal() == regs::RTL_XTAL,
            tuner.selected_band() is None,
            tuner.last_tuned() == 0,
            tuner.intermediate() == DEFAULT_IF_HZ,
    {
        Self {
            i2c_addr: R828D_I2C_ADDR,
            shadow: INIT_REGS,
            xtal: regs::RTL_XTAL,
            band: None,
            tuned_hz: 0,
            if_hz: DEFAULT_IF_HZ,
            _marker: PhantomData,
        }
    }

    /// A second driver in the same state, to try a call with and still have the first.
    pub fn duplicate(&self) -> (other: Self)
        ensures
            other.same_but_shadow(self),
            other.registers() == self.registers(),
    {
        Self {
            i2c_addr: self.i2c_addr,
            shadow: self.shadow,
            xtal: self.xtal,
            band: self.band,
            tuned_hz: self.tuned_hz,
            if_hz: self.if_hz,
            _marker: PhantomData,
        }
    }

    /// Builds a driver for a conventional R828D board, which clocks its tuner separately.
    pub fn new_legacy_r828d() -> (tuner: Self)
        ensures
            tuner.wf(),
            tuner.address() == R828D_I2C_ADDR,
            tuner.registers() == INIT_REGS@,
            tuner.crystal() == 16_000_000,
            tuner.selected_band() is None,
            tuner.last_tuned() == 0,
            tuner.intermediate() == DEFAULT_IF_HZ,
    {
        let mut tuner = Self::new_v4();
        tuner.xtal = 16_000_000;
        tuner
    }

    pub fn xtal(&self) -> (xtal: u32)
        ensures
            xtal == self.crystal(),
    {
        self.xtal
    }

    pub fn tuned_frequency(&self) -> (freq_hz: u32)
        ensures
            freq_hz == self.last_tuned(),
    {
        self.tuned_hz
    }

    pub fn band(&self) -> (band: Option<Band>)
        ensures
            band == self.selected_band(),
    {
        self.band
    }

    /// Current shadow value of a register.
    pub fn shadow(&self, reg: u8) -> (value: u8)
        requires
            writable(reg),
        ensures
            value == held(self.registers(), reg),
    {
        self.shadow[(reg - FIRST_REG) as usize]
    }

    /// Writes a whole register.
    pub fn write(&mut self, rtl: &mut Rtl2832<T>, reg: u8, value: u8) -> (r: Result<
        (),
        TransportError,
    >)
        requires
            writable(reg),
        ensures
            carried(
                old(rtl).history(),
                final(rtl).history(),
                seq![tuner_step(old(self).address(), reg, value)],
                failure_of(r),
            ),
            final(rtl).history().len() == old(rtl).history().len() + 1,
            final(rtl).carries_on(old(rtl)),
            old(rtl).steady() ==> r is Ok,
            final(self).registers() == old(self).registers().update(reg - FIRST_REG, value),
            final(self).same_but_shadow(old(self)),
    {
        self.shadow[(reg - FIRST_REG) as usize] = value;
        rtl.tuner_write(self.i2c_addr, reg, value)
    }

    /// Updates only the bits covered by `mask`, leaving the rest as they were.
    pub fn write_mask(&mut self, rtl: &mut Rtl2832<T>, reg: u8, value: u8, mask: u8) -> (r: Result<
        (),
        TransportError,
    >)
        requires
            writable(reg),
        ensures
            ({
                let updated = edited(old(self).registers(), edit(reg, value, mask));
                &&& final(self).registers() == updated
                &&& carried(
                    old(rtl).history(),
                    final(rtl).history(),
                    seq![tuner_step(old(self).address(), reg, held(updated, reg))],
                    failure_of(r),
                )
            }),
            final(rtl).history().len() == old(rtl).history().len() + 1,
            final(rtl).carries_on(old(rtl)),
            old(rtl).steady() ==> r is Ok,
            final(self).same_but_shadow(old(self)),
    {
        let current: u8 = self.shadow(reg);
        let updated: u8 = (current & !mask) | (value & mask);
        self.write(rtl, reg, updated)
    }

    /// Makes a run of updates, stopping at the first transfer that fails.
    fn apply(&mut self, rtl: &mut Rtl2832<T>, edits: &Vec<Edit>) -> (r: Result<(), TransportError>)
        requires
            all_writable(edits@),
            old(self).wf(),
        ensures
            carried(
                old(rtl).history(),
                final(rtl).history(),
                edit_plan(old(self).address(), old(self).registers(), edits@),
                failure_of(r),
            ),
            final(rtl).carries_on(old(rtl)),
            r is Ok ==> final(self).registers() == edited_all(old(self).registers(), edits@),
            final(self).registers() == shadowed(
                old(self).registers(),
                old(self).address(),
                final(rtl).history(),
                old(rtl).history().len() as int,
            ),
            final(self).same_but_shadow(old(self)),
            final(self).wf(),
    {
        broadcast use group_carried;

        let ghost addr = self.address();
        let ghost start = self.registers();
        let ghost before = rtl.history();
        let mut i: usize = 0;
        while i < edits.len()
            invariant
                i <= edits@.len(),
                all_writable(edits@),
                old(self).wf(),
                addr == old(self).address(),
                start == old(self).registers(),
                before == old(rtl).history(),
                start.len() == 27,
                self.same_but_shadow(old(self)),
                rtl.carries_on(old(rtl)),
                carried(before, rtl.history(), edit_plan(addr, start, edits@.take(i as int)), None),
                self.registers() == edited_all(start, edits@.take(i as int)),
                self.registers() == shadowed(start, addr, rtl.history(), before.len() as int),
                self.registers().len() == 27,
            decreases edits@.len() - i,
        {
            let ghost done = edits@.take(i as int);
            let ghost next = edits@.take(i + 1);
            let ghost reached = rtl.history();
            proof {
                assert(next.drop_last() =~= done);
                assert(next.last() == edits@[i as int]);
                assert(writable(edits@[i as int].reg));
                edits_split(addr, start, next, edits@.skip(i + 1));
                assert(next + edits@.skip(i + 1) =~= edits@);
            }
            let r = self.write_mask(rtl, edits[i].reg, edits[i].value, edits[i].mask);
            assert(self.shadow@.len() == 27);
            proof {
                let step = tuner_step(addr, next.last().reg, held(self.registers(), next.last().reg));
                assert(edit_plan(addr, start, next) =~= edit_plan(addr, start, done) + seq![step]);
                assert(rtl.history().drop_last() =~= reached);
                assert(rtl.history().last() == rtl.history()[reached.len() as int]);
                assert(rtl.history().last().step == step);
                assert(self.registers() =~= shadowed(
                    start,
                    addr,
                    rtl.history(),
                    before.len() as int,
                ));
            }
            r?;
            i += 1;
        }
        assert(edits@.take(i as int) =~= edits@);
        Ok(())
    }

    /// Loads the power-on register set.
    pub fn init(&mut self, rtl: &mut Rtl2832<T>) -> (r: Result<(), TransportError>)
        requires
            old(self).wf(),
        ensures
            in_brackets(
                old(rtl).history(),
                final(rtl).history(),
                old(rtl).verifies(),
                burst_plan(old(self).address(), FIRST_REG, INIT_REGS@),
                failure_of(r),
            ),
            final(rtl).carries_on(old(rtl)),
            old(rtl).steady() ==> r is Ok,
            final(self).wf(),
            final(self).same_board(old(self)),
            final(self).last_tuned() == old(self).last_tuned(),
            final(self).registers() == INIT_REGS@,
            final(self).selected_band() == if r is Ok {
                None
            } else {
                old(self).selected_band()
            },
    {
        let ghost verify = rtl.verifies();
        let ghost plan = burst_plan(self.address(), FIRST_REG, INIT_REGS@);
        let ghost h0 = rtl.history();
        self.shadow = INIT_REGS;
        let opening = rtl.set_i2c_repeater(true);
        let ghost h1 = rtl.history();
        proof {
            if opening is Err {
                never_opened(h0, h1, verify, plan, opening->Err_0);
            }
        }
        opening?;
        proof {
            assert forall|c: int| 0 <= c < message_count(27) implies FIRST_REG + #[trigger] (c
                * per_message()) % 0x100 <= 0xFF by {
                assert(c == 0 || c == 1 || c == 2 || c == 3);
            }
        }
        let loading = rtl.tuner_write_burst(self.i2c_addr, FIRST_REG, INIT_REGS.as_slice());
        let ghost h2 = rtl.history();
        let closing = rtl.set_i2c_repeater(false);
        proof {
            opened_then_closed(
                h0,
                h1,
                h2,
                rtl.history(),
                verify,
                plan,
                failure_of(loading),
                failure_of(closing),
            );
        }
        loading?;
        closing?;
        self.band = None;
        Ok(())
    }

    /// Routes the antenna connector to the right tuner input.
    ///
    /// The V4 triplexes one connector into all three of the tuner's inputs, and on later
    /// boards also powers the upconverter down when it is not in use.
    fn set_mux(&mut self, rtl: &mut Rtl2832<T>, band: Band) -> (r: Result<(), TransportError>)
        requires
            old(self).wf(),
        ensures
            carried(
                old(rtl).history(),
                final(rtl).history(),
                mux_plan(
                    old(rtl).verifies(),
                    old(self).address(),
                    old(self).registers(),
                    band,
                    final(rtl).history(),
                    old(rtl).history().len() as int,
                ),
                failure_of(r),
            ),
            final(rtl).carries_on(old(rtl)),
            final(self).wf(),
            final(self).same_but_shadow(old(self)),
            r is Ok ==> final(self).registers() == edited_all(
                old(self).registers(),
                mux_edits(band),
            ),
            final(self).registers() == shadowed(
                old(self).registers(),
                old(self).address(),
                final(rtl).history(),
                old(rtl).history().len() as int,
            ),
    {
        broadcast use group_carried;

        let ghost addr = self.address();
        let ghost verify = rtl.verifies();
        let ghost before = rtl.history();
        let ghost start = self.registers();
        let mut edits: Vec<Edit> = Vec::new();
        edits.push(
            Edit {
                reg: 0x06,
                value: if band == Band::Hf {
                    0x08
                } else {
                    0x00
                },
                mask: 0x08,
            },
        );
        edits.push(
            Edit {
                reg: 0x05,
                value: if band == Band::Vhf {
                    0x40
                } else {
                    0x00
                },
                mask: 0x40,
            },
        );
        // Inverted sense: clearing this bit is what selects the antenna input.
        edits.push(
            Edit {
                reg: 0x05,
                value: if band == Band::Uhf {
                    0x00
                } else {
                    0x20
                },
                mask: 0x20,
            },
        );
        assert(edits@ =~= mux_edits(band));
        self.apply(rtl, &edits)?;
        let ghost routed = rtl.history();
        proof {
            edits_take_one_transfer_each(addr, start, edits@);
        }

        // Pin 5 enables the upconverter on later boards, low for HF. Earlier boards leave it
        // running and ignore this, so driving it is harmless either way.
        let r = self.drive_upconverter(rtl, band);
        proof {
            let after = rtl.history();
            shadowed_in_turn(start, addr, before, routed, after);
        }
        r
    }

    /// Drives the pin that powers the upconverter, with the tuner bus closed meanwhile.
    fn drive_upconverter(&self, rtl: &mut Rtl2832<T>, band: Band) -> (r: Result<
        (),
        TransportError,
    >)
        ensures
            ({
                let verify = old(rtl).verifies();
                let after = final(rtl).history();
                let pin = old(rtl).history().len() + repeater_plan(verify, false).len();
                carried(
                    old(rtl).history(),
                    after,
                    repeater_plan(verify, false) + (gpio_output_plan(
                        5,
                        reply(after, pin as int),
                        reply(after, pin as int + 2),
                    ) + (gpio_write_plan(5, band !is Hf, reply(after, pin as int + 4))
                        + repeater_plan(verify, true))),
                    failure_of(r),
                )
            }),
            final(rtl).carries_on(old(rtl)),
            shadowed(
                self.registers(),
                self.address(),
                final(rtl).history(),
                old(rtl).history().len() as int,
            ) == self.registers(),
    {
        broadcast use group_carried;

        let ghost addr = self.address();
        let ghost shadow = self.registers();
        let ghost h0 = rtl.history();
        proof {
            repeater_leaves_tuner_alone(addr, rtl.verifies(), false);
            repeater_leaves_tuner_alone(addr, rtl.verifies(), true);
        }
        let r1 = rtl.set_i2c_repeater(false);
        let ghost h1 = rtl.history();
        proof {
            quiet_plan_keeps_shadow(
                shadow,
                addr,
                h0,
                h1,
                repeater_plan(rtl.verifies(), false),
                failure_of(r1),
            );
        }
        r1?;
        let r2 = rtl.set_gpio_output(5);
        let ghost h2 = rtl.history();
        proof {
            let at = h1.len() as int;
            pins_leave_tuner_alone(addr, 5, band !is Hf, reply(h2, at), reply(h2, at + 2), 0);
            quiet_plan_keeps_shadow(
                shadow,
                addr,
                h1,
                h2,
                gpio_output_plan(5, reply(h2, at), reply(h2, at + 2)),
                failure_of(r2),
            );
            shadowed_in_turn(shadow, addr, h0, h1, h2);
        }
        r2?;
        let r3 = rtl.write_gpio(5, band != Band::Hf);
        let ghost h3 = rtl.history();
        proof {
            let at = h2.len() as int;
            pins_leave_tuner_alone(addr, 5, band !is Hf, 0, 0, reply(h3, at));
            quiet_plan_keeps_shadow(
                shadow,
                addr,
                h2,
                h3,
                gpio_write_plan(5, band !is Hf, reply(h3, at)),
                failure_of(r3),
            );
            shadowed_in_turn(shadow, addr, h0, h2, h3);
        }
        r3?;
        let r4 = rtl.set_i2c_repeater(true);
        proof {
            quiet_plan_keeps_shadow(
                shadow,
                addr,
                h3,
                rtl.history(),
                repeater_plan(rtl.verifies(), true),
                failure_of(r4),
            );
            shadowed_in_turn(shadow, addr, h0, h3, rtl.history());
        }
        r4
    }

    /// Engages or bypasses the broadcast notch filters.
    fn set_notch(&mut self, rtl: &mut Rtl2832<T>, freq_hz: u32) -> (r: Result<(), TransportError>)
        requires
            old(self).wf(),
        ensures
            carried(
                old(rtl).history(),
                final(rtl).history(),
                edit_plan(old(self).address(), old(self).registers(), notch_edits(freq_hz)),
                failure_of(r),
            ),
            final(rtl).carries_on(old(rtl)),
            final(self).wf(),
            final(self).same_but_shadow(old(self)),
            r is Ok ==> final(self).registers() == edited_all(
                old(self).registers(),
                notch_edits(freq_hz),
            ),
            final(self).registers() == shadowed(
                old(self).registers(),
                old(self).address(),
                final(rtl).history(),
                old(rtl).history().len() as int,
            ),
    {
        let mut edits: Vec<Edit> = Vec::new();
        edits.push(
            Edit {
                reg: 0x17,
                value: if regs::notch_engaged(freq_hz) {
                    0x08
                } else {
                    0x00
                },
                mask: 0x08,
            },
        );
        assert(edits@ =~= notch_edits(freq_hz));
        self.apply(rtl, &edits)
    }

    /// Bypasses the tracking filter in the HF band.
    fn set_bypass(&mut self, rtl: &mut Rtl2832<T>, band: Band) -> (r: Result<(), TransportError>)
        requires
            old(self).wf(),
        ensures
            carried(
                old(rtl).history(),
                final(rtl).history(),
                edit_plan(old(self).address(), old(self).registers(), bypass_edits(band)),
                failure_of(r),
            ),
            final(rtl).carries_on(old(rtl)),
            final(self).wf(),
            final(self).same_but_shadow(old(self)),
            r is Ok ==> final(self).registers() == edited_all(
                old(self).registers(),
                bypass_edits(band),
            ),
            final(self).registers() == shadowed(
                old(self).registers(),
                old(self).address(),
                final(rtl).history(),
                old(rtl).history().len() as int,
            ),
    {
        let mut edits: Vec<Edit> = Vec::new();
        if band == Band::Hf {
            edits.push(Edit { reg: 0x1A, value: 0x40, mask: 0xC3 });
            edits.push(Edit { reg: 0x1B, value: 0x00, mask: 0xFF });
        }
        assert(edits@ =~= bypass_edits(band));
        self.apply(rtl, &edits)
    }

    /// Programs the synthesiser to `lo_hz`.
    fn set_pll(&mut self, rtl: &mut Rtl2832<T>, lo_hz: u32) -> (r: Result<(), TransportError>)
        requires
            old(self).wf(),
        ensures
            ({
                let before = old(rtl).history();
                let after = final(rtl).history();
                let at = before.len() as int;
                let setting = setting_at(lo_hz, old(self).crystal(), after, at + 3);
                &&& carried(
                    before,
                    after,
                    synthesis_plan(
                        old(self).address(),
                        old(self).registers(),
                        lo_hz,
                        old(self).crystal(),
                        after,
                        at,
                    ),
                    break_off(before, after),
                )
                &&& set_as(before, after, setting, lo_hz, r)
                &&& r is Ok ==> final(self).registers() == edited_all(
                    old(self).registers(),
                    prepare_edits() + divider_edits(setting->Ok_0),
                )
            }),
            final(rtl).carries_on(old(rtl)),
            final(self).wf(),
            final(self).same_but_shadow(old(self)),
            final(self).registers() == shadowed(
                old(self).registers(),
                old(self).address(),
                final(rtl).history(),
                old(rtl).history().len() as int,
            ),
    {
        broadcast use group_carried;

        let ghost addr = self.address();
        let ghost start = self.registers();
        let ghost h0 = rtl.history();
        // Reference divider straight through, and autotune at its finest step.
        let mut edits: Vec<Edit> = Vec::new();
        edits.push(Edit { reg: 0x10, value: 0x00, mask: 0x10 });
        edits.push(Edit { reg: 0x1A, value: 0x00, mask: 0x0C });
        edits.push(Edit { reg: 0x12, value: 0x80, mask: 0xE0 });
        proof {
            assert(edits@ =~= prepare_edits());
            edits_take_one_transfer_each(addr, start, edits@);
        }
        let preparing = self.apply(rtl, &edits);
        let ghost prepared = self.registers();
        let ghost h1 = rtl.history();
        proof {
            broken_prefix(h0, h1, edit_plan(addr, start, prepare_edits()), failure_of(preparing));
        }
        preparing?;

        // Register 4 reports whether the oscillator is running above or below centre for its
        // current divider; the calculation shifts the divider to bring it back.
        let mut status: [u8; 5] = [0u8; 5];
        let read = rtl.tuner_read(self.i2c_addr, &mut status);
        let ghost h2 = rtl.history();
        proof {
            quiet_plan_keeps_shadow(
                prepared,
                addr,
                h1,
                h2,
                seq![tuner_read_step(addr, 5)],
                failure_of(read),
            );
            shadowed_in_turn(start, addr, h0, h1, h2);
            assert(carried(h0, h2, prepare_plan(addr, start), failure_of(read)));
            broken_prefix(h0, h2, prepare_plan(addr, start), failure_of(read));
        }
        read?;
        let vco_fine_tune: u8 = (status[4] & 0x30) >> 4;
        proof {
            pll_is_defined_for_known_crystals(lo_hz, self.xtal);
        }
        let pll = match regs::compute_pll(lo_hz, self.xtal, vco_fine_tune, VCO_POWER_REF) {
            Ok(pll) => pll,
            Err(fault) => {
                assert(prepare_plan(addr, start) + Seq::<Step>::empty() =~= prepare_plan(
                    addr,
                    start,
                ));
                return Err(TransportError::Io(unreachable_text(lo_hz, fault)));
            },
        };

        let mut dividers: Vec<Edit> = Vec::new();
        dividers.push(Edit { reg: 0x10, value: pll.div_num << 5, mask: 0xE0 });
        dividers.push(Edit { reg: 0x14, value: pll.reg_14, mask: 0xFF });
        // The fractional path can be powered down when the division comes out exact, which
        // removes its spurs.
        dividers.push(
            Edit {
                reg: 0x12,
                value: if pll.power_down_sdm {
                    0x08
                } else {
                    0x00
                },
                mask: 0x08,
            },
        );
        dividers.push(Edit { reg: 0x16, value: pll.reg_16, mask: 0xFF });
        dividers.push(Edit { reg: 0x15, value: pll.reg_15, mask: 0xFF });
        assert(dividers@ =~= divider_edits(pll));
        let r = self.apply(rtl, &dividers);
        proof {
            let after = rtl.history();
            shadowed_in_turn(start, addr, h0, h2, after);
            edits_split(addr, start, prepare_edits(), divider_edits(pll));
            assert(after[h0.len() as int + 3] == h2[h0.len() as int + 3]);
            let plan = prepare_plan(addr, start) + edit_plan(addr, prepared, divider_edits(pll));
            assert(carried(h0, after, plan, failure_of(r)));
            broken_prefix(h0, after, plan, failure_of(r));
        }
        r
    }

    /// Reads back whether the synthesiser has locked.
    pub fn is_locked(&mut self, rtl: &mut Rtl2832<T>) -> (r: Result<bool, TransportError>)
        ensures
            read_in_brackets(
                old(rtl).history(),
                final(rtl).history(),
                old(rtl).verifies(),
                tuner_read_step(old(self).address(), 3),
                failure_of(r),
            ),
            r matches Ok(locked) ==> {
                let at = old(rtl).history().len() + repeater_plan(old(rtl).verifies(), true).len();
                locked == (final(rtl).history()[at as int].bytes()[2] & 0x40 != 0)
            },
            final(rtl).carries_on(old(rtl)),
            old(rtl).steady() ==> r is Ok,
            *final(self) == *old(self),
    {
        rtl.set_i2c_repeater(true)?;
        let ghost opened = rtl.history();
        let mut status: [u8; 3] = [0u8; 3];
        let result = rtl.tuner_read(self.i2c_addr, &mut status);
        let ghost answered = rtl.history();
        let closing = rtl.set_i2c_repeater(false);
        proof {
            let after = rtl.history();
            assert(after.take(opened.len() as int) =~= opened);
            assert(after.take(answered.len() as int) =~= answered);
            assert(after[opened.len() as int] == answered[opened.len() as int]);
        }
        closing?;
        result?;
        Ok(status[2] & 0x40 != 0)
    }

    /// Sets the gain, either fixed or under the tuner's own control.
    pub fn set_gain(&mut self, rtl: &mut Rtl2832<T>, mode: GainMode) -> (r: Result<
        (),
        TransportError,
    >)
        requires
            old(self).wf(),
        ensures
            in_brackets(
                old(rtl).history(),
                final(rtl).history(),
                old(rtl).verifies(),
                edit_plan(old(self).address(), old(self).registers(), gain_edits(mode)),
                failure_of(r),
            ),
            final(rtl).carries_on(old(rtl)),
            old(rtl).steady() ==> r is Ok,
            final(self).wf(),
            final(self).same_but_shadow(old(self)),
            r is Ok ==> final(self).registers() == edited_all(
                old(self).registers(),
                gain_edits(mode),
            ),
            final(self).registers() == shadowed(
                old(self).registers(),
                old(self).address(),
                final(rtl).history(),
                old(rtl).history().len() as int,
            ),
    {
        let ghost addr = self.address();
        let ghost start = self.registers();
        let ghost verify = rtl.verifies();
        let ghost h0 = rtl.history();
        proof {
            repeater_leaves_tuner_alone(addr, verify, true);
            repeater_leaves_tuner_alone(addr, verify, false);
        }
        let opening = rtl.set_i2c_repeater(true);
        let ghost h1 = rtl.history();
        proof {
            quiet_plan_keeps_shadow(
                start,
                addr,
                h0,
                h1,
                repeater_plan(verify, true),
                failure_of(opening),
            );
        }
        proof {
            if opening is Err {
                never_opened(
                    h0,
                    h1,
                    verify,
                    edit_plan(addr, start, gain_edits(mode)),
                    opening->Err_0,
                );
            }
        }
        opening?;

        let mut edits: Vec<Edit> = Vec::new();
        match mode {
            GainMode::Automatic => {
                edits.push(Edit { reg: 0x05, value: 0x00, mask: 0x10 });
                edits.push(Edit { reg: 0x07, value: 0x10, mask: 0x10 });
                // A fixed 26.5 dB on the variable stage, which is what the tuner's loops are
                // tuned around.
                edits.push(Edit { reg: 0x0C, value: 0x0B, mask: 0x9F });
            },
            GainMode::Manual(tenths) => {
                // Both automatic loops off before touching the manual indices, or they will
                // move again immediately.
                edits.push(Edit { reg: 0x05, value: 0x10, mask: 0x10 });
                edits.push(Edit { reg: 0x07, value: 0x00, mask: 0x10 });
                edits.push(Edit { reg: 0x0C, value: 0x08, mask: 0x9F });
                let setting = regs::distribute_gain(tenths);
                edits.push(Edit { reg: 0x05, value: setting.lna_index, mask: 0x0F });
                edits.push(Edit { reg: 0x07, value: setting.mixer_index, mask: 0x0F });
            },
        }
        assert(edits@ =~= gain_edits(mode));
        let setting = self.apply(rtl, &edits);
        let ghost h2 = rtl.history();
        let ghost set = self.registers();
        proof {
            shadowed_in_turn(start, addr, h0, h1, h2);
        }
        let closing = rtl.set_i2c_repeater(false);
        proof {
            quiet_plan_keeps_shadow(
                set,
                addr,
                h2,
                rtl.history(),
                repeater_plan(verify, false),
                failure_of(closing),
            );
            shadowed_in_turn(start, addr, h0, h2, rtl.history());
            opened_then_closed(
                h0,
                h1,
                h2,
                rtl.history(),
                verify,
                edit_plan(addr, start, gain_edits(mode)),
                failure_of(setting),
                failure_of(closing),
            );
        }
        setting?;
        closing
    }

    /// Switches the input for a band, where it is not the one already selected.
    fn switch(&mut self, rtl: &mut Rtl2832<T>, band: Band) -> (r: Result<(), TransportError>)
        requires
            old(self).wf(),
        ensures
            carried(
                old(rtl).history(),
                final(rtl).history(),
                switch_plan(
                    old(rtl).verifies(),
                    old(self).address(),
                    old(self).registers(),
                    old(self).selected_band(),
                    band,
                    final(rtl).history(),
                    old(rtl).history().len() as int,
                ),
                failure_of(r),
            ),
            final(rtl).carries_on(old(rtl)),
            final(self).wf(),
            final(self).same_board(old(self)),
            final(self).last_tuned() == old(self).last_tuned(),
            final(self).selected_band() == if r is Ok {
                Some(band)
            } else {
                old(self).selected_band()
            },
            r is Ok ==> final(self).registers() == edited_all(
                old(self).registers(),
                switch_edits(old(self).selected_band(), band),
            ),
            final(self).registers() == shadowed(
                old(self).registers(),
                old(self).address(),
                final(rtl).history(),
                old(rtl).history().len() as int,
            ),
    {
        let unchanged = match self.band {
            Some(selected) => selected == band,
            None => false,
        };
        if !unchanged {
            self.set_mux(rtl, band)?;
            self.band = Some(band);
        }
        Ok(())
    }

    /// Makes everything ready for the synthesiser: switches the input and sets the filters.
    fn approach(&mut self, rtl: &mut Rtl2832<T>, freq_hz: u32) -> (r: Result<(), TransportError>)
        requires
            old(self).wf(),
        ensures
            carried(
                old(rtl).history(),
                final(rtl).history(),
                approach_plan(
                    old(rtl).verifies(),
                    old(self).address(),
                    old(self).registers(),
                    old(self).selected_band(),
                    freq_hz,
                    final(rtl).history(),
                    old(rtl).history().len() as int,
                ),
                failure_of(r),
            ),
            final(rtl).carries_on(old(rtl)),
            final(self).wf(),
            final(self).same_board(old(self)),
            final(self).last_tuned() == old(self).last_tuned(),
            final(self).selected_band() == band_after(
                old(rtl).verifies(),
                old(self).address(),
                old(self).registers(),
                old(self).selected_band(),
                freq_hz,
                final(rtl).history(),
                old(rtl).history().len() as int,
            ),
            r is Ok ==> final(self).registers() == edited_all(
                old(self).registers(),
                approach_edits(old(self).selected_band(), freq_hz),
            ),
            final(self).registers() == shadowed(
                old(self).registers(),
                old(self).address(),
                final(rtl).history(),
                old(rtl).history().len() as int,
            ),
    {
        broadcast use group_carried;

        let ghost addr = self.address();
        let ghost start = self.registers();
        let ghost verify = rtl.verifies();
        let ghost current = self.selected_band();
        let ghost h1 = rtl.history();
        let band = regs::band_for(freq_hz);

        // Switching costs transfers and only matters when the band actually changes.
        let switching = self.switch(rtl, band);
        let ghost h2 = rtl.history();
        let ghost routed = self.registers();
        switching?;

        // The notch decision is per-frequency, not per-band.
        let notching = self.set_notch(rtl, freq_hz);
        let ghost h3 = rtl.history();
        let ghost notched = self.registers();
        proof {
            shadowed_in_turn(start, addr, h1, h2, h3);
            edits_take_one_transfer_each(addr, routed, notch_edits(freq_hz));
            same_replies_same_switch(
                verify,
                addr,
                start,
                current,
                band,
                h2,
                h3,
                h1.len() as int,
            );
        }
        notching?;

        // Selecting the mux reasserts the tracking filter, so the HF bypass has to be
        // reapplied after it rather than only when the band changes.
        let bypassing = self.set_bypass(rtl, band);
        proof {
            let h4 = rtl.history();
            shadowed_in_turn(start, addr, h1, h3, h4);
            same_replies_same_switch(
                verify,
                addr,
                start,
                current,
                band,
                h2,
                h4,
                h1.len() as int,
            );
            edits_split(addr, start, switch_edits(current, band), notch_edits(freq_hz));
            edits_split(
                addr,
                start,
                switch_edits(current, band) + notch_edits(freq_hz),
                bypass_edits(band),
            );
        }
        bypassing
    }

    /// Does everything that tuning does behind the open bus.
    fn tune(&mut self, rtl: &mut Rtl2832<T>, freq_hz: u32, lo_hz: u32) -> (r: Result<
        (),
        TransportError,
    >)
        requires
            old(self).wf(),
        ensures
            ({
                let verify = old(rtl).verifies();
                let addr = old(self).address();
                let xtal = old(self).crystal();
                let current = old(self).selected_band();
                let shadow = old(self).registers();
                let before = old(rtl).history();
                let after = final(rtl).history();
                let at = before.len() as int;
                let setting = tune_setting(
                    verify,
                    addr,
                    xtal,
                    lo_hz,
                    freq_hz,
                    current,
                    shadow,
                    after,
                    at,
                );
                &&& carried(
                    before,
                    after,
                    tune_plan(verify, addr, xtal, lo_hz, freq_hz, current, shadow, after, at),
                    break_off(before, after),
                )
                &&& set_as(before, after, setting, lo_hz, r)
                &&& r is Ok ==> final(self).registers() == edited_all(
                    edited_all(shadow, approach_edits(current, freq_hz)),
                    prepare_edits() + divider_edits(setting->Ok_0),
                )
                &&& final(self).selected_band() == band_after(
                    verify,
                    addr,
                    shadow,
                    current,
                    freq_hz,
                    after,
                    at,
                )
                &&& final(self).registers() == shadowed(shadow, addr, after, at)
            }),
            final(rtl).carries_on(old(rtl)),
            final(self).wf(),
            final(self).same_board(old(self)),
            final(self).last_tuned() == old(self).last_tuned(),
    {
        broadcast use group_carried;

        let ghost addr = self.address();
        let ghost start = self.registers();
        let ghost verify = rtl.verifies();
        let ghost current = self.selected_band();
        let ghost band = spec_band_for(freq_hz);
        let ghost xtal = self.crystal();
        let ghost h0 = rtl.history();
        let ghost at = h0.len() as int;
        let approaching = self.approach(rtl, freq_hz);
        let ghost h1 = rtl.history();
        let ghost way = approach_plan(verify, addr, start, current, freq_hz, h1, at);
        let ghost approached = edited_all(start, approach_edits(current, freq_hz));
        proof {
            broken_prefix(h0, h1, way, failure_of(approaching));
        }
        approaching?;

        let setting = self.set_pll(rtl, lo_hz);
        proof {
            let h2 = rtl.history();
            shadowed_in_turn(start, addr, h0, h1, h2);
            same_replies_same_approach(verify, addr, start, current, freq_hz, h1, h2, at);
            approach_has_a_length(verify, addr, start, current, freq_hz, h1, h2, at);
            let rest = synthesis_plan(addr, approached, lo_hz, xtal, h2, h1.len() as int);
            assert(carried(h0, h2, way + rest, break_off(h1, h2)));
            broken_prefix(h0, h2, way + rest, break_off(h1, h2));
            let switching = switch_plan(verify, addr, start, current, band, h2, at);
            assert forall|i: int| at <= i < at + switching.len() implies (
            #[trigger] h2[i]).outcome !is Failed by {
                assert(h2[i] == h1[i]);
            }
        }
        setting
    }

    /// Tunes to `freq_hz`, handling the upconverter and the triplexer.
    ///
    /// The caller passes the frequency it wants to receive. Everything below the crossover
    /// is upconverted, so what the synthesiser is actually programmed to is not what was
    /// asked for: see [`regs::tuner_frequency`].
    pub fn set_frequency(&mut self, rtl: &mut Rtl2832<T>, freq_hz: u32) -> (r: Result<
        (),
        TransportError,
    >)
        requires
            old(self).wf(),
            spec_tuner_frequency(freq_hz) + old(self).intermediate() <= u32::MAX,
        ensures
            tuned(
                old(rtl).verifies(),
                old(self).address(),
                old(self).crystal(),
                oscillator_hz(freq_hz, old(self).intermediate()),
                freq_hz,
                old(self).selected_band(),
                old(self).registers(),
                final(self).registers(),
                old(rtl).history(),
                final(rtl).history(),
                r,
            ),
            final(self).selected_band() == band_after(
                old(rtl).verifies(),
                old(self).address(),
                old(self).registers(),
                old(self).selected_band(),
                freq_hz,
                final(rtl).history(),
                old(rtl).history().len() as int + repeater_plan(old(rtl).verifies(), true).len(),
            ),
            final(self).last_tuned() == if r is Ok {
                freq_hz
            } else {
                old(self).last_tuned()
            },
            final(self).registers() == shadowed(
                old(self).registers(),
                old(self).address(),
                final(rtl).history(),
                old(rtl).history().len() as int,
            ),
            final(rtl).carries_on(old(rtl)),
            old(rtl).steady() && 27_656_500 <= oscillator_hz(freq_hz, old(self).intermediate())
                < 1_769_999_500 ==> r is Ok,
            old(rtl).steady() ==> (r is Ok <==> tune_setting(
                old(rtl).verifies(),
                old(self).address(),
                old(self).crystal(),
                oscillator_hz(freq_hz, old(self).intermediate()),
                freq_hz,
                old(self).selected_band(),
                old(self).registers(),
                final(rtl).history(),
                old(rtl).history().len() as int + repeater_plan(old(rtl).verifies(), true).len(),
            ) is Ok),
            final(self).wf(),
            final(self).same_board(old(self)),
    {
        broadcast use group_carried;

        let ghost addr = self.address();
        let ghost start = self.registers();
        let ghost verify = rtl.verifies();
        let ghost current = self.selected_band();
        let ghost xtal = self.crystal();
        let ghost h0 = rtl.history();
        // The synthesiser is asked for the wanted frequency plus the intermediate frequency,
        // because the tuner mixes from above.
        let lo_hz: u32 = regs::tuner_frequency(freq_hz) + self.if_hz;

        let opening = rtl.set_i2c_repeater(true);
        let ghost h1 = rtl.history();
        let ghost at = h1.len() as int;
        proof {
            repeater_leaves_tuner_alone(addr, verify, true);
            repeater_leaves_tuner_alone(addr, verify, false);
            quiet_plan_keeps_shadow(
                start,
                addr,
                h0,
                h1,
                repeater_plan(verify, true),
                failure_of(opening),
            );
            if opening is Err {
                never_opened(h0, h1, verify, seq![], opening->Err_0);
            }
        }
        opening?;

        let tuning = self.tune(rtl, freq_hz, lo_hz);
        let ghost h2 = rtl.history();
        let ghost set = self.registers();
        let closing = rtl.set_i2c_repeater(false);
        proof {
            let h3 = rtl.history();
            quiet_plan_keeps_shadow(
                set,
                addr,
                h2,
                h3,
                repeater_plan(verify, false),
                failure_of(closing),
            );
            shadowed_in_turn(start, addr, h0, h1, h2);
            shadowed_in_turn(start, addr, h0, h2, h3);
            if 27_656_500 <= lo_hz < 1_769_999_500 {
                let way = approach_plan(verify, addr, start, current, freq_hz, h2, at);
                regs::everything_in_range_is_reachable(
                    lo_hz,
                    xtal,
                    fine_tune(h2[at + way.len() + 3].bytes()),
                );
            }
            tuned_then_closed(
                verify,
                addr,
                xtal,
                lo_hz,
                freq_hz,
                current,
                start,
                set,
                h0,
                h1,
                h2,
                h3,
                tuning,
                closing,
            );
        }
        tuning?;
        closing?;
        self.tuned_hz = freq_hz;
        Ok(())
    }
}

/// A masked update takes the bits under the mask from the value and leaves the others, bit by
/// bit: `kept` is any selection outside the mask and `taken` any inside it.
pub proof fn masked_updates_keep_neighbours(current: u8, value: u8, mask: u8, kept: u8, taken: u8)
    by (bit_vector)
    requires
        kept & mask == 0,
        taken & mask == taken,
    ensures
        merged(current, value, mask) & kept == current & kept,
        merged(current, value, mask) & taken == value & taken,
{
}

/// An update of every bit is a plain write.
pub proof fn full_updates_write_the_value(current: u8, value: u8)
    by (bit_vector)
    ensures
        merged(current, value, 0xFF) == value,
{
}

/// A run of updates leaves a register alone that it does not name.
pub proof fn unnamed_registers_are_kept(shadow: Seq<u8>, edits: Seq<Edit>, reg: u8)
    requires
        shadow.len() == 27,
        all_writable(edits),
        writable(reg),
        forall|i: int| 0 <= i < edits.len() ==> (#[trigger] edits[i]).reg != reg,
    ensures
        held(edited_all(shadow, edits), reg) == held(shadow, reg),
    decreases edits.len(),
{
    if edits.len() > 0 {
        let shorter = edits.drop_last();
        assert forall|i: int| 0 <= i < shorter.len() implies (#[trigger] shorter[i]).reg != reg
            && writable(shorter[i].reg) by {
            assert(shorter[i] == edits[i]);
        }
        unnamed_registers_are_kept(shadow, shorter, reg);
        edits_take_one_transfer_each(0, shadow, shorter);
        assert(edits[edits.len() - 1].reg != reg && writable(edits[edits.len() - 1].reg));
    }
}

/// The registers that select an input, once it has been switched for a band.
pub open spec fn input_selected(shadow: Seq<u8>, band: Band) -> bool {
    &&& held(shadow, 0x06) & 0x08 == if band is Hf {
        0x08u8
    } else {
        0x00
    }
    &&& held(shadow, 0x05) & 0x40 == if band is Vhf {
        0x40u8
    } else {
        0x00
    }
    &&& held(shadow, 0x05) & 0x20 == if band is Uhf {
        0x00u8
    } else {
        0x20
    }
}

/// Switching selects the input of the band and no other.
pub proof fn switching_selects_the_input(shadow: Seq<u8>, band: Band)
    requires
        shadow.len() == 27,
    ensures
        input_selected(edited_all(shadow, mux_edits(band)), band),
{
    reveal_with_fuel(edited_all, 4);
    let edits = mux_edits(band);
    let first = seq![edits[0]];
    let second = seq![edits[0], edits[1]];
    assert(edits.drop_last() =~= second);
    assert(second.drop_last() =~= first);
    assert(first.drop_last() =~= seq![]);
    let r06 = held(shadow, 0x06);
    let r05 = held(shadow, 0x05);
    let (a, b, c) = (edits[0].value, edits[1].value, edits[2].value);
    let once = merged(r05, b, 0x40);
    assert(held(edited_all(shadow, edits), 0x06) == merged(r06, a, 0x08));
    assert(held(edited_all(shadow, edits), 0x05) == merged(once, c, 0x20));
    assert(0x40u8 & 0x20 == 0 && 0x08u8 & 0x08 == 0x08 && 0x40u8 & 0x40 == 0x40 && 0x20u8 & 0x20
        == 0x20 && 0x00u8 & 0x08 == 0 && 0x00u8 & 0x40 == 0 && 0x00u8 & 0x20 == 0) by (bit_vector);
    masked_updates_keep_neighbours(r06, a, 0x08, 0, 0x08);
    masked_updates_keep_neighbours(r05, b, 0x40, 0, 0x40);
    masked_updates_keep_neighbours(once, c, 0x20, 0x40, 0x20);
}

/// Where tuning succeeds, the notch follows the frequency: it is out inside the broadcast bands
/// and in everywhere else. Where the band changed too, the input of the new band is selected:
/// up to 28.8 MHz the second cable input, from 250 MHz the antenna input, between them the
/// first cable input.
#[verifier::spinoff_prover]
#[verifier::rlimit(30)]
pub proof fn tuning_sets_input_and_notch(
    verify: bool,
    i2c_addr: u8,
    xtal: u32,
    lo_hz: u32,
    freq_hz: u32,
    current: Option<Band>,
    shadow: Seq<u8>,
    shadow_after: Seq<u8>,
    before: Seq<Exchange>,
    after: Seq<Exchange>,
)
    requires
        shadow.len() == 27,
        tuned(
            verify,
            i2c_addr,
            xtal,
            lo_hz,
            freq_hz,
            current,
            shadow,
            shadow_after,
            before,
            after,
            Ok(()),
        ),
    ensures
        held(shadow_after, 0x17) & 0x08 == if freq_hz <= 2_200_000 || 85_000_000 <= freq_hz
            <= 112_000_000 || 172_000_000 <= freq_hz <= 242_000_000 {
            0x00u8
        } else {
            0x08
        },
        spec_band_for(freq_hz) == if freq_hz <= 28_800_000 {
            Band::Hf
        } else if freq_hz < 250_000_000 {
            Band::Vhf
        } else {
            Band::Uhf
        },
        current != Some(spec_band_for(freq_hz)) ==> input_selected(
            shadow_after,
            spec_band_for(freq_hz),
        ),
{
    let band = spec_band_for(freq_hz);
    let at = before.len() + repeater_plan(verify, true).len() as int;
    let pll = tune_setting(
        verify,
        i2c_addr,
        xtal,
        lo_hz,
        freq_hz,
        current,
        shadow,
        after,
        at,
    )->Ok_0;
    let switching = switch_edits(current, band);
    let routed = edited_all(shadow, switching);
    let notched = edited_all(routed, notch_edits(freq_hz));
    let rest = bypass_edits(band) + (prepare_edits() + divider_edits(pll));
    edits_take_one_transfer_each(i2c_addr, shadow, switching);
    edits_take_one_transfer_each(i2c_addr, routed, notch_edits(freq_hz));
    edits_split(i2c_addr, shadow, switching, notch_edits(freq_hz));
    edits_split(i2c_addr, shadow, switching + notch_edits(freq_hz), bypass_edits(band));
    edits_split(i2c_addr, notched, bypass_edits(band), prepare_edits() + divider_edits(pll));
    assert(shadow_after == edited_all(notched, rest));
    unnamed_registers_are_kept(notched, rest, 0x17);
    unnamed_registers_are_kept(notched, rest, 0x05);
    unnamed_registers_are_kept(notched, rest, 0x06);
    unnamed_registers_are_kept(routed, notch_edits(freq_hz), 0x05);
    unnamed_registers_are_kept(routed, notch_edits(freq_hz), 0x06);
    if current != Some(band) {
        switching_selects_the_input(shadow, band);
    }
    reveal_with_fuel(edited_all, 2);
    let e = notch_edits(freq_hz)[0];
    assert(notch_edits(freq_hz).drop_last() =~= seq![]);
    assert(0x08u8 & 0x08 == 0x08 && 0x00u8 & 0x08 == 0) by (bit_vector);
    masked_updates_keep_neighbours(held(routed, 0x17), e.value, 0x08, 0, 0x08);
}

/// Where tuning succeeds, the status is read once the approach and the preparation are through,
/// and the registers of the synthesiser hold what it is set to for that status.
#[verifier::spinoff_prover]
#[verifier::rlimit(30)]
pub proof fn tuning_programs_the_dividers(
    verify: bool,
    i2c_addr: u8,
    xtal: u32,
    lo_hz: u32,
    freq_hz: u32,
    current: Option<Band>,
    shadow: Seq<u8>,
    shadow_after: Seq<u8>,
    before: Seq<Exchange>,
    after: Seq<Exchange>,
)
    requires
        shadow.len() == 27,
        tuned(
            verify,
            i2c_addr,
            xtal,
            lo_hz,
            freq_hz,
            current,
            shadow,
            shadow_after,
            before,
            after,
            Ok(()),
        ),
    ensures
        ({
            let at = before.len() + repeater_plan(verify, true).len() as int;
            let way = approach_plan(verify, i2c_addr, shadow, current, freq_hz, after, at);
            let read = at + way.len() + 3;
            let setting = setting_at(lo_hz, xtal, after, read);
            &&& before.len() <= read < after.len()
            &&& after[read].step == tuner_read_step(i2c_addr, 5)
            &&& setting matches Ok(pll) && {
                &&& held(shadow_after, 0x14) == pll.reg_14
                &&& held(shadow_after, 0x15) == pll.reg_15
                &&& held(shadow_after, 0x16) == pll.reg_16
                &&& held(shadow_after, 0x10) & 0xE0 == (pll.div_num << 5) & 0xE0
            }
        }),
{
    let opening = repeater_plan(verify, true);
    let closing = repeater_plan(verify, false);
    let at = before.len() + opening.len() as int;
    let way = approach_plan(verify, i2c_addr, shadow, current, freq_hz, after, at);
    let approached = edited_all(shadow, approach_edits(current, freq_hz));
    let prepare = prepare_plan(i2c_addr, approached);
    let read = at + way.len() + 3;
    prepare_is_four_transfers(i2c_addr, approached);
    let pll = setting_at(lo_hz, xtal, after, read)->Ok_0;
    let plan = tune_plan(verify, i2c_addr, xtal, lo_hz, freq_hz, current, shadow, after, at);
    assert(prepare[3] == tuner_read_step(i2c_addr, 5));
    assert(plan[way.len() as int + 3] == prepare[3]);
    assert((opening + (plan + closing))[read - before.len()] == plan[way.len() as int + 3]);
    edits_take_one_transfer_each(i2c_addr, shadow, approach_edits(current, freq_hz));
    edits_split(i2c_addr, approached, prepare_edits(), divider_edits(pll));
    let prepared = edited_all(approached, prepare_edits());
    edits_take_one_transfer_each(i2c_addr, approached, prepare_edits());
    dividers_land(prepared, pll);
}

/// The updates that program the synthesiser leave its registers at what they name.
proof fn dividers_land(prepared: Seq<u8>, pll: PllSetting)
    requires
        prepared.len() == 27,
    ensures
        ({
            let set = edited_all(prepared, divider_edits(pll));
            &&& held(set, 0x14) == pll.reg_14
            &&& held(set, 0x15) == pll.reg_15
            &&& held(set, 0x16) == pll.reg_16
            &&& held(set, 0x10) & 0xE0 == (pll.div_num << 5) & 0xE0
        }),
{
    let edits = divider_edits(pll);
    reveal_with_fuel(edited_all, 6);
    assert(edits.drop_last() =~= edits.take(4));
    assert(edits.take(4).drop_last() =~= edits.take(3));
    assert(edits.take(3).drop_last() =~= edits.take(2));
    assert(edits.take(2).drop_last() =~= edits.take(1));
    assert(edits.take(1).drop_last() =~= seq![]);
    full_updates_write_the_value(held(prepared, 0x14), pll.reg_14);
    full_updates_write_the_value(held(prepared, 0x15), pll.reg_15);
    full_updates_write_the_value(held(prepared, 0x16), pll.reg_16);
    assert(0xE0u8 & 0xE0 == 0xE0 && 0u8 & 0xE0 == 0) by (bit_vector);
    masked_updates_keep_neighbours(held(prepared, 0x10), pll.div_num << 5, 0xE0, 0, 0xE0);
}

/// The registers of the synthesiser after a run of updates that prepares it and programs it.
#[verifier::spinoff_prover]
#[verifier::rlimit(30)]
proof fn synthesiser_lands(approached: Seq<u8>, pll: PllSetting)
    requires
        approached.len() == 27,
        pll.div_num <= 5,
    ensures
        ({
            let set = edited_all(approached, prepare_edits() + divider_edits(pll));
            &&& held(set, 0x14) == pll.reg_14
            &&& held(set, 0x15) == pll.reg_15
            &&& held(set, 0x16) == pll.reg_16
            &&& held(set, 0x10) / 32 == pll.div_num
            &&& held(set, 0x10) & 0x10 == 0
            &&& held(set, 0x12) & 0xE0 == 0x80
            &&& held(set, 0x12) & 0x08 == if pll.power_down_sdm {
                0x08u8
            } else {
                0x00
            }
            &&& held(set, 0x1A) & 0x0C == 0
            &&& held(set, 0x1A) & 0xC3 == held(approached, 0x1A) & 0xC3
        }),
{
    let first = prepare_edits();
    let second = divider_edits(pll);
    let prepared = edited_all(approached, first);
    edits_split(0, approached, first, second);
    edits_take_one_transfer_each(0, approached, first);
    dividers_land(prepared, pll);
    unnamed_registers_are_kept(prepared, second, 0x1A);
    reveal_with_fuel(edited_all, 6);
    assert(first.drop_last() =~= first.take(2));
    assert(first.take(2).drop_last() =~= first.take(1));
    assert(first.take(1).drop_last() =~= seq![]);
    assert(second.drop_last() =~= second.take(4));
    assert(second.take(4).drop_last() =~= second.take(3));
    assert(second.take(3).drop_last() =~= second.take(2));
    assert(second.take(2).drop_last() =~= second.take(1));
    assert(second.take(1).drop_last() =~= seq![]);
    let (r10, r12, r1a) = (held(approached, 0x10), held(approached, 0x12), held(approached, 0x1A));
    let power = second[2].value;
    let number = pll.div_num << 5;
    assert(held(prepared, 0x10) == merged(r10, 0x00, 0x10));
    assert(held(prepared, 0x1A) == merged(r1a, 0x00, 0x0C));
    assert(held(prepared, 0x12) == merged(r12, 0x80, 0xE0));
    let set = edited_all(prepared, second);
    assert(held(set, 0x10) == merged(held(prepared, 0x10), number, 0xE0));
    assert(held(set, 0x12) == merged(held(prepared, 0x12), power, 0x08));
    let div_num = pll.div_num;
    let top = held(set, 0x10);
    assert(0u8 & 0x10 == 0 && 0x10u8 & 0xE0 == 0 && 0x10u8 & 0x10 == 0x10 && 0xE0u8 & 0xE0 == 0xE0
        && 0u8 & 0xE0 == 0 && 0x80u8 & 0xE0 == 0x80 && 0xE0u8 & 0x08 == 0 && 0x08u8 & 0x08 == 0x08
        && 0u8 & 0x08 == 0 && 0xC3u8 & 0x0C == 0 && 0u8 & 0x0C == 0 && 0x0Cu8 & 0x0C == 0x0C && (top
        & 0xE0 == (div_num << 5) & 0xE0 && div_num <= 5 ==> top / 32 == div_num)) by (bit_vector);
    masked_updates_keep_neighbours(r10, 0x00, 0x10, 0, 0x10);
    masked_updates_keep_neighbours(held(prepared, 0x10), number, 0xE0, 0x10, 0xE0);
    masked_updates_keep_neighbours(r12, 0x80, 0xE0, 0, 0xE0);
    masked_updates_keep_neighbours(held(prepared, 0x12), power, 0x08, 0xE0, 0x08);
    masked_updates_keep_neighbours(r1a, 0x00, 0x0C, 0xC3, 0x0C);
}

/// The divider ahead of the mixer: two, and twice as much at each further position.
pub open spec fn divides_by(step: int) -> int
    decreases step,
{
    if step <= 0 {
        2
    } else {
        2 * divides_by(step - 1)
    }
}

/// Where tuning succeeds, the synthesiser runs where it was asked to. Its registers describe a
/// whole number, counted from 13, and a fraction in units of 2^-16; together they are the ratio
/// of the oscillator to twice the crystal, to the nearest unit. The fractional path is powered
/// down exactly when the fraction is zero. The oscillator is inside its octave from 1770 MHz,
/// and the position of the divider ahead of the mixer is the one that puts it there, moved by
/// one as the oscillator itself reports being off its centre.
///
/// Gives that position.
#[verifier::spinoff_prover]
#[verifier::rlimit(30)]
pub proof fn tuning_lands_on_the_frequency(
    verify: bool,
    i2c_addr: u8,
    xtal: u32,
    lo_hz: u32,
    freq_hz: u32,
    current: Option<Band>,
    shadow: Seq<u8>,
    shadow_after: Seq<u8>,
    before: Seq<Exchange>,
    after: Seq<Exchange>,
) -> (step: int)
    requires
        shadow.len() == 27,
        xtal == 28_800_000 || xtal == 16_000_000,
        tuned(
            verify,
            i2c_addr,
            xtal,
            lo_hz,
            freq_hz,
            current,
            shadow,
            shadow_after,
            before,
            after,
            Ok(()),
        ),
    ensures
        ({
            let at = before.len() + repeater_plan(verify, true).len() as int;
            let way = approach_plan(verify, i2c_addr, shadow, current, freq_hz, after, at);
            let reported = (after[at + way.len() + 3].bytes()[4] & 0x30) >> 4;
            let whole = 13 + 4 * (held(shadow_after, 0x14) % 64) + held(shadow_after, 0x14) / 64;
            let fraction = held(shadow_after, 0x16) * 256 + held(shadow_after, 0x15);
            let m = divides_by(step);
            &&& 0 <= step < 6
            &&& -(xtal as int) <= 2 * xtal * (65536 * whole + fraction) - 65536 * (lo_hz * m)
                <= xtal
            &&& 1_770_000 <= (lo_hz + 500) / 1000 * m < 3_540_000
            &&& held(shadow_after, 0x12) & 0x08 == if fraction == 0 {
                0x08u8
            } else {
                0x00
            }
            &&& held(shadow_after, 0x10) / 32 == if reported > 1 && step > 0 {
                step - 1
            } else if reported < 1 && step < 5 {
                step + 1
            } else {
                step
            }
            &&& held(shadow_after, 0x10) & 0x10 == 0
            &&& held(shadow_after, 0x12) & 0xE0 == 0x80
            &&& held(shadow_after, 0x1A) & 0x0C == 0
        }),
{
    let at = before.len() + repeater_plan(verify, true).len() as int;
    let way = approach_plan(verify, i2c_addr, shadow, current, freq_hz, after, at);
    let read = at + way.len() + 3;
    let setting = setting_at(lo_hz, xtal, after, read);
    let pll = setting->Ok_0;
    let tune = fine_tune(after[read].bytes());
    let approached = edited_all(shadow, approach_edits(current, freq_hz));
    edits_take_one_transfer_each(i2c_addr, shadow, approach_edits(current, freq_hz));
    assert(setting == tune_setting(
        verify,
        i2c_addr,
        xtal,
        lo_hz,
        freq_hz,
        current,
        shadow,
        after,
        at,
    ));
    let step = regs::first_usable(lo_hz, 0)->0;
    pll_is_defined_for_known_crystals(lo_hz, xtal);
    reveal_with_fuel(regs::first_usable, 7);
    regs::pll_registers_describe_the_divider(lo_hz, xtal, tune, VCO_POWER_REF, step);
    synthesiser_lands(approached, pll);
    reveal_with_fuel(divides_by, 7);
    assert(divides_by(step) == regs::mixer_divider(step));
    step
}

/// After the approach in the HF band the tracking filter is bypassed.
proof fn approach_bypasses_the_filter(shadow: Seq<u8>, current: Option<Band>, freq_hz: u32)
    requires
        shadow.len() == 27,
        freq_hz <= 28_800_000,
    ensures
        ({
            let approached = edited_all(shadow, approach_edits(current, freq_hz));
            &&& approached.len() == 27
            &&& held(approached, 0x1A) & 0xC3 == 0x40
            &&& held(approached, 0x1B) == 0x00
        }),
{
    let band = spec_band_for(freq_hz);
    let earlier = switch_edits(current, band) + notch_edits(freq_hz);
    let bypass = bypass_edits(band);
    let base = edited_all(shadow, earlier);
    edits_split(0, shadow, earlier, bypass);
    edits_take_one_transfer_each(0, shadow, earlier);
    edits_take_one_transfer_each(0, shadow, approach_edits(current, freq_hz));
    reveal_with_fuel(edited_all, 3);
    assert(bypass.drop_last() =~= seq![bypass[0]]);
    assert(seq![bypass[0]].drop_last() =~= seq![]);
    let approached = edited_all(base, bypass);
    assert(held(approached, 0x1A) == merged(held(base, 0x1A), 0x40, 0xC3));
    assert(held(approached, 0x1B) == merged(held(base, 0x1B), 0x00, 0xFF));
    full_updates_write_the_value(held(base, 0x1B), 0x00);
    assert(0x40u8 & 0xC3 == 0x40 && 0xC3u8 & 0xC3 == 0xC3 && 0u8 & 0xC3 == 0) by (bit_vector);
    masked_updates_keep_neighbours(held(base, 0x1A), 0x40, 0xC3, 0, 0xC3);
}

/// In the HF band the tracking filter is bypassed once tuning has succeeded, whatever was
/// selected before.
#[verifier::spinoff_prover]
#[verifier::rlimit(30)]
pub proof fn tuning_bypasses_the_filter_in_hf(
    verify: bool,
    i2c_addr: u8,
    xtal: u32,
    lo_hz: u32,
    freq_hz: u32,
    current: Option<Band>,
    shadow: Seq<u8>,
    shadow_after: Seq<u8>,
    before: Seq<Exchange>,
    after: Seq<Exchange>,
)
    requires
        shadow.len() == 27,
        freq_hz <= 28_800_000,
        xtal == 28_800_000 || xtal == 16_000_000,
        tuned(
            verify,
            i2c_addr,
            xtal,
            lo_hz,
            freq_hz,
            current,
            shadow,
            shadow_after,
            before,
            after,
            Ok(()),
        ),
    ensures
        held(shadow_after, 0x1A) & 0xC3 == 0x40,
        held(shadow_after, 0x1B) == 0x00,
{
    let at = before.len() + repeater_plan(verify, true).len() as int;
    let setting = tune_setting(
        verify,
        i2c_addr,
        xtal,
        lo_hz,
        freq_hz,
        current,
        shadow,
        after,
        at,
    );
    let pll = setting->Ok_0;
    let approached = edited_all(shadow, approach_edits(current, freq_hz));
    approach_bypasses_the_filter(shadow, current, freq_hz);
    positions_are_within_range(lo_hz, xtal, setting);
    synthesiser_lands(approached, pll);
    unnamed_registers_are_kept(approached, prepare_edits() + divider_edits(pll), 0x1B);
}

/// The divider ahead of the mixer has six positions.
proof fn positions_are_within_range(
    lo_hz: u32,
    xtal: u32,
    setting: Result<PllSetting, PllError>,
)
    requires
        setting is Ok,
        exists|tune: u8| setting == #[trigger] spec_compute_pll(lo_hz, xtal, tune, VCO_POWER_REF),
    ensures
        setting->Ok_0.div_num <= 5,
{
    reveal_with_fuel(regs::first_usable, 7);
}

/// The oscillator is asked for the wanted frequency and the intermediate frequency above it;
/// up to 28.8 MHz the upconverter's 28.8 MHz come on top.
pub proof fn the_oscillator_runs_above_the_signal(freq_hz: u32, if_hz: u32)
    requires
        spec_tuner_frequency(freq_hz) + if_hz <= u32::MAX,
    ensures
        oscillator_hz(freq_hz, if_hz) == freq_hz + if_hz + (if freq_hz <= 28_800_000 {
            28_800_000int
        } else {
            0
        }),
{
}

/// Tuning within a band names none of the registers that select the input.
pub proof fn unchanged_band_is_not_switched_again(freq_hz: u32, i: int)
    requires
        0 <= i < approach_edits(Some(spec_band_for(freq_hz)), freq_hz).len(),
    ensures
        approach_edits(Some(spec_band_for(freq_hz)), freq_hz)[i].reg != 0x05,
        approach_edits(Some(spec_band_for(freq_hz)), freq_hz)[i].reg != 0x06,
{
}

/// Every tune in the HF band bypasses the tracking filter, whatever was selected before: both
/// of its registers are updated, and last of all before the synthesiser is turned to.
pub proof fn hf_is_bypassed_on_every_tune(current: Option<Band>, freq_hz: u32)
    requires
        spec_band_for(freq_hz) is Hf,
    ensures
        ({
            let edits = approach_edits(current, freq_hz);
            &&& edits.len() >= 2
            &&& edits[edits.len() - 2] == edit(0x1A, 0x40, 0xC3)
            &&& edits[edits.len() - 1] == edit(0x1B, 0x00, 0xFF)
        }),
{
}

/// Where a transfer failed once the bus was open: the position up to which tuning went before
/// closing it, and the first failure.
proof fn tuning_cut_short(
    verify: bool,
    i2c_addr: u8,
    xtal: u32,
    lo_hz: u32,
    freq_hz: u32,
    current: Option<Band>,
    shadow: Seq<u8>,
    shadow_after: Seq<u8>,
    before: Seq<Exchange>,
    after: Seq<Exchange>,
    r: Result<(), TransportError>,
) -> (found: (int, TransportError))
    requires
        tuned(
            verify,
            i2c_addr,
            xtal,
            lo_hz,
            freq_hz,
            current,
            shadow,
            shadow_after,
            before,
            after,
            r,
        ),
        !undisturbed(before, after),
        !carried(before, after, repeater_plan(verify, true), failure_of(r)),
    ensures
        broke_off(
            before,
            after,
            verify,
            repeater_plan(verify, true) + tune_plan(
                verify,
                i2c_addr,
                xtal,
                lo_hz,
                freq_hz,
                current,
                shadow,
                after.take(found.0),
                before.len() + repeater_plan(verify, true).len() as int,
            ),
            found.0,
            found.1,
        ),
{
    choose|k: int, e: TransportError| #[trigger]
        broke_off(
            before,
            after,
            verify,
            repeater_plan(verify, true) + tune_plan(
                verify,
                i2c_addr,
                xtal,
                lo_hz,
                freq_hz,
                current,
                shadow,
                after.take(k),
                before.len() + repeater_plan(verify, true).len() as int,
            ),
            k,
            e,
        )
}

/// Tuning is bracketed, whatever comes of it: the tuner bus is opened first, and unless that
/// failed, what is sent last closes it.
#[verifier::spinoff_prover]
#[verifier::rlimit(30)]
pub proof fn tuning_is_bracketed_by_the_repeater(
    verify: bool,
    i2c_addr: u8,
    xtal: u32,
    lo_hz: u32,
    freq_hz: u32,
    current: Option<Band>,
    shadow: Seq<u8>,
    shadow_after: Seq<u8>,
    before: Seq<Exchange>,
    after: Seq<Exchange>,
    r: Result<(), TransportError>,
)
    requires
        tuned(
            verify,
            i2c_addr,
            xtal,
            lo_hz,
            freq_hz,
            current,
            shadow,
            shadow_after,
            before,
            after,
            r,
        ),
    ensures
        opened_first_closed_last(before, after, verify, failure_of(r)),
{
    let opening = repeater_plan(verify, true);
    let at = before.len() + opening.len() as int;
    let plan = |h: Seq<Exchange>|
        tune_plan(verify, i2c_addr, xtal, lo_hz, freq_hz, current, shadow, h, at);
    if undisturbed(before, after) {
        assert(plan(after) == tune_plan(
            verify,
            i2c_addr,
            xtal,
            lo_hz,
            freq_hz,
            current,
            shadow,
            after,
            at,
        ));
        undisturbed_brackets_close(before, after, verify, plan(after), failure_of(r));
    } else {
        if !carried(before, after, opening, failure_of(r)) {
            let (k, e) = tuning_cut_short(
                verify,
                i2c_addr,
                xtal,
                lo_hz,
                freq_hz,
                current,
                shadow,
                shadow_after,
                before,
                after,
                r,
            );
            assert(plan(after.take(k)) == tune_plan(
                verify,
                i2c_addr,
                xtal,
                lo_hz,
                freq_hz,
                current,
                shadow,
                after.take(k),
                at,
            ));
            broken_brackets_close(
                before,
                after,
                verify,
                plan(after.take(k)),
                k,
                e,
                failure_of(r),
            );
        } else {
            assert(after[before.len() as int].step == opening[0]);
        }
    }
}

/// A frequency that no divider reaches is refused: where no transfer fails, the status is
/// read, the tuner bus closed and nothing else sent; and no more than that is sent where one
/// does fail.
#[verifier::spinoff_prover]
#[verifier::rlimit(30)]
pub proof fn unreachable_frequencies_are_not_programmed(
    verify: bool,
    i2c_addr: u8,
    xtal: u32,
    lo_hz: u32,
    freq_hz: u32,
    current: Option<Band>,
    shadow: Seq<u8>,
    shadow_after: Seq<u8>,
    before: Seq<Exchange>,
    after: Seq<Exchange>,
    r: Result<(), TransportError>,
)
    requires
        tuned(
            verify,
            i2c_addr,
            xtal,
            lo_hz,
            freq_hz,
            current,
            shadow,
            shadow_after,
            before,
            after,
            r,
        ),
        regs::first_usable(lo_hz, 0) is None,
    ensures
        ({
            let opening = repeater_plan(verify, true);
            let closing = repeater_plan(verify, false);
            let way = approach_plan(
                verify,
                i2c_addr,
                shadow,
                current,
                freq_hz,
                after,
                before.len() + opening.len() as int,
            );
            let approached = edited_all(shadow, approach_edits(current, freq_hz));
            &&& r is Err
            &&& undisturbed(before, after) ==> refused(r, lo_hz, PllError::OutOfRange) && carried(
                before,
                after,
                opening + (way + (prepare_plan(i2c_addr, approached) + closing)),
                None,
            )
            &&& after.len() <= before.len() + opening.len() + way.len() + 4 + closing.len()
        }),
{
    let opening = repeater_plan(verify, true);
    let closing = repeater_plan(verify, false);
    let at = before.len() + opening.len() as int;
    let way = approach_plan(verify, i2c_addr, shadow, current, freq_hz, after, at);
    let approached = edited_all(shadow, approach_edits(current, freq_hz));
    let prepare = prepare_plan(i2c_addr, approached);
    prepare_is_four_transfers(i2c_addr, approached);
    if undisturbed(before, after) {
        assert(opening + ((way + (prepare + Seq::<Step>::empty())) + closing) =~= opening + (way + (
        prepare + closing)));
    } else {
        if !carried(before, after, opening, failure_of(r)) {
            let (k, e) = tuning_cut_short(
                verify,
                i2c_addr,
                xtal,
                lo_hz,
                freq_hz,
                current,
                shadow,
                shadow_after,
                before,
                after,
                r,
            );
            let done = after.take(k);
            approach_has_a_length(verify, i2c_addr, shadow, current, freq_hz, done, after, at);
            assert(tune_plan(
                verify,
                i2c_addr,
                xtal,
                lo_hz,
                freq_hz,
                current,
                shadow,
                done,
                at,
            ).len() == way.len() + 4);
        }
    }
}

/// A fixed gain turns both automatic loops off and puts the two indices in place; the
/// automatic mode hands both loops back. The variable stage is fixed either way.
pub proof fn gain_modes_set_the_loops(shadow: Seq<u8>, mode: GainMode)
    requires
        shadow.len() == 27,
    ensures
        ({
            let set = edited_all(shadow, gain_edits(mode));
            match mode {
                GainMode::Automatic => {
                    &&& held(set, 0x05) & 0x10 == 0x00
                    &&& held(set, 0x07) & 0x10 == 0x10
                    &&& held(set, 0x0C) & 0x9F == 0x0B
                },
                GainMode::Manual(tenths) => {
                    let setting = spec_distribute_gain(tenths as int);
                    &&& held(set, 0x05) & 0x10 == 0x10
                    &&& held(set, 0x07) & 0x10 == 0x00
                    &&& held(set, 0x0C) & 0x9F == 0x08
                    &&& held(set, 0x05) & 0x0F == setting.lna_index & 0x0F
                    &&& held(set, 0x07) & 0x0F == setting.mixer_index & 0x0F
                },
            }
        }),
{
    reveal_with_fuel(edited_all, 6);
    let edits = gain_edits(mode);
    let three = edits.take(3);
    let r05 = held(shadow, 0x05);
    let r07 = held(shadow, 0x07);
    assert(0x10u8 & 0x0F == 0 && 0x10u8 & 0x10 == 0x10 && 0x0Fu8 & 0x0F == 0x0F && 0x00u8 & 0x10
        == 0) by (bit_vector);
    masked_updates_keep_neighbours(r05, edits[0].value, 0x10, 0, 0x10);
    masked_updates_keep_neighbours(r07, edits[1].value, 0x10, 0, 0x10);
    assert(edits.take(3).drop_last() =~= edits.take(2));
    assert(edits.take(2).drop_last() =~= edits.take(1));
    assert(edits.take(1).drop_last() =~= seq![]);
    let looped05 = merged(r05, edits[0].value, 0x10);
    let looped07 = merged(r07, edits[1].value, 0x10);
    assert(held(edited_all(shadow, three), 0x05) == looped05);
    assert(held(edited_all(shadow, three), 0x07) == looped07);
    let r0c = held(shadow, 0x0C);
    assert(0x0Bu8 & 0x9F == 0x0B && 0x08u8 & 0x9F == 0x08 && 0x9Fu8 & 0x9F == 0x9F && 0u8 & 0x9F
        == 0) by (bit_vector);
    masked_updates_keep_neighbours(r0c, edits[2].value, 0x9F, 0, 0x9F);
    assert(held(edited_all(shadow, three), 0x0C) == merged(r0c, edits[2].value, 0x9F));
    match mode {
        GainMode::Automatic => {
            assert(three =~= edits);
        },
        GainMode::Manual(tenths) => {
            assert(edits.drop_last() =~= edits.take(4));
            assert(edits.take(4).drop_last() =~= three);
            masked_updates_keep_neighbours(looped05, edits[3].value, 0x0F, 0x10, 0x0F);
            masked_updates_keep_neighbours(looped07, edits[4].value, 0x0F, 0x10, 0x0F);
            assert(held(edited_all(shadow, edits), 0x05) == merged(
                looped05,
                edits[3].value,
                0x0F,
            ));
            assert(held(edited_all(shadow, edits), 0x07) == merged(
                looped07,
                edits[4].value,
                0x0F,
            ));
        },
    }
}

/// A fixed gain is approached from below. The two index registers name positions of the two
/// amplifiers, which take turns; what they add up to stays below the gain asked for, and one
/// more step would reach it, unless the amplifiers are at their ends.
pub proof fn fixed_gain_is_approached_from_below(shadow: Seq<u8>, tenths: i32)
    requires
        shadow.len() == 27,
    ensures
        ({
            let set = edited_all(shadow, gain_edits(GainMode::Manual(tenths)));
            let lna = (held(set, 0x05) & 0x0F) as int;
            let mixer = (held(set, 0x07) & 0x0F) as int;
            let total = regs::climbed(regs::LNA_STEPS@, lna) + regs::climbed(
                regs::MIXER_STEPS@,
                mixer,
            );
            let next = if lna == mixer {
                total + regs::LNA_STEPS@[lna + 1]
            } else {
                total + regs::MIXER_STEPS@[mixer + 1]
            };
            &&& mixer <= lna <= mixer + 1
            &&& lna > 0 ==> total < tenths
            &&& mixer == 15 || next >= tenths
        }),
{
    gain_modes_set_the_loops(shadow, GainMode::Manual(tenths));
    let setting = spec_distribute_gain(tenths as int);
    climbing_is_exact(tenths as int);
    let (lna, mixer) = (setting.lna_index, setting.mixer_index);
    assert((lna <= 15 ==> lna & 0x0F == lna) && (mixer <= 15 ==> mixer & 0x0F == mixer))
        by (bit_vector);
    regs::rungs_are_both_amplifiers(lna as int, mixer as int);
    let n = lna + mixer;
    if n > 0 {
        assert(regs::rung(n) < tenths);
    }
    if lna == mixer && lna < 15 {
        regs::rungs_are_both_amplifiers(lna + 1, mixer as int);
    } else if lna == mixer + 1 {
        regs::rungs_are_both_amplifiers(lna as int, mixer + 1);
    }
}

/// The positions for a gain are the climb towards it.
proof fn climbing_is_exact(target: int)
    ensures
        regs::climbs_to(spec_distribute_gain(target), target),
{
    climbing_on(target, 0);
    let n = regs::rungs_taken(target, 0);
    let setting = spec_distribute_gain(target);
    assert(setting.lna_index + setting.mixer_index == n);
    rungs_are_small(n);
}

proof fn climbing_on(target: int, from: int)
    requires
        0 <= from <= 30,
    ensures
        ({
            let n = regs::rungs_taken(target, from);
            &&& from <= n <= 30
            &&& forall|k: int| from < k <= n ==> #[trigger] regs::rung(k) < target
            &&& n == 30 || regs::rung(n + 1) >= target
        }),
    decreases 30 - from,
{
    if from < 30 && regs::rung(from + 1) < target {
        climbing_on(target, from + 1);
    }
}

proof fn rungs_are_small(n: int)
    requires
        0 <= n <= 30,
    ensures
        -100 * n <= regs::rung(n) <= 100 * n,
    decreases n,
{
    if n > 0 {
        rungs_are_small(n - 1);
        assert(forall|i: int| 0 <= i < 16 ==> -100 <= #[trigger] regs::LNA_STEPS@[i] <= 100);
        assert(forall|i: int| 0 <= i < 16 ==> -100 <= #[trigger] regs::MIXER_STEPS@[i] <= 100);
    }
}

/// Switching the input drives the pin that powers the upconverter: pin 5, made an output, low for
/// HF and high otherwise. The other pins keep what they had. The tuner bus is left open.
#[verifier::spinoff_prover]
#[verifier::rlimit(30)]
pub proof fn switching_powers_the_upconverter(
    verify: bool,
    i2c_addr: u8,
    shadow: Seq<u8>,
    band: Band,
    after: Seq<Exchange>,
    at: int,
    direction: u8,
    enable: u8,
    current: u8,
    other: u8,
)
    requires
        direction == reply(after, at + 3 + repeater_plan(verify, false).len()),
        enable == reply(after, at + 5 + repeater_plan(verify, false).len()),
        current == reply(after, at + 7 + repeater_plan(verify, false).len()),
        other < 8,
    ensures
        ({
            let steps = mux_plan(verify, i2c_addr, shadow, band, after, at);
            let d = left_in_sys(steps, 0x3002)->0[0];
            let e = left_in_sys(steps, 0x3003)->0[0];
            let o = left_in_sys(steps, 0x3001)->0[0];
            &&& left_in_sys(steps, 0x3001) is Some
            &&& (d >> other) & 1 == if other == 5 {
                0
            } else {
                (direction >> other) & 1
            }
            &&& (e >> other) & 1 == if other == 5 {
                1
            } else {
                (enable >> other) & 1
            }
            &&& (o >> other) & 1 == if other != 5 {
                (current >> other) & 1
            } else if band is Hf {
                0
            } else {
                1
            }
            &&& left_in_demod(steps, 1, 0x01) == Some(seq![0x18u8])
        }),
{
    let closing = repeater_plan(verify, false);
    let opening = repeater_plan(verify, true);
    let pin = at + 3 + closing.len();
    let edits = edit_plan(i2c_addr, shadow, mux_edits(band));
    let output = gpio_output_plan(5, reply(after, pin), reply(after, pin + 2));
    let drive = gpio_write_plan(5, band !is Hf, reply(after, pin + 4));
    pins_are_driven_alone(5, band !is Hf, current, other);
    pins_become_outputs_alone(5, direction, enable, other);
    driving_leaves_directions(5, band !is Hf, reply(after, pin + 4));
    repeater_holds(verify, true);
    later_writes_stay(edits, closing + (output + (drive + opening)), 0x3001, 0x210);
    later_writes_stay(closing, output + (drive + opening), 0x3001, 0x210);
    later_writes_stay(output, drive + opening, 0x3001, 0x210);
    later_writes_stay(drive, opening, 0x3001, 0x210);
    later_writes_stay(edits, closing + (output + (drive + opening)), 0x3002, 0x210);
    later_writes_stay(closing, output + (drive + opening), 0x3002, 0x210);
    later_writes_stay(output, drive + opening, 0x3002, 0x210);
    later_writes_stay(drive, opening, 0x3002, 0x210);
    later_writes_stay(edits, closing + (output + (drive + opening)), 0x3003, 0x210);
    later_writes_stay(closing, output + (drive + opening), 0x3003, 0x210);
    later_writes_stay(output, drive + opening, 0x3003, 0x210);
    later_writes_stay(drive, opening, 0x3003, 0x210);
    later_writes_stay(edits, closing + (output + (drive + opening)), 0x120, 0x11);
    later_writes_stay(closing, output + (drive + opening), 0x120, 0x11);
    later_writes_stay(output, drive + opening, 0x120, 0x11);
    later_writes_stay(drive, opening, 0x120, 0x11);
}

/// Where no transfer of a tune fails, the band that it selects is that of the frequency, whatever
/// was selected before.
#[verifier::spinoff_prover]
#[verifier::rlimit(30)]
pub proof fn tuning_selects_the_band(
    verify: bool,
    i2c_addr: u8,
    xtal: u32,
    lo_hz: u32,
    freq_hz: u32,
    current: Option<Band>,
    shadow: Seq<u8>,
    shadow_after: Seq<u8>,
    before: Seq<Exchange>,
    after: Seq<Exchange>,
    r: Result<(), TransportError>,
)
    requires
        undisturbed(before, after),
        tuned(
            verify,
            i2c_addr,
            xtal,
            lo_hz,
            freq_hz,
            current,
            shadow,
            shadow_after,
            before,
            after,
            r,
        ),
    ensures
        band_after(
            verify,
            i2c_addr,
            shadow,
            current,
            freq_hz,
            after,
            before.len() + repeater_plan(verify, true).len() as int,
        ) == Some(
            if freq_hz <= 28_800_000 {
                Band::Hf
            } else if freq_hz < 250_000_000 {
                Band::Vhf
            } else {
                Band::Uhf
            },
        ),
{
    let at = before.len() + repeater_plan(verify, true).len() as int;
    let band = spec_band_for(freq_hz);
    let switching = switch_plan(verify, i2c_addr, shadow, current, band, after, at);
    assert(after.len() >= at + switching.len());
}

} // verus!
