//! Raw register reads, for working out why a probe is not answering.

use vstd::prelude::*;

use crate::conversation::{break_off, carried, failure_of, group_carried, Exchange, Outcome};
use crate::regs;
use crate::regs::Block;
use crate::rtl2832::{
    demod_read_step, flat_read_step, program_plan, read_value, repeater_plan, startup_program,
    tuner_read_step, Rtl2832,
};
use crate::transport::{group_reached, ControlRequest, Transport, TransportError};

verus! {

broadcast use group_reached;

/// One read of the tuner bus.
#[derive(Debug)]
pub struct Reading {
    pub i2c_addr: u8,
    pub len: usize,
    /// How many bytes were reported and what the buffer held, or why nothing arrived.
    pub outcome: Result<(usize, Vec<u8>), TransportError>,
}

/// What a survey found.
#[derive(Debug)]
pub struct Survey {
    /// The USB control register before anything was touched.
    pub sysctl: u16,
    /// The repeater register once the demodulator is initialised.
    pub repeater_before: u8,
    /// The same, with the repeater open.
    pub repeater_open: u8,
    pub readings: Vec<Reading>,
}

/// Where a survey ended.
#[derive(Debug)]
pub enum SurveyError {
    /// Plain control transfers do not work.
    Control(TransportError),
    /// The demodulator could not be initialised.
    Baseband(TransportError),
    /// A later step failed.
    Later(TransportError),
}

/// The reads of a survey, in order: a single byte and eight bytes, from the address of an
/// R828D and from that of an R820T.
pub open spec fn survey_reads() -> Seq<(u8, nat)> {
    seq![(0x74u8, 1nat), (0x34u8, 1nat), (0x74u8, 8nat), (0x34u8, 8nat)]
}

/// A reading is the exchange at its place in a history.
pub open spec fn reads_as(reading: Reading, exchange: Exchange, i2c_addr: u8, len: nat) -> bool {
    &&& reading.i2c_addr == i2c_addr
    &&& reading.len == len
    &&& exchange.step == tuner_read_step(i2c_addr, len)
    &&& exchange.directed()
    &&& match reading.outcome {
        Ok((count, bytes)) => exchange.outcome == (Outcome::Received { bytes: bytes@, count }),
        Err(e) => exchange.outcome == Outcome::Failed(e),
    }
}

/// Makes one read of the tuner bus, whatever comes of it.
fn read_once<T: Transport>(rtl: &mut Rtl2832<T>, i2c_addr: u8, len: usize) -> (reading: Reading)
    ensures
        final(rtl).history().len() == old(rtl).history().len() + 1,
        final(rtl).history().drop_last() == old(rtl).history(),
        reads_as(reading, final(rtl).history().last(), i2c_addr, len as nat),
        final(rtl).carries_on(old(rtl)),
{
    let (v, i) = regs::i2c_read(i2c_addr);
    let mut buf: Vec<u8> = crate::fir::filled(len, 0u8);
    let r = rtl.transport_mut().control_in(ControlRequest::read(v, i), buf.as_mut_slice());
    assert(rtl.history().drop_last() =~= old(rtl).history());
    let outcome = match r {
        Ok(count) => Ok((count, buf)),
        Err(e) => Err(e),
    };
    Reading { i2c_addr, len, outcome }
}

/// Between two histories the tuner bus was read as a survey does, and the readings are what
/// came of it.
pub open spec fn surveyed(
    before: Seq<Exchange>,
    after: Seq<Exchange>,
    readings: Seq<Reading>,
) -> bool {
    &&& after.len() == before.len() + 4
    &&& after.take(before.len() as int) == before
    &&& readings.len() == 4
    &&& forall|i: int|
        0 <= i < 4 ==> reads_as(
            #[trigger] readings[i],
            after[before.len() + i],
            survey_reads()[i].0,
            survey_reads()[i].1,
        )
}

/// Reads the tuner bus at both addresses and both lengths. A failed read does not stop the
/// others.
pub fn read_bus<T: Transport>(rtl: &mut Rtl2832<T>) -> (readings: Vec<Reading>)
    ensures
        surveyed(old(rtl).history(), final(rtl).history(), readings@),
        final(rtl).carries_on(old(rtl)),
{
    let ghost before = rtl.history();
    let mut readings: Vec<Reading> = Vec::new();
    readings.push(read_once(rtl, 0x74, 1));
    let ghost h1 = rtl.history();
    readings.push(read_once(rtl, 0x34, 1));
    let ghost h2 = rtl.history();
    readings.push(read_once(rtl, 0x74, 8));
    let ghost h3 = rtl.history();
    readings.push(read_once(rtl, 0x34, 8));
    proof {
        let after = rtl.history();
        let n = before.len() as int;
        assert(after.take(n) =~= before) by {
            assert(h1.drop_last() =~= before);
            assert forall|i: int| 0 <= i < n implies after[i] == before[i] by {
                assert(after.drop_last()[i] == h3[i]);
                assert(h3.drop_last()[i] == h2[i]);
                assert(h2.drop_last()[i] == h1[i]);
                assert(h1.drop_last()[i] == before[i]);
            }
        }
        assert(after[n] == h1[n]) by {
            assert(after.drop_last()[n] == h3[n]);
            assert(h3.drop_last()[n] == h2[n]);
            assert(h2.drop_last()[n] == h1[n]);
        }
        assert(after[n + 1] == h2[n + 1]) by {
            assert(after.drop_last()[n + 1] == h3[n + 1]);
            assert(h3.drop_last()[n + 1] == h2[n + 1]);
        }
        assert(after[n + 2] == h3[n + 2]) by {
            assert(after.drop_last()[n + 2] == h3[n + 2]);
        }
    }
    readings
}

/// A survey up to closing the repeater again: `h` is the history once the demodulator is
/// initialised, `i` once the repeater is open, and `j` once the bus has been read.
pub open spec fn survey_found(
    before: Seq<Exchange>,
    h: Seq<Exchange>,
    i: Seq<Exchange>,
    j: Seq<Exchange>,
    verify: bool,
    found: Survey,
) -> bool {
    let sysctl = seq![flat_read_step(Block::Usb, regs::usb::SYSCTL, 1)];
    let repeater = seq![demod_read_step(1, 0x01)];
    &&& carried(before, h, sysctl + program_plan(verify, startup_program()), None)
    &&& carried(h, i, repeater + (repeater_plan(verify, true) + repeater), None)
    &&& surveyed(i, j, found.readings@)
    &&& found.sysctl == read_value(h[before.len() as int].bytes())
    &&& i[h.len() as int].bytes() == seq![found.repeater_before]
    &&& i.last().bytes() == seq![found.repeater_open]
}

/// Between `before` and `after` a survey went as far as the error says: plain control
/// transfers, then the demodulator, then the repeater, then the bus. Once the repeater is open
/// it is closed again, whatever failed; the first failure is the one reported.
pub open spec fn survey_broken_off(
    before: Seq<Exchange>,
    after: Seq<Exchange>,
    verify: bool,
    error: SurveyError,
) -> bool {
    let sysctl = seq![flat_read_step(Block::Usb, regs::usb::SYSCTL, 1)];
    let startup = program_plan(verify, startup_program());
    let repeater = seq![demod_read_step(1, 0x01)];
    let opening = repeater + (repeater_plan(verify, true) + repeater);
    let closing = repeater_plan(verify, false);
    match error {
        SurveyError::Control(e) => carried(before, after, sysctl, Some(e)),
        SurveyError::Baseband(e) => exists|h: Seq<Exchange>| #[trigger]
            carried(before, h, sysctl, None) && carried(h, after, startup, Some(e)),
        SurveyError::Later(e) => exists|h: Seq<Exchange>| #[trigger]
            carried(before, h, sysctl + startup, None) && (carried(
                h,
                after,
                repeater + repeater_plan(verify, true),
                Some(e),
            ) || (exists|i: Seq<Exchange>| #[trigger]
                carried(h, i, opening, Some(e)) && i.len() == h.len() + opening.len() && carried(
                    i,
                    after,
                    closing,
                    break_off(i, after),
                )) || (
            exists|i: Seq<Exchange>, j: Seq<Exchange>, readings: Seq<Reading>| #[trigger]
                carried(h, i, opening, None) && #[trigger] surveyed(i, j, readings) && carried(
                    j,
                    after,
                    closing,
                    Some(e),
                ))),
    }
}

/// Reads what there is to read on a device that does not answer as it should.
pub fn survey<T: Transport>(rtl: &mut Rtl2832<T>) -> (r: Result<Survey, SurveyError>)
    ensures
        match r {
            Ok(found) => exists|h: Seq<Exchange>, i: Seq<Exchange>, j: Seq<Exchange>| #[trigger]
                survey_found(old(rtl).history(), h, i, j, old(rtl).verifies(), found) && carried(
                    j,
                    final(rtl).history(),
                    repeater_plan(old(rtl).verifies(), false),
                    None,
                ),
            Err(error) => survey_broken_off(
                old(rtl).history(),
                final(rtl).history(),
                old(rtl).verifies(),
                error,
            ),
        },
        final(rtl).carries_on(old(rtl)),
        old(rtl).steady() ==> r is Ok,
{
    broadcast use group_carried;

    let ghost before = rtl.history();
    let ghost verify = rtl.verifies();
    let ghost repeater = seq![demod_read_step(1, 0x01)];
    let ghost opening = repeater + (repeater_plan(verify, true) + repeater);
    // The USB control register before anything else, to confirm that plain control transfers
    // work at all.
    let sysctl: u16 = match rtl.read_reg(Block::Usb, regs::usb::SYSCTL, 1) {
        Ok(value) => value,
        Err(e) => {
            return Err(SurveyError::Control(e));
        },
    };
    let ghost first = rtl.history();
    match rtl.init_baseband() {
        Ok(()) => {},
        Err(e) => {
            return Err(SurveyError::Baseband(e));
        },
    }
    let ghost h = rtl.history();
    proof {
        let asked = seq![flat_read_step(Block::Usb, regs::usb::SYSCTL, 1)];
        assert(carried(before, h, asked + program_plan(verify, startup_program()), None));
        assert(h[before.len() as int] == first[before.len() as int]);
    }
    // Confirm the demodulator is actually accepting writes by reading one back.
    let repeater_before: u8 = match rtl.demod_read(1, 0x01) {
        Ok(value) => value,
        Err(e) => {
            assert(carried(h, rtl.history(), repeater + repeater_plan(verify, true), Some(e)));
            return Err(SurveyError::Later(e));
        },
    };
    let ghost h1 = rtl.history();
    match rtl.set_i2c_repeater(true) {
        Ok(()) => {},
        Err(e) => {
            assert(carried(h, rtl.history(), repeater + repeater_plan(verify, true), Some(e)));
            return Err(SurveyError::Later(e));
        },
    }
    let ghost h2 = rtl.history();
    let repeater_open: u8 = match rtl.demod_read(1, 0x01) {
        Ok(value) => value,
        Err(e) => {
            let ghost i = rtl.history();
            proof {
                assert(carried(h1, i, repeater_plan(verify, true) + repeater, Some(e)));
                assert(carried(h, i, opening, Some(e)));
                assert(i.len() == h.len() + opening.len());
            }
            let closing = rtl.set_i2c_repeater(false);
            proof {
                let after = rtl.history();
                assert(after.last() == after[after.len() - 1]);
                assert(break_off(i, after) == failure_of(closing));
            }
            return Err(SurveyError::Later(e));
        },
    };
    let ghost i = rtl.history();
    proof {
        assert(carried(h, i, opening, None));
        assert(h1.last() == h1[h.len() as int]);
        assert(i[h.len() as int] == h1[h.len() as int]);
    }
    let readings = read_bus(rtl);
    let ghost j = rtl.history();
    match rtl.set_i2c_repeater(false) {
        Ok(()) => {},
        Err(e) => {
            assert(surveyed(i, j, readings@));
            return Err(SurveyError::Later(e));
        },
    }
    let r: Result<Survey, SurveyError> = Ok(
        Survey { sysctl, repeater_before, repeater_open, readings },
    );
    assert(survey_found(before, h, i, j, verify, r->Ok_0));
    r
}

/// A survey asks at the addresses of both tuners that boards are fitted with, for one byte and
/// then for eight.
pub proof fn surveys_ask_both_tuners()
    ensures
        survey_reads().len() == 4,
        survey_reads().contains((0x74u8, 1nat)),
        survey_reads().contains((0x34u8, 1nat)),
        survey_reads().contains((0x74u8, 8nat)),
        survey_reads().contains((0x34u8, 8nat)),
        survey_reads()[0].1 == survey_reads()[1].1,
        survey_reads()[1].1 < survey_reads()[2].1,
{
    let reads = survey_reads();
    assert(reads[0] == (0x74u8, 1nat) && reads[1] == (0x34u8, 1nat) && reads[2] == (0x74u8, 8nat)
        && reads[3] == (0x34u8, 8nat));
}

} // verus!
