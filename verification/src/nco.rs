//! The phase of a numerically controlled oscillator.
//!
//! Phase is held in a `u32` accumulator, so it wraps exactly at a full cycle and never
//! accumulates the drift that a recursive rotator would. What is looked up for a phase is a
//! place in a table and a fraction of the way to the next one.

use vstd::prelude::*;

verus! {

/// Table entries per cycle.
pub const TABLE_LEN: usize = 4096;

/// Steps of the accumulator between two table entries.
pub const FRACTION_STEPS: u32 = 1_048_576;

/// Steps of the accumulator in a whole cycle.
pub open spec fn cycle() -> int {
    0x1_0000_0000
}

/// Where a phase lies in the table: an entry, and the steps past it.
pub open spec fn spec_place(phase: u32) -> (int, int) {
    (phase as int / FRACTION_STEPS as int, phase as int % FRACTION_STEPS as int)
}

/// Where a phase lies in the table: an entry, and the steps past it.
pub fn place(phase: u32) -> (place: (usize, u32))
    ensures
        (place.0 as int, place.1 as int) == spec_place(phase),
        place.0 < TABLE_LEN,
        place.1 < FRACTION_STEPS,
{
    ((phase / FRACTION_STEPS) as usize, phase % FRACTION_STEPS)
}

/// The phase a quarter of a cycle further on: the cosine leads the sine by that much.
pub fn quarter_turn_ahead(phase: u32) -> (ahead: u32)
    ensures
        ahead == (phase + cycle() / 4) % cycle(),
{
    phase.wrapping_add(0x4000_0000)
}

/// Complex oscillator used to shift a channel to or from zero frequency.
#[derive(Debug, Clone, Copy, PartialEq, Eq, Structural)]
pub struct Nco {
    pub phase: u32,
    /// How far the phase moves at each sample. Negative frequencies wrap.
    pub step: u32,
}

impl Nco {
    pub fn new() -> (nco: Self)
        ensures
            nco.phase == 0,
            nco.step == 0,
    {
        Self { phase: 0, step: 0 }
    }

    pub fn reset(&mut self)
        ensures
            final(self).phase == 0,
            final(self).step == old(self).step,
    {
        self.phase = 0;
    }

    /// The phase of this sample; the accumulator moves on to the next.
    pub fn next(&mut self) -> (phase: u32)
        ensures
            phase == old(self).phase,
            final(self).step == old(self).step,
            final(self).phase == (old(self).phase + old(self).step) % cycle(),
    {
        let phase: u32 = self.phase;
        self.phase = phase.wrapping_add(self.step);
        phase
    }

    /// Writes the oscillator's cosine and sine into the supplied buffers.
    ///
    /// `look` gives the sine for an entry of the table and the steps past it.
    pub fn generate<T, F: Fn(usize, u32) -> T>(
        &mut self,
        cos_out: &mut [T],
        sin_out: &mut [T],
        look: &F,
    )
        requires
            old(cos_out)@.len() == old(sin_out)@.len(),
            forall|index: usize, past: u32|
                index < TABLE_LEN && past < FRACTION_STEPS ==> #[trigger] call_requires(
                    *look,
                    (index, past),
                ),
        ensures
            final(cos_out)@.len() == old(cos_out)@.len(),
            final(sin_out)@.len() == old(sin_out)@.len(),
            forall|k: int|
                0 <= k < old(cos_out)@.len() ==> looked_up(
                    *look,
                    phase_at(old(self).phase, old(self).step, k) + cycle() / 4,
                    #[trigger] final(cos_out)@[k],
                ),
            forall|k: int|
                0 <= k < old(sin_out)@.len() ==> looked_up(
                    *look,
                    phase_at(old(self).phase, old(self).step, k),
                    #[trigger] final(sin_out)@[k],
                ),
            final(self).step == old(self).step,
            final(self).phase == phase_at(
                old(self).phase,
                old(self).step,
                old(cos_out)@.len() as int,
            ),
    {
        let ghost start = self.phase;
        let ghost step = self.step;
        let n: usize = cos_out.len();
        let mut k: usize = 0;
        assert(0 * step == 0) by (nonlinear_arith);
        while k < n
            invariant
                k <= n,
                cos_out@.len() == n,
                sin_out@.len() == n,
                start == old(self).phase,
                step == old(self).step,
                self.step == step,
                self.phase == phase_at(start, step, k as int),
                forall|index: usize, past: u32|
                    index < TABLE_LEN && past < FRACTION_STEPS ==> #[trigger] call_requires(
                        *look,
                        (index, past),
                    ),
                forall|j: int|
                    0 <= j < k ==> looked_up(
                        *look,
                        phase_at(start, step, j) + cycle() / 4,
                        #[trigger] cos_out@[j],
                    ),
                forall|j: int|
                    0 <= j < k ==> looked_up(
                        *look,
                        phase_at(start, step, j),
                        #[trigger] sin_out@[j],
                    ),
            decreases n - k,
        {
            proof {
                steps_add_up(start, step, k as int, 1);
                assert(1 * step == step) by (nonlinear_arith);
            }
            let phase: u32 = self.next();
            let (index, past) = place(quarter_turn_ahead(phase));
            cos_out[k] = look(index, past);
            let (index, past) = place(phase);
            sin_out[k] = look(index, past);
            k += 1;
        }
    }
}

/// `y` is what is looked up for a phase, which may have wrapped.
pub open spec fn looked_up<T, F: Fn(usize, u32) -> T>(look: F, phase: int, y: T) -> bool {
    let (index, past) = spec_place((phase % cycle()) as u32);
    call_ensures(look, (index as usize, past as u32), y)
}

/// The phase after `k` samples.
pub open spec fn phase_at(start: u32, step: u32, k: int) -> int {
    (start + k * step) % cycle()
}

/// The accumulator never drifts: after any number of samples it is exactly where one long run
/// would have taken it.
pub proof fn steps_add_up(start: u32, step: u32, j: int, k: int)
    ensures
        0 <= phase_at(start, step, j) < cycle(),
        phase_at(start, step, j + k) == (phase_at(start, step, j) + k * step) % cycle(),
{
    let a = start + j * step;
    let b = k * step;
    assert((j + k) * step == j * step + k * step) by (nonlinear_arith);
    vstd::arithmetic::div_mod::lemma_add_mod_noop(a, b, cycle());
    vstd::arithmetic::div_mod::lemma_add_mod_noop(a % cycle(), b, cycle());
    vstd::arithmetic::div_mod::lemma_mod_twice(a, cycle());
}

/// The table divides the whole cycle of 2^32 steps evenly: an entry and the steps past it give
/// the phase back, and a whole cycle further on lies the same place.
pub proof fn places_cover_the_cycle(phase: u32, turns: int)
    ensures
        spec_place(phase).0 * 0x10_0000 + spec_place(phase).1 == phase,
        0 <= spec_place(phase).0 < 4096,
        0 <= spec_place(phase).1 < 0x10_0000,
        TABLE_LEN * FRACTION_STEPS == 0x1_0000_0000,
        cycle() == 0x1_0000_0000,
        (phase + turns * cycle()) % cycle() == phase,
{
    vstd::arithmetic::div_mod::lemma_mod_multiples_vanish(turns, phase as int, cycle());
    assert(cycle() * turns == turns * cycle()) by (nonlinear_arith);
}

/// A phase is looked up where it lies: at the entry and the steps past it that give the phase
/// back, whole cycles aside.
pub proof fn phases_are_looked_up_where_they_lie<T, F: Fn(usize, u32) -> T>(
    look: F,
    phase: int,
    y: T,
    index: usize,
    past: u32,
)
    requires
        looked_up(look, phase, y),
        past < 0x10_0000,
        index * 0x10_0000 + past == phase % 0x1_0000_0000,
    ensures
        call_ensures(look, (index, past), y),
{
    let p = (phase % 0x1_0000_0000) as u32;
    places_cover_the_cycle(p, 0);
    assert(spec_place(p) == (index as int, past as int));
}

/// After `k` samples the phase has moved by `k` steps, whole cycles of 2^32 aside: a step that
/// divides the cycle comes round exactly.
pub proof fn phases_move_by_steps(start: u32, step: u32, k: int)
    ensures
        phase_at(start, step, 0) == start,
        phase_at(start, step, k + 1) == (phase_at(start, step, k) + step) % 0x1_0000_0000,
{
    steps_add_up(start, step, k, 1);
    assert(0 * step == 0 && 1 * step == step) by (nonlinear_arith);
}

} // verus!
