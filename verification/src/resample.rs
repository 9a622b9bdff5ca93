//! Rational rate conversion by polyphase filtering: which branch meets which samples.
//!
//! Converting by `L/M` conceptually means inserting `L - 1` zeros between samples, filtering,
//! then keeping one in `M`. Doing that literally would multiply by zeros and then throw
//! most of the results away. The polyphase form skips both: the prototype is split into
//! `L` interleaved subfilters, and each output picks the one subfilter its fractional
//! position calls for.

use vstd::prelude::*;

use crate::fir::{
    fill_all, filled, history_after, keep_tail, kept_count, kept_count_is_bounded,
    kept_samples_carry_across_blocks, most_kept, phase_after, refill, window_at,
    windows_carry_across_blocks,
};

verus! {

/// Whether `d` divides `x`.
pub open spec fn divides(d: int, x: int) -> bool {
    exists|k: int| x == #[trigger] (k * d)
}

/// `g` is the greatest common divisor of two numbers that are not both zero: it divides both,
/// and whatever divides both divides it.
pub open spec fn is_gcd(g: int, a: int, b: int) -> bool {
    &&& g > 0
    &&& divides(g, a)
    &&& divides(g, b)
    &&& forall|d: int| #[trigger] divides(d, a) && divides(d, b) ==> divides(d, g)
}

proof fn divides_remainder(d: int, a: int, b: int)
    requires
        b > 0,
    ensures
        divides(d, a) && divides(d, b) <==> divides(d, b) && divides(d, a % b),
{
    let q = a / b;
    let r = a % b;
    vstd::arithmetic::div_mod::lemma_fundamental_div_mod(a, b);
    if divides(d, a) && divides(d, b) {
        let k = choose|k: int| a == #[trigger] (k * d);
        let m = choose|m: int| b == #[trigger] (m * d);
        assert(r == (k - q * m) * d) by (nonlinear_arith)
            requires
                a == b * q + r,
                a == k * d,
                b == m * d,
        ;
    }
    if divides(d, b) && divides(d, r) {
        let m = choose|m: int| b == #[trigger] (m * d);
        let k = choose|k: int| r == #[trigger] (k * d);
        assert(a == (m * q + k) * d) by (nonlinear_arith)
            requires
                a == b * q + r,
                b == m * d,
                r == k * d,
        ;
    }
}

/// Greatest common divisor, or one where both numbers are zero.
pub fn gcd(a: usize, b: usize) -> (g: usize)
    ensures
        a == 0 && b == 0 ==> g == 1,
        a != 0 || b != 0 ==> is_gcd(g as int, a as int, b as int),
{
    let mut x: usize = a;
    let mut y: usize = b;
    while y != 0
        invariant
            a == 0 && b == 0 ==> x == 0 && y == 0,
            a != 0 || b != 0 ==> x != 0 || y != 0,
            forall|d: int| #![trigger divides(d, a as int)]
                divides(d, a as int) && divides(d, b as int) <==> divides(d, x as int) && divides(
                    d,
                    y as int,
                ),
        decreases y,
    {
        let ghost over = x as int;
        let t: usize = y;
        y = x % y;
        x = t;
        assert forall|d: int| #![trigger divides(d, a as int)]
            divides(d, a as int) && divides(d, b as int) <==> divides(d, x as int) && divides(
                d,
                y as int,
            ) by {
            divides_remainder(d, over, t as int);
            assert(y as int == over % (t as int));
        }
    }
    proof {
        if x != 0 {
            assert forall|d: int| divides(d, x as int) implies #[trigger] divides(d, 0) by {
                assert(0 == 0 * d) by (nonlinear_arith);
            }
            assert(x as int == 1 * x as int);
            assert(divides(x as int, x as int));
            assert(divides(x as int, 0));
            assert(divides(x as int, a as int) && divides(x as int, b as int));
        }
    }
    if x == 0 {
        1
    } else {
        x
    }
}

/// Divides both terms by their greatest common divisor.
pub fn reduce(a: usize, b: usize) -> (reduced: (usize, usize))
    requires
        a >= 1,
        b >= 1,
    ensures
        exists|g: int| #[trigger]
            is_gcd(g, a as int, b as int) && a == reduced.0 * g && b == reduced.1 * g,
        reduced.0 >= 1,
        reduced.1 >= 1,
        reduced.0 <= a,
        reduced.1 <= b,
{
    let g: usize = gcd(a, b);
    proof {
        let k = choose|k: int| a as int == #[trigger] (k * (g as int));
        let m = choose|m: int| b as int == #[trigger] (m * (g as int));
        vstd::arithmetic::div_mod::lemma_div_multiples_vanish(k, g as int);
        vstd::arithmetic::div_mod::lemma_div_multiples_vanish(m, g as int);
        assert(k * g == g * k && m * g == g * m) by (nonlinear_arith);
        assert(k >= 1 && k <= a && m >= 1 && m <= b) by (nonlinear_arith)
            requires
                a == k * g,
                b == m * g,
                g >= 1,
                a >= 1,
                b >= 1,
        ;
    }
    (a / g, b / g)
}

/// Two reduced terms have no common divisor but one.
pub proof fn reduced_terms_are_coprime(a: int, b: int, g: int, x: int, y: int, d: int)
    requires
        is_gcd(g, a, b),
        a == x * g,
        b == y * g,
        d > 0,
        divides(d, x),
        divides(d, y),
    ensures
        d == 1,
{
    let k = choose|k: int| x == #[trigger] (k * d);
    let m = choose|m: int| y == #[trigger] (m * d);
    let e = d * g;
    assert(a == k * e && b == m * e) by (nonlinear_arith)
        requires
            a == x * g,
            b == y * g,
            x == k * d,
            y == m * d,
            e == d * g,
    ;
    assert(divides(e, a) && divides(e, b));
    let n = choose|n: int| g == #[trigger] (n * e);
    assert(d == 1) by (nonlinear_arith)
        requires
            g == n * (d * g),
            g > 0,
            d > 0,
    ;
}

/// Length of the prototype: one tap for every branch and phase, made odd so that it is linear
/// phase.
pub fn prototype_len(interp: usize, taps_per_phase: usize) -> (len: usize)
    requires
        interp * taps_per_phase < usize::MAX,
    ensures
        len == (if interp * taps_per_phase % 2 == 0 {
            interp * taps_per_phase + 1
        } else {
            interp * taps_per_phase
        }),
{
    let total: usize = interp * taps_per_phase;
    if total % 2 == 0 {
        total + 1
    } else {
        total
    }
}

/// The partial results of a branch over a window, started from `zero`.
pub open spec fn sums_through<T, F: Fn(T, T, T) -> T>(
    step: F,
    zero: T,
    branch: Seq<T>,
    window: Seq<T>,
    accs: Seq<T>,
    m: int,
) -> bool {
    &&& accs.len() == m + 1
    &&& accs[0] == zero
    &&& forall|j: int| #![trigger accs[j]]
        0 <= j < m ==> call_ensures(step, (accs[j], branch[j], window[j]), accs[j + 1])
}

/// `y` is what a branch makes of a window, tap by tap.
pub open spec fn summed<T, F: Fn(T, T, T) -> T>(
    step: F,
    zero: T,
    branch: Seq<T>,
    window: Seq<T>,
    y: T,
) -> bool {
    exists|accs: Seq<T>| #[trigger]
        sums_through(step, zero, branch, window, accs, branch.len() as int) && y == accs.last()
}

/// Where tap `j` of branch `p` comes from in the prototype.
pub open spec fn prototype_index(p: int, j: int, interp: int) -> int {
    p + j * interp
}

/// Branch `p` of a table of branches of `tpp` taps each.
pub open spec fn branch_of<T>(phases: Seq<T>, p: int, tpp: int) -> Seq<T> {
    phases.subrange(p * tpp, p * tpp + tpp)
}

/// The branches of a ratio in lowest terms can be counted.
pub open spec fn branches_fit(interp: int, decim: int, taps_per_phase: int) -> bool {
    interp * taps_per_phase < usize::MAX || forall|g: int, up: int|
        #[trigger] is_gcd(g, interp, decim) && interp == #[trigger] (up * g) ==> up
            * taps_per_phase < usize::MAX
}

/// A tap of a branch: the scaled tap of the prototype, or nothing past its end.
pub open spec fn branch_tap<T, F: Fn(T) -> T>(
    scale: F,
    prototype: Seq<T>,
    zero: T,
    from: int,
    tap: T,
) -> bool {
    if from < prototype.len() {
        call_ensures(scale, (prototype[from],), tap)
    } else {
        tap == zero
    }
}

/// `y` is the output due at position `c` of the fine grid.
pub open spec fn resampled<T, F: Fn(T, T, T) -> T>(
    step: F,
    zero: T,
    branches: Seq<T>,
    tpp: int,
    up: int,
    history: Seq<T>,
    input: Seq<T>,
    c: int,
    y: T,
) -> bool {
    summed(
        step,
        zero,
        branch_of(branches, c % up, tpp),
        window_at(history, input, c / up, tpp),
        y,
    )
}

/// Resamples by an exact `interp / decim` ratio.
#[derive(Debug, Clone)]
pub struct RationalResampler<T> {
    interp: usize,
    decim: usize,
    /// Prototype split into `interp` branches, each `taps_per_phase` long. Branch `p`
    /// occupies `phases[p * taps_per_phase .. (p + 1) * taps_per_phase]`, already reversed
    /// so the inner loop walks history forwards.
    phases: Vec<T>,
    taps_per_phase: usize,
    history: Vec<T>,
    scratch: Vec<T>,
    zero: T,
    /// Position within the output cycle, carried across calls so block boundaries do not
    /// disturb the output rate.
    counter: usize,
}

impl<T: Copy> RationalResampler<T> {
    /// Steps of the fine grid in one input sample.
    pub closed spec fn up(&self) -> nat {
        self.interp as nat
    }

    /// Steps of the fine grid between two outputs.
    pub closed spec fn down(&self) -> nat {
        self.decim as nat
    }

    /// The branches, one after the other.
    pub closed spec fn branches(&self) -> Seq<T> {
        self.phases@
    }

    /// Taps in a branch.
    pub closed spec fn branch_len(&self) -> nat {
        self.taps_per_phase as nat
    }

    /// The samples carried over from earlier blocks.
    pub closed spec fn carried(&self) -> Seq<T> {
        self.history@
    }

    /// What an empty history is filled with, and every sum starts from.
    pub closed spec fn silence(&self) -> T {
        self.zero
    }

    /// How far into the next block the next output is, on the fine grid.
    pub closed spec fn next_output(&self) -> nat {
        self.counter as nat
    }

    /// Both rates are at least one, every branch is there, the history is one sample shorter
    /// than a branch, and the next output is less than a whole step away.
    pub open spec fn wf(&self) -> bool {
        &&& 1 <= self.up() <= usize::MAX
        &&& 1 <= self.down() <= usize::MAX
        &&& self.branch_len() >= 1
        &&& self.branches().len() == self.up() * self.branch_len()
        &&& self.carried().len() == self.branch_len() - 1
        &&& self.next_output() < self.down()
    }

    /// Everything but the samples and the position is as it was.
    pub open spec fn same_design(&self, other: &Self) -> bool {
        &&& self.up() == other.up()
        &&& self.down() == other.down()
        &&& self.branches() == other.branches()
        &&& self.branch_len() == other.branch_len()
        &&& self.silence() == other.silence()
    }

    /// Splits a prototype into branches for an exact ratio, which is reduced first.
    ///
    /// Interpolation spreads each input across `interp` outputs, so the branch gain has to be
    /// scaled back up or the signal loses that factor in level: `scale` does that to each tap.
    /// Taps that the prototype does not have are `zero`.
    pub fn new<F: Fn(T) -> T>(
        interp: usize,
        decim: usize,
        taps_per_phase: usize,
        prototype: &[T],
        zero: T,
        scale: &F,
    ) -> (resampler: Self)
        requires
            interp >= 1,
            decim >= 1,
            taps_per_phase >= 1,
            branches_fit(interp as int, decim as int, taps_per_phase as int),
            forall|x: T| call_requires(*scale, (x,)),
        ensures
            resampler.wf(),
            exists|g: int| #[trigger]
                is_gcd(g, interp as int, decim as int) && interp == resampler.up() * g && decim
                    == resampler.down() * g,
            resampler.branch_len() == taps_per_phase,
            resampler.silence() == zero,
            resampler.next_output() == 0,
            resampler.carried() == Seq::new((taps_per_phase - 1) as nat, |i: int| zero),
            forall|p: int, j: int|
                0 <= p < resampler.up() && 0 <= j < taps_per_phase ==> branch_tap(
                    *scale,
                    prototype@,
                    zero,
                    #[trigger] prototype_index(p, j, resampler.up() as int),
                    #[trigger] branch_of(
                        resampler.branches(),
                        p,
                        taps_per_phase as int,
                    )[taps_per_phase - 1 - j],
                ),
    {
        let (up, down) = reduce(interp, decim);
        let tpp: usize = taps_per_phase;
        proof {
            if interp * tpp < usize::MAX {
                assert(up * tpp < usize::MAX) by (nonlinear_arith)
                    requires
                        up <= interp,
                        interp * tpp < usize::MAX,
                        tpp >= 1,
                ;
            } else {
                let g = choose|g: int| #[trigger]
                    is_gcd(g, interp as int, decim as int) && interp == up * g && decim == down * g;
                assert(interp as int == up as int * g);
            }
        }
        let mut phases: Vec<T> = Vec::new();
        let mut p: usize = 0;
        assert(0 * tpp == 0) by (nonlinear_arith);
        while p < up
            invariant
                p <= up,
                up >= 1,
                tpp == taps_per_phase,
                tpp >= 1,
                up * tpp < usize::MAX,
                phases@.len() == p * tpp,
                forall|x: T| call_requires(*scale, (x,)),
                forall|b: int, j: int|
                    0 <= b < p && 0 <= j < tpp ==> branch_tap(
                        *scale,
                        prototype@,
                        zero,
                        #[trigger] prototype_index(b, j, up as int),
                        #[trigger] branch_of(phases@, b, tpp as int)[tpp - 1 - j],
                    ),
            decreases up - p,
        {
            let ghost before = phases@;
            // Reversed within the branch: history is walked oldest to newest.
            let mut j: usize = tpp;
            while j > 0
                invariant
                    j <= tpp,
                    tpp >= 1,
                    p < up,
                    up * tpp < usize::MAX,
                    before.len() == p * tpp,
                    phases@.len() == before.len() + (tpp - j),
                    forall|x: T| call_requires(*scale, (x,)),
                    forall|i: int| 0 <= i < before.len() ==> phases@[i] == before[i],
                    forall|i: int| #![trigger phases@[before.len() + tpp - 1 - i]]
                        j <= i < tpp ==> branch_tap(
                            *scale,
                            prototype@,
                            zero,
                            prototype_index(p as int, i, up as int),
                            phases@[before.len() + tpp - 1 - i],
                        ),
                decreases j,
            {
                j -= 1;
                proof {
                    assert(p + j * up < usize::MAX) by (nonlinear_arith)
                        requires
                            p < up,
                            j < tpp,
                            up * tpp < usize::MAX,
                    ;
                }
                let from: usize = p + j * up;
                let ghost filled_so_far = phases@;
                let v: T = if from < prototype.len() {
                    scale(prototype[from])
                } else {
                    zero
                };
                phases.push(v);
                proof {
                    assert forall|i: int| #![trigger phases@[before.len() + tpp - 1 - i]]
                        j <= i < tpp implies branch_tap(
                        *scale,
                        prototype@,
                        zero,
                        prototype_index(p as int, i, up as int),
                        phases@[before.len() + tpp - 1 - i],
                    ) by {
                        if i > j {
                            assert(phases@[before.len() + tpp - 1 - i] == filled_so_far[before.len()
                                + tpp - 1 - i]);
                        }
                    }
                }
            }
            proof {
                assert((p + 1) * tpp == p * tpp + tpp) by (nonlinear_arith);
                assert forall|b: int, i: int| 0 <= b < p + 1 && 0 <= i < tpp implies branch_tap(
                    *scale,
                    prototype@,
                    zero,
                    #[trigger] prototype_index(b, i, up as int),
                    #[trigger] branch_of(phases@, b, tpp as int)[tpp - 1 - i],
                ) by {
                    if b < p {
                        assert(b * tpp + tpp <= p * tpp && 0 <= b * tpp) by (nonlinear_arith)
                            requires
                                0 <= b < p,
                                tpp >= 1,
                        ;
                        assert(branch_of(phases@, b, tpp as int)[tpp - 1 - i] == branch_of(
                            before,
                            b,
                            tpp as int,
                        )[tpp - 1 - i]);
                    } else {
                        assert(b == p);
                        assert(branch_of(phases@, b, tpp as int)[tpp - 1 - i]
                            == phases@[before.len() + tpp - 1 - i]);
                    }
                }
            }
            p += 1;
        }
        Self {
            interp: up,
            decim: down,
            phases,
            taps_per_phase,
            history: filled(taps_per_phase - 1, zero),
            scratch: Vec::new(),
            zero,
            counter: 0,
        }
    }

    pub fn interp(&self) -> (interp: usize)
        ensures
            interp == self.up(),
    {
        self.interp
    }

    pub fn decim(&self) -> (decim: usize)
        ensures
            decim == self.down(),
    {
        self.decim
    }

    /// Upper bound on outputs from an input block of `n` samples. Use this to size the
    /// destination buffer; the exact count varies by one between calls.
    pub fn output_len(&self, n: usize) -> (len: usize)
        requires
            self.wf(),
            n * self.up() < usize::MAX,
        ensures
            len == most_kept(self.down(), (n * self.up()) as nat) + 1,
    {
        let fine: usize = n * self.interp;
        let whole: usize = fine / self.decim;
        proof {
            assert(fine as int / self.decim as int <= fine) by (nonlinear_arith)
                requires
                    self.decim >= 1,
                    fine >= 0,
            ;
            if fine as int % self.decim as int != 0 {
                assert(fine as int / (self.decim as int) < fine) by (nonlinear_arith)
                    requires
                        self.decim >= 1,
                        fine as int % self.decim as int != 0,
                        fine >= 0,
                ;
            }
        }
        if fine % self.decim == 0 {
            whole + 1
        } else {
            whole + 1 + 1
        }
    }

    pub fn reset(&mut self)
        requires
            old(self).wf(),
        ensures
            final(self).wf(),
            final(self).same_design(old(self)),
            final(self).next_output() == 0,
            final(self).carried() == Seq::new(
                old(self).carried().len(),
                |i: int| old(self).silence(),
            ),
    {
        fill_all(&mut self.history, self.zero);
        self.counter = 0;
    }

    /// What branch `p` makes of a window, tap by tap.
    fn sum<F: Fn(T, T, T) -> T>(&self, p: usize, window: &[T], step: &F) -> (y: T)
        requires
            self.wf(),
            p < self.up(),
            window@.len() == self.branch_len(),
            forall|a: T, b: T, c: T| call_requires(*step, (a, b, c)),
        ensures
            summed(
                *step,
                self.silence(),
                branch_of(self.branches(), p as int, self.branch_len() as int),
                window@,
                y,
            ),
    {
        let tpp: usize = self.taps_per_phase;
        let ghost branch = branch_of(self.phases@, p as int, tpp as int);
        let total: usize = self.phases.len();
        proof {
            assert(p * tpp + tpp <= total && 0 <= p * tpp) by (nonlinear_arith)
                requires
                    p < self.interp,
                    total == self.interp * tpp,
                    tpp >= 1,
            ;
        }
        let base: usize = p * tpp;
        let mut acc: T = self.zero;
        let ghost mut accs: Seq<T> = seq![acc];
        let mut j: usize = 0;
        while j < tpp
            invariant
                j <= tpp,
                tpp == window@.len(),
                base == p * tpp,
                base + tpp <= total,
                total == self.phases@.len(),
                branch.len() == tpp,
                branch == self.phases@.subrange(base as int, base + tpp),
                forall|a: T, b: T, c: T| call_requires(*step, (a, b, c)),
                sums_through(*step, self.zero, branch, window@, accs, j as int),
                acc == accs.last(),
            decreases tpp - j,
        {
            let ghost before = accs;
            acc = step(acc, self.phases[base + j], window[j]);
            proof {
                accs = accs.push(acc);
                assert forall|u: int| #![trigger accs[u]] 0 <= u < j + 1 implies call_ensures(
                    *step,
                    (accs[u], branch[u], window@[u]),
                    accs[u + 1],
                ) by {
                    assert(accs[u] == before[u]);
                    if u < j {
                        assert(accs[u + 1] == before[u + 1]);
                    }
                }
            }
            j += 1;
        }
        assert(sums_through(*step, self.zero, branch, window@, accs, branch.len() as int));
        acc
    }

    /// Returns the number of output samples written.
    ///
    /// Output `j` is due at position `next_output + j * decim` of the fine grid. The branch is
    /// the part of that position between two input samples, and the window ends at the input
    /// sample before it. `step` adds the product of a tap and a sample to a sum.
    pub fn process<F: Fn(T, T, T) -> T>(&mut self, input: &[T], output: &mut [T], step: &F) -> (
    written: usize)
        requires
            old(self).wf(),
            input@.len() * old(self).up() < usize::MAX,
            old(output)@.len() >= most_kept(
                old(self).down(),
                (input@.len() * old(self).up()) as nat,
            ) + 1,
            forall|a: T, b: T, c: T| call_requires(*step, (a, b, c)),
        ensures
            final(self).wf(),
            final(self).same_design(old(self)),
            final(self).carried() == history_after(old(self).carried(), input@),
            final(self).next_output() == phase_after(
                old(self).next_output(),
                old(self).down(),
                (input@.len() * old(self).up()) as nat,
            ),
            written == kept_count(
                old(self).next_output(),
                old(self).down(),
                (input@.len() * old(self).up()) as nat,
            ),
            final(output)@.len() == old(output)@.len(),
            forall|j: int|
                0 <= j < written ==> resampled(
                    *step,
                    old(self).silence(),
                    old(self).branches(),
                    old(self).branch_len() as int,
                    old(self).up() as int,
                    old(self).carried(),
                    input@,
                    old(self).next_output() + j * old(self).down(),
                    #[trigger] final(output)@[j],
                ),
            forall|j: int|
                written <= j < old(output)@.len() ==> #[trigger] final(output)@[j] == old(
                    output,
                )@[j],
    {
        let tpp: usize = self.taps_per_phase;
        let ghost start = self.history@;
        let ghost phase = self.counter as nat;
        let up: usize = self.interp;
        let down: usize = self.decim;
        // One contiguous window of history followed by the new block, so each branch reads a
        // straight run of memory.
        refill(&mut self.scratch, self.history.as_slice(), input);
        let total: usize = self.scratch.len();
        let n: usize = input.len();
        let fine: usize = n * up;
        proof {
            kept_count_is_bounded(phase, down as nat, fine as nat);
            assert(0 * down == 0) by (nonlinear_arith);
        }
        let mut written: usize = 0;
        let mut c: usize = self.counter;
        let mut done = c >= fine;
        let mut owed: usize = if done {
            c - fine
        } else {
            0
        };
        while !done
            invariant
                n == input@.len(),
                fine == n * up,
                up == self.up(),
                down == self.down(),
                tpp == self.branch_len(),
                self.wf(),
                self.same_design(old(self)),
                start == old(self).carried(),
                phase == old(self).next_output(),
                self.history@ == start,
                self.scratch@ == start + input@,
                total == self.scratch@.len(),
                output@.len() == old(output)@.len(),
                output@.len() >= kept_count(phase, down as nat, fine as nat),
                forall|a: T, b: T, d: T| call_requires(*step, (a, b, d)),
                !done ==> c < fine && c == phase + written * down,
                !done ==> written + kept_count(c as nat, down as nat, fine as nat) == kept_count(
                    phase,
                    down as nat,
                    fine as nat,
                ) && phase_after(c as nat, down as nat, fine as nat) == phase_after(
                    phase,
                    down as nat,
                    fine as nat,
                ),
                done ==> written == kept_count(phase, down as nat, fine as nat) && owed
                    == phase_after(phase, down as nat, fine as nat),
                forall|j: int|
                    0 <= j < written ==> resampled(
                        *step,
                        self.silence(),
                        self.branches(),
                        tpp as int,
                        up as int,
                        start,
                        input@,
                        phase + j * down,
                        #[trigger] output@[j],
                    ),
                forall|j: int|
                    written <= j < output@.len() ==> #[trigger] output@[j] == old(output)@[j],
            decreases (if done {
                0int
            } else {
                fine - c + 1
            }),
        {
            let at: usize = c / up;
            let p: usize = c % up;
            proof {
                assert(at < n) by (nonlinear_arith)
                    requires
                        at == c as int / up as int,
                        c < n * up,
                        up >= 1,
                ;
            }
            let window = vstd::slice::slice_subrange(self.scratch.as_slice(), at, at + tpp);
            let y = self.sum(p, window, step);
            assert(resampled(
                *step,
                self.silence(),
                self.branches(),
                tpp as int,
                up as int,
                start,
                input@,
                phase + written * down,
                y,
            ));
            output[written] = y;
            proof {
                reveal_with_fuel(kept_count, 2);
                reveal_with_fuel(phase_after, 2);
                assert((written + 1) * down == written * down + down) by (nonlinear_arith);
            }
            written += 1;
            // Rebase the counter onto the next block's grid once the block is used up.
            let left: usize = fine - c;
            if down >= left {
                owed = down - left;
                done = true;
            } else {
                c += down;
            }
        }
        self.counter = owed;
        keep_tail(&mut self.history, &self.scratch, n);
        written
    }
}

/// Splitting the input changes nothing: as many outputs come, the position that the first
/// block leaves behind is where the second goes on, and an output due in the second block
/// sees the branch and the window that it would see in one long block.
pub proof fn resampling_carries_across_blocks<T>(
    history: Seq<T>,
    first: Seq<T>,
    second: Seq<T>,
    tpp: int,
    up: nat,
    down: nat,
    position: nat,
    c: int,
)
    requires
        up > 0,
        down > 0,
        tpp > 0,
        history.len() == tpp - 1,
        first.len() * up <= c < (first.len() + second.len()) * up,
    ensures
        ({
            let a = first.len() * up;
            let b = second.len() * up;
            let whole = (first.len() + second.len()) * up;
            let middle = phase_after(position, down, a);
            &&& kept_count(position, down, whole) == kept_count(position, down, a) + kept_count(
                middle,
                down,
                b,
            )
            &&& phase_after(position, down, whole) == phase_after(middle, down, b)
            &&& c % (up as int) == (c - a) % (up as int)
            &&& window_at(history, first + second, c / (up as int), tpp) == window_at(
                history_after(history, first),
                second,
                (c - a) / (up as int),
                tpp,
            )
        }),
{
    let u = up as int;
    let a = first.len() * up;
    let b = second.len() * up;
    let n = first.len() as int;
    assert((first.len() + second.len()) * up == a + b) by (nonlinear_arith)
        requires
            a == first.len() * up,
            b == second.len() * up,
    ;
    kept_samples_carry_across_blocks(position, down, a, b);
    let rest = c - a;
    assert(c == rest + n * u) by (nonlinear_arith)
        requires
            rest == c - n * u,
    ;
    vstd::arithmetic::div_mod::lemma_hoist_over_denominator(rest, n, up);
    assert(u * n + rest == c) by (nonlinear_arith)
        requires
            c == rest + n * u,
    ;
    vstd::arithmetic::div_mod::lemma_mod_multiples_vanish(n, rest, u);
    let k = c / u;
    assert(0 <= rest / u < second.len()) by (nonlinear_arith)
        requires
            0 <= rest < second.len() * u,
            u > 0,
    ;
    windows_carry_across_blocks(history, first, second, k, tpp);
}

/// The branches do what inserting zeroes and filtering with the whole prototype would do. Where
/// an output falls at position `c` of the fine grid, a tap of the prototype meets something
/// other than an inserted zero exactly when it is one of the taps of the branch of `c`; and
/// tap `j` of that branch meets the input sample `j` before the one at or below `c`.
pub proof fn branches_meet_what_zero_stuffing_would(c: int, up: int, tap: int)
    requires
        up > 0,
        c >= 0,
        0 <= tap <= c,
    ensures
        (c - tap) % up == 0 <==> exists|j: int|
            0 <= j && tap == #[trigger] prototype_index(c % up, j, up),
        forall|j: int|
            tap == #[trigger] prototype_index(c % up, j, up) ==> c - tap == (c / up - j) * up,
{
    let p = c % up;
    let n = c / up;
    vstd::arithmetic::div_mod::lemma_fundamental_div_mod(c, up);
    assert forall|j: int| tap == #[trigger] prototype_index(p, j, up) implies c - tap == (n - j)
        * up by {
        assert(c - tap == (n - j) * up) by (nonlinear_arith)
            requires
                c == up * n + p,
                tap == p + j * up,
        ;
    }
    if (c - tap) % up == 0 {
        let m = (c - tap) / up;
        vstd::arithmetic::div_mod::lemma_fundamental_div_mod(c - tap, up);
        let j = n - m;
        assert(tap == p + j * up) by (nonlinear_arith)
            requires
                c == up * n + p,
                c - tap == up * m,
                j == n - m,
        ;
        assert(j >= 0) by (nonlinear_arith)
            requires
                tap == p + j * up,
                tap >= 0,
                0 <= p < up,
        ;
        assert(tap == prototype_index(p, j, up));
    }
    if exists|j: int| 0 <= j && tap == #[trigger] prototype_index(p, j, up) {
        let j = choose|j: int| 0 <= j && tap == #[trigger] prototype_index(p, j, up);
        let m = n - j;
        assert(c - tap == up * m) by (nonlinear_arith)
            requires
                c - tap == (n - j) * up,
                m == n - j,
        ;
        assert(c - tap == m * up + 0) by (nonlinear_arith)
            requires
                c - tap == up * m,
        ;
        vstd::arithmetic::div_mod::lemma_fundamental_div_mod_converse(c - tap, up, m, 0);
    }
}

/// The last two convergents of a continued fraction.
///
/// Numerators start from 0, 1 and denominators from 1, 0. Crossing the two pairs would yield
/// the reciprocal of the intended answer.
#[derive(Debug, Clone, Copy, PartialEq, Eq, Structural)]
pub struct Convergents {
    p_prev: usize,
    q_prev: usize,
    p: usize,
    q: usize,
}

impl Convergents {
    /// The last convergent, as a numerator and a denominator.
    pub closed spec fn last(self) -> (nat, nat) {
        (self.p as nat, self.q as nat)
    }

    /// The one before it.
    pub closed spec fn before_last(self) -> (nat, nat) {
        (self.p_prev as nat, self.q_prev as nat)
    }

    /// The next convergent for a partial quotient.
    pub open spec fn next(self, a: nat) -> (nat, nat) {
        (
            a * self.last().0 + self.before_last().0,
            a * self.last().1 + self.before_last().1,
        )
    }

    /// Neighbouring convergents differ by one over the product of their denominators, which
    /// is why each is in lowest terms.
    pub open spec fn wf(self) -> bool {
        let (p, q) = self.last();
        let (r, s) = self.before_last();
        p * s - r * q == 1 || p * s - r * q == -1
    }

    /// Before any partial quotient.
    pub fn new() -> (seed: Self)
        ensures
            seed.wf(),
            seed.last() == (1nat, 0nat),
            seed.before_last() == (0nat, 1nat),
    {
        Self { p_prev: 0, q_prev: 1, p: 1, q: 0 }
    }

    /// Takes the next partial quotient, unless the denominator would exceed the bound or a
    /// term would not fit. Says whether it was taken.
    pub fn push(&mut self, a: usize, max_denominator: usize) -> (taken: bool)
        requires
            old(self).wf(),
        ensures
            final(self).wf(),
            taken == (old(self).next(a as nat).1 <= max_denominator && old(self).next(a as nat).0
                <= usize::MAX),
            taken ==> final(self).last() == old(self).next(a as nat) && final(self).before_last()
                == old(self).last(),
            !taken ==> *final(self) == *old(self),
    {
        let ap = match a.checked_mul(self.p) {
            Some(v) => v,
            None => {
                return false;
            },
        };
        let p = match ap.checked_add(self.p_prev) {
            Some(v) => v,
            None => {
                return false;
            },
        };
        let aq = match a.checked_mul(self.q) {
            Some(v) => v,
            None => {
                return false;
            },
        };
        let q = match aq.checked_add(self.q_prev) {
            Some(v) => v,
            None => {
                return false;
            },
        };
        if q > max_denominator {
            return false;
        }
        proof {
            let (p0, q0, r0, s0) = (
                self.p as int,
                self.q as int,
                self.p_prev as int,
                self.q_prev as int,
            );
            assert((a * p0 + r0) * q0 - p0 * (a * q0 + s0) == -(p0 * s0 - r0 * q0))
                by (nonlinear_arith);
        }
        self.p_prev = self.p;
        self.q_prev = self.q;
        self.p = p;
        self.q = q;
        true
    }

    /// The last convergent.
    pub fn ratio(&self) -> (ratio: (usize, usize))
        ensures
            ratio.0 == self.last().0,
            ratio.1 == self.last().1,
    {
        (self.p, self.q)
    }
}

/// A convergent is in lowest terms.
pub proof fn convergents_are_in_lowest_terms(c: Convergents, d: int)
    requires
        c.wf(),
        d > 0,
        divides(d, c.last().0 as int),
        divides(d, c.last().1 as int),
    ensures
        d == 1,
{
    let (p, q) = c.last();
    let (r, s) = c.before_last();
    let k = choose|k: int| p as int == #[trigger] (k * d);
    let m = choose|m: int| q as int == #[trigger] (m * d);
    let e = k * s - r * m;
    assert(p * s - r * q == d * e) by (nonlinear_arith)
        requires
            p == k * d,
            q == m * d,
            e == k * s - r * m,
    ;
    assert(d == 1) by (nonlinear_arith)
        requires
            d * e == 1 || d * e == -1,
            d > 0,
    ;
}

} // verus!
