//! FIR filtering and decimation: which samples meet which taps.
//!
//! All three filters share one structure: carry `ntaps - 1` samples of history, prepend it
//! to the incoming block, and slide a window along the result. What is computed from a
//! window and the taps is the caller's business; that every output sees exactly its own
//! window, whatever the block sizes, is stated and proved here.
//!
//! Taps are stored in reverse. Convolution reads history backwards, and reversing once at
//! construction turns the inner loop into a forward walk over both arrays.

use vstd::prelude::*;

verus! {

/// The samples that output `k` of a block is computed from: `ntaps` of them, the last of
/// which is input `k`.
pub open spec fn window_at<T>(history: Seq<T>, input: Seq<T>, k: int, ntaps: int) -> Seq<T> {
    (history + input).subrange(k, k + ntaps)
}

/// The history that a block leaves behind: the last samples seen, as many as before.
pub open spec fn history_after<T>(history: Seq<T>, input: Seq<T>) -> Seq<T> {
    (history + input).skip(input.len() as int)
}

/// `y` is what the kernel makes of these samples and taps.
pub open spec fn made_of<T, F: Fn(&[T], &[T]) -> T>(
    kernel: F,
    window: Seq<T>,
    taps: Seq<T>,
    y: T,
) -> bool {
    exists|w: &[T], t: &[T]|
        w@ == window && t@ == taps && #[trigger] call_ensures(kernel, (w, t), y)
}

/// The kernel takes any window of as many samples as there are taps.
pub open spec fn takes_windows<T, F: Fn(&[T], &[T]) -> T>(kernel: F, ntaps: nat) -> bool {
    forall|w: &[T], t: &[T]|
        w@.len() == ntaps && t@.len() == ntaps ==> #[trigger] call_requires(kernel, (w, t))
}

/// Streaming FIR filter.
#[derive(Debug, Clone)]
pub struct Fir<T> {
    /// Taps in reverse order, so the inner loop walks forward over both arrays.
    taps: Vec<T>,
    /// The previous block's trailing `ntaps - 1` samples.
    history: Vec<T>,
    scratch: Vec<T>,
    zero: T,
}

impl<T: Copy> Fir<T> {
    /// The taps, last one first.
    pub closed spec fn reversed_taps(&self) -> Seq<T> {
        self.taps@
    }

    /// The samples carried over from earlier blocks.
    pub closed spec fn carried(&self) -> Seq<T> {
        self.history@
    }

    /// What an empty history is filled with.
    pub closed spec fn silence(&self) -> T {
        self.zero
    }

    /// There is at least one tap, and one sample less of history.
    pub open spec fn wf(&self) -> bool {
        &&& self.reversed_taps().len() > 0
        &&& self.carried().len() == self.reversed_taps().len() - 1
    }

    /// Builds a filter whose history is filled with `zero`.
    pub fn new(taps: Vec<T>, zero: T) -> (fir: Self)
        requires
            taps@.len() > 0,
        ensures
            fir.wf(),
            fir.reversed_taps() == taps@.reverse(),
            fir.carried() == Seq::new((taps@.len() - 1) as nat, |i: int| zero),
            fir.silence() == zero,
    {
        let history = filled(taps.len() - 1, zero);
        Self { taps: reversed(&taps), history, scratch: Vec::new(), zero }
    }

    pub fn taps(&self) -> (n: usize)
        ensures
            n == self.reversed_taps().len(),
    {
        self.taps.len()
    }

    /// Group delay in samples. Linear-phase designs delay by half the tap count.
    pub fn delay(&self) -> (n: usize)
        requires
            self.wf(),
        ensures
            n == (self.reversed_taps().len() - 1) / 2,
    {
        (self.taps.len() - 1) / 2
    }

    pub fn reset(&mut self)
        requires
            old(self).wf(),
        ensures
            final(self).wf(),
            final(self).reversed_taps() == old(self).reversed_taps(),
            final(self).silence() == old(self).silence(),
            final(self).carried() == Seq::new(
                old(self).carried().len(),
                |i: int| old(self).silence(),
            ),
    {
        fill_all(&mut self.history, self.zero);
    }

    /// Filters `input` into `output`, one output sample per input sample.
    pub fn process<F: Fn(&[T], &[T]) -> T>(&mut self, input: &[T], output: &mut [T], kernel: &F)
        requires
            old(self).wf(),
            old(output)@.len() >= input@.len(),
            takes_windows(*kernel, old(self).reversed_taps().len()),
        ensures
            final(self).wf(),
            final(self).reversed_taps() == old(self).reversed_taps(),
            final(self).silence() == old(self).silence(),
            final(self).carried() == history_after(old(self).carried(), input@),
            final(output)@.len() == old(output)@.len(),
            forall|k: int|
                0 <= k < input@.len() ==> made_of(
                    *kernel,
                    window_at(
                        old(self).carried(),
                        input@,
                        k,
                        old(self).reversed_taps().len() as int,
                    ),
                    old(self).reversed_taps(),
                    #[trigger] final(output)@[k],
                ),
            forall|k: int|
                input@.len() <= k < old(output)@.len() ==> #[trigger] final(output)@[k] == old(
                    output,
                )@[k],
    {
        let ntaps: usize = self.taps.len();
        let ghost start = self.history@;
        refill(&mut self.scratch, self.history.as_slice(), input);
        let total: usize = self.scratch.len();
        let n: usize = input.len();
        let mut k: usize = 0;
        while k < n
            invariant
                k <= n,
                n == input@.len(),
                ntaps == self.taps@.len(),
                ntaps > 0,
                start.len() == ntaps - 1,
                self.taps == old(self).taps,
                self.history == old(self).history,
                self.zero == old(self).zero,
                self.history@ == start,
                self.scratch@ == start + input@,
                total == self.scratch@.len(),
                output@.len() == old(output)@.len(),
                output@.len() >= n,
                takes_windows(*kernel, ntaps as nat),
                forall|j: int|
                    0 <= j < k ==> made_of(
                        *kernel,
                        window_at(start, input@, j, ntaps as int),
                        self.taps@,
                        #[trigger] output@[j],
                    ),
                forall|j: int|
                    k <= j < output@.len() ==> #[trigger] output@[j] == old(output)@[j],
            decreases n - k,
        {
            let window = vstd::slice::slice_subrange(self.scratch.as_slice(), k, k + ntaps);
            let y = kernel(window, self.taps.as_slice());
            assert(made_of(
                *kernel,
                window_at(start, input@, k as int, ntaps as int),
                self.taps@,
                y,
            ));
            output[k] = y;
            k += 1;
        }
        keep_tail(&mut self.history, &self.scratch, n);
    }
}

/// Fills a buffer with two runs of samples, one after the other.
pub(crate) fn refill<T: Copy>(buffer: &mut Vec<T>, first: &[T], second: &[T])
    ensures
        final(buffer)@ == first@ + second@,
{
    buffer.clear();
    let mut i: usize = 0;
    while i < first.len()
        invariant
            i <= first@.len(),
            buffer@ == first@.take(i as int),
        decreases first@.len() - i,
    {
        buffer.push(first[i]);
        i += 1;
        assert(buffer@ =~= first@.take(i as int));
    }
    let mut j: usize = 0;
    while j < second.len()
        invariant
            j <= second@.len(),
            buffer@ == first@ + second@.take(j as int),
        decreases second@.len() - j,
    {
        buffer.push(second[j]);
        j += 1;
        assert(buffer@ =~= first@ + second@.take(j as int));
    }
    assert(second@.take(j as int) =~= second@);
}

/// `n` copies of a value.
pub(crate) fn filled<T: Copy>(n: usize, value: T) -> (v: Vec<T>)
    ensures
        v@ == Seq::new(n as nat, |i: int| value),
{
    let mut v: Vec<T> = Vec::with_capacity(n);
    let mut i: usize = 0;
    while i < n
        invariant
            i <= n,
            v@.len() == i,
            forall|j: int| 0 <= j < i ==> v@[j] == value,
        decreases n - i,
    {
        v.push(value);
        i += 1;
    }
    assert(v@ =~= Seq::new(n as nat, |i: int| value));
    v
}

/// The elements in reverse order.
fn reversed<T: Copy>(v: &Vec<T>) -> (r: Vec<T>)
    ensures
        r@ == v@.reverse(),
{
    let n: usize = v.len();
    let mut r: Vec<T> = Vec::with_capacity(n);
    let mut i: usize = 0;
    while i < n
        invariant
            i <= n,
            n == v@.len(),
            r@.len() == i,
            forall|j: int| 0 <= j < i ==> r@[j] == v@[n - 1 - j],
        decreases n - i,
    {
        r.push(v[n - 1 - i]);
        i += 1;
    }
    assert(r@ =~= v@.reverse());
    r
}

/// Overwrites a history with the elements of a run from `from` on, of which there are as many.
pub(crate) fn keep_tail<T: Copy>(history: &mut Vec<T>, run: &Vec<T>, from: usize)
    requires
        from <= run@.len(),
        old(history)@.len() == run@.len() - from,
    ensures
        final(history)@ == run@.skip(from as int),
{
    let n: usize = history.len();
    let total: usize = run.len();
    let mut i: usize = 0;
    while i < n
        invariant
            i <= n,
            n == history@.len(),
            total == run@.len(),
            from + n == total,
            forall|j: int| 0 <= j < i ==> history@[j] == run@[from + j],
        decreases n - i,
    {
        history[i] = run[from + i];
        i += 1;
    }
    assert(history@ =~= run@.skip(from as int));
}

/// Sets every element to a value.
pub(crate) fn fill_all<T: Copy>(history: &mut Vec<T>, value: T)
    ensures
        final(history)@ == Seq::new(old(history)@.len(), |i: int| value),
{
    let n: usize = history.len();
    let mut i: usize = 0;
    while i < n
        invariant
            i <= n,
            n == history@.len(),
            n == old(history)@.len(),
            forall|j: int| 0 <= j < i ==> history@[j] == value,
        decreases n - i,
    {
        history[i] = value;
        i += 1;
    }
    assert(history@ =~= Seq::new(old(history)@.len(), |i: int| value));
}

/// Splitting the input changes nothing: an output of the second block sees the same window
/// that it would see in one long block, and both leave the same history behind.
pub proof fn windows_carry_across_blocks<T>(
    history: Seq<T>,
    first: Seq<T>,
    second: Seq<T>,
    k: int,
    ntaps: int,
)
    requires
        ntaps > 0,
        history.len() == ntaps - 1,
        0 <= k < first.len() + second.len(),
    ensures
        window_at(history, first + second, k, ntaps) == (if k < first.len() {
            window_at(history, first, k, ntaps)
        } else {
            window_at(history_after(history, first), second, k - first.len(), ntaps)
        }),
        history_after(history, first + second) == history_after(
            history_after(history, first),
            second,
        ),
{
    let whole = history + (first + second);
    if k < first.len() {
        assert(whole.subrange(k, k + ntaps) =~= (history + first).subrange(k, k + ntaps));
    } else {
        let middle = history_after(history, first);
        let j = k - first.len();
        assert(whole.subrange(k, k + ntaps) =~= (middle + second).subrange(j, j + ntaps));
    }
    assert(history_after(history, first + second) =~= history_after(
        history_after(history, first),
        second,
    ));
}

/// How much of a block of `n` is left at a position.
pub open spec fn remaining(n: nat, position: nat) -> nat {
    if position >= n {
        0
    } else {
        (n - position) as nat
    }
}

/// How many samples of a block of `n` are kept when the first one kept is at `phase`.
pub open spec fn kept_count(phase: nat, factor: nat, n: nat) -> nat
    decreases remaining(n, phase),
{
    if phase >= n || factor == 0 {
        0
    } else {
        1 + kept_count(phase + factor, factor, n)
    }
}

/// How far into the next block the next sample to keep is.
pub open spec fn phase_after(phase: nat, factor: nat, n: nat) -> nat
    decreases remaining(n, phase),
{
    if factor == 0 {
        0
    } else if phase >= n {
        (phase - n) as nat
    } else {
        phase_after(phase + factor, factor, n)
    }
}

/// The most samples that a block of `n` can yield.
pub open spec fn most_kept(factor: nat, n: nat) -> nat {
    if n % factor == 0 {
        n / factor
    } else {
        n / factor + 1
    }
}

/// A block never yields more samples than the bound, and the phase stays below the factor.
pub proof fn kept_count_is_bounded(phase: nat, factor: nat, n: nat)
    requires
        factor > 0,
    ensures
        kept_count(phase, factor, n) <= most_kept(factor, n),
        phase >= n || kept_count(phase, factor, n) == (n - phase + factor - 1) / (factor as int),
        phase < factor ==> phase_after(phase, factor, n) < factor,
    decreases remaining(n, phase),
{
    let f = factor as int;
    if phase < n {
        kept_count_is_bounded(phase + factor, factor, n);
        let rest = n - phase - 1;
        assert((rest + f) / f == rest / f + 1) by {
            vstd::arithmetic::div_mod::lemma_div_plus_one(rest, f);
        }
        if phase + factor >= n {
            assert(rest / f == 0) by {
                vstd::arithmetic::div_mod::lemma_basic_div(rest, f);
            }
        }
        let whole = n as int / f;
        vstd::arithmetic::div_mod::lemma_fundamental_div_mod(n as int, f);
        vstd::arithmetic::div_mod::lemma_div_is_ordered(rest + f, n + f - 1, f);
        if n as int % f == 0 {
            assert((n + f - 1) / f == whole) by {
                assert(n + f - 1 == whole * f + (f - 1)) by (nonlinear_arith)
                    requires
                        n == f * whole + n as int % f,
                        n as int % f == 0,
                ;
                vstd::arithmetic::div_mod::lemma_fundamental_div_mod_converse(
                    n + f - 1,
                    f,
                    whole,
                    f - 1,
                );
            }
        } else {
            let r = n as int % f;
            assert((n + f - 1) / f == whole + 1) by {
                assert(n + f - 1 == (whole + 1) * f + (r - 1)) by (nonlinear_arith)
                    requires
                        n == f * whole + r,
                ;
                vstd::arithmetic::div_mod::lemma_fundamental_div_mod_converse(
                    n + f - 1,
                    f,
                    whole + 1,
                    r - 1,
                );
            }
        }
        if phase < factor {
            phase_stays_below(phase, factor, n);
        }
    } else {
        if phase < factor {
            phase_stays_below(phase, factor, n);
        }
    }
}

proof fn phase_stays_below(phase: nat, factor: nat, n: nat)
    requires
        factor > 0,
        phase < n + factor,
    ensures
        phase_after(phase, factor, n) < factor,
    decreases remaining(n, phase),
{
    if phase < n {
        phase_stays_below(phase + factor, factor, n);
    }
}

/// The output rate stays exact across block boundaries: two blocks keep what one long block
/// keeps, and the phase that the first leaves behind is where the second goes on.
pub proof fn kept_samples_carry_across_blocks(phase: nat, factor: nat, first: nat, second: nat)
    requires
        factor > 0,
    ensures
        kept_count(phase, factor, first + second) == kept_count(phase, factor, first) + kept_count(
            phase_after(phase, factor, first),
            factor,
            second,
        ),
        phase_after(phase, factor, first + second) == phase_after(
            phase_after(phase, factor, first),
            factor,
            second,
        ),
    decreases remaining(first + second, phase),
{
    if phase < first {
        kept_samples_carry_across_blocks(phase + factor, factor, first, second);
    } else {
        shifting_the_grid((phase - first) as nat, factor, first, second);
    }
}

proof fn shifting_the_grid(phase: nat, factor: nat, by: nat, n: nat)
    requires
        factor > 0,
    ensures
        kept_count(phase + by, factor, by + n) == kept_count(phase, factor, n),
        phase_after(phase + by, factor, by + n) == phase_after(phase, factor, n),
    decreases remaining(n, phase),
{
    if phase < n {
        shifting_the_grid(phase + factor, factor, by, n);
    }
}

/// Decimating FIR: filters, then keeps one sample in `factor`.
///
/// Only the retained outputs are computed. A decimate-by-eight stage therefore costs an
/// eighth of what filtering and then discarding would.
#[derive(Debug, Clone)]
pub struct Decimator<T> {
    taps: Vec<T>,
    history: Vec<T>,
    scratch: Vec<T>,
    zero: T,
    factor: usize,
    /// Input samples still owed before the next output is due, carried across blocks.
    phase: usize,
}

impl<T: Copy> Decimator<T> {
    /// The taps, last one first.
    pub closed spec fn reversed_taps(&self) -> Seq<T> {
        self.taps@
    }

    /// The samples carried over from earlier blocks.
    pub closed spec fn carried(&self) -> Seq<T> {
        self.history@
    }

    /// What an empty history is filled with.
    pub closed spec fn silence(&self) -> T {
        self.zero
    }

    /// One sample in how many is kept.
    pub closed spec fn keeps_one_in(&self) -> nat {
        self.factor as nat
    }

    /// How far into the next block the next sample to keep is.
    pub closed spec fn next_kept(&self) -> nat {
        self.phase as nat
    }

    /// There is at least one tap, one sample less of history, and the next sample to keep is
    /// less than a whole step away.
    pub open spec fn wf(&self) -> bool {
        &&& self.reversed_taps().len() > 0
        &&& self.carried().len() == self.reversed_taps().len() - 1
        &&& 1 <= self.keeps_one_in() <= usize::MAX
        &&& self.next_kept() < self.keeps_one_in()
    }

    /// Everything but the samples and the phase is as it was.
    pub open spec fn same_design(&self, other: &Self) -> bool {
        &&& self.reversed_taps() == other.reversed_taps()
        &&& self.silence() == other.silence()
        &&& self.keeps_one_in() == other.keeps_one_in()
    }

    /// Builds a stage whose history is filled with `zero`.
    pub fn new(taps: Vec<T>, factor: usize, zero: T) -> (decimator: Self)
        requires
            taps@.len() > 0,
            factor >= 1,
        ensures
            decimator.wf(),
            decimator.reversed_taps() == taps@.reverse(),
            decimator.carried() == Seq::new((taps@.len() - 1) as nat, |i: int| zero),
            decimator.silence() == zero,
            decimator.keeps_one_in() == factor,
            decimator.next_kept() == 0,
    {
        let history = filled(taps.len() - 1, zero);
        Self { taps: reversed(&taps), history, scratch: Vec::new(), zero, factor, phase: 0 }
    }

    pub fn factor(&self) -> (factor: usize)
        ensures
            factor == self.keeps_one_in(),
    {
        self.factor
    }

    pub fn taps(&self) -> (n: usize)
        ensures
            n == self.reversed_taps().len(),
    {
        self.taps.len()
    }

    /// Upper bound on outputs produced by an input block of `n` samples.
    pub fn output_len(&self, n: usize) -> (len: usize)
        requires
            self.wf(),
        ensures
            len == most_kept(self.keeps_one_in(), n as nat),
    {
        most_outputs(n, self.factor)
    }

    pub fn reset(&mut self)
        requires
            old(self).wf(),
        ensures
            final(self).wf(),
            final(self).same_design(old(self)),
            final(self).next_kept() == 0,
            final(self).carried() == Seq::new(
                old(self).carried().len(),
                |i: int| old(self).silence(),
            ),
    {
        fill_all(&mut self.history, self.zero);
        self.phase = 0;
    }

    /// Returns the number of output samples written.
    pub fn process<F: Fn(&[T], &[T]) -> T>(
        &mut self,
        input: &[T],
        output: &mut [T],
        kernel: &F,
    ) -> (written: usize)
        requires
            old(self).wf(),
            old(output)@.len() >= most_kept(old(self).keeps_one_in(), input@.len()),
            takes_windows(*kernel, old(self).reversed_taps().len()),
        ensures
            final(self).wf(),
            final(self).same_design(old(self)),
            final(self).carried() == history_after(old(self).carried(), input@),
            final(self).next_kept() == phase_after(
                old(self).next_kept(),
                old(self).keeps_one_in(),
                input@.len(),
            ),
            written == kept_count(
                old(self).next_kept(),
                old(self).keeps_one_in(),
                input@.len(),
            ),
            final(output)@.len() == old(output)@.len(),
            forall|j: int|
                0 <= j < written ==> made_of(
                    *kernel,
                    window_at(
                        old(self).carried(),
                        input@,
                        old(self).next_kept() + j * old(self).keeps_one_in(),
                        old(self).reversed_taps().len() as int,
                    ),
                    old(self).reversed_taps(),
                    #[trigger] final(output)@[j],
                ),
            forall|j: int|
                written <= j < old(output)@.len() ==> #[trigger] final(output)@[j] == old(
                    output,
                )@[j],
    {
        let ntaps: usize = self.taps.len();
        let ghost start = self.history@;
        let ghost phase = self.phase as nat;
        let factor: usize = self.factor;
        refill(&mut self.scratch, self.history.as_slice(), input);
        let total: usize = self.scratch.len();
        let n: usize = input.len();
        proof {
            kept_count_is_bounded(phase, factor as nat, n as nat);
        }
        let mut written: usize = 0;
        let mut k: usize = self.phase;
        let mut done = k >= n;
        let mut owed: usize = if done {
            k - n
        } else {
            0
        };
        proof {
            assert(0 * factor == 0) by (nonlinear_arith);
        }
        while !done
            invariant
                n == input@.len(),
                ntaps == self.taps@.len(),
                ntaps > 0,
                factor > 0,
                start.len() == ntaps - 1,
                self.taps == old(self).taps,
                self.history == old(self).history,
                self.zero == old(self).zero,
                self.factor == old(self).factor,
                self.history@ == start,
                self.scratch@ == start + input@,
                total == self.scratch@.len(),
                output@.len() == old(output)@.len(),
                output@.len() >= kept_count(phase, factor as nat, n as nat),
                takes_windows(*kernel, ntaps as nat),
                !done ==> k < n && k == phase + written * factor,
                !done ==> written + kept_count(k as nat, factor as nat, n as nat) == kept_count(
                    phase,
                    factor as nat,
                    n as nat,
                ) && phase_after(k as nat, factor as nat, n as nat) == phase_after(
                    phase,
                    factor as nat,
                    n as nat,
                ),
                done ==> written == kept_count(phase, factor as nat, n as nat) && owed
                    == phase_after(phase, factor as nat, n as nat),
                forall|j: int|
                    0 <= j < written ==> made_of(
                        *kernel,
                        window_at(start, input@, phase + j * factor, ntaps as int),
                        self.taps@,
                        #[trigger] output@[j],
                    ),
                forall|j: int|
                    written <= j < output@.len() ==> #[trigger] output@[j] == old(output)@[j],
            decreases (if done {
                0int
            } else {
                n - k + 1
            }),
        {
            let window = vstd::slice::slice_subrange(self.scratch.as_slice(), k, k + ntaps);
            let y = kernel(window, self.taps.as_slice());
            assert(made_of(
                *kernel,
                window_at(start, input@, phase + written * factor, ntaps as int),
                self.taps@,
                y,
            ));
            output[written] = y;
            proof {
                reveal_with_fuel(kept_count, 2);
                reveal_with_fuel(phase_after, 2);
            }
            assert((written + 1) * factor == written * factor + factor) by (nonlinear_arith);
            written += 1;
            // Carry the leftover step into the next block so the output rate stays exact
            // across block boundaries rather than resetting on every call.
            let left: usize = n - k;
            if factor >= left {
                owed = factor - left;
                done = true;
            } else {
                k += factor;
            }
        }
        self.phase = owed;
        keep_tail(&mut self.history, &self.scratch, n);
        written
    }
}

/// The most samples that a block of `n` can yield.
fn most_outputs(n: usize, factor: usize) -> (len: usize)
    requires
        factor > 0,
    ensures
        len == most_kept(factor as nat, n as nat),
{
    if n % factor == 0 {
        n / factor
    } else {
        proof {
            assert(n / factor < n || n / factor == 0) by (nonlinear_arith)
                requires
                    factor >= 1,
                    n as int % factor as int != 0,
                    n >= 0,
            ;
        }
        n / factor + 1
    }
}

/// Whether a half-band design of `ntaps` taps is zero at tap `k`: at every even, nonzero
/// distance from the centre.
pub open spec fn halfband_zero(k: int, ntaps: int) -> bool {
    k != ntaps / 2 && (k - ntaps / 2) % 2 == 0
}

/// Whether a half-band design of `ntaps` taps is zero at tap `k`.
pub fn is_halfband_zero(k: usize, ntaps: usize) -> (zero: bool)
    ensures
        zero == halfband_zero(k as int, ntaps as int),
{
    let centre: usize = ntaps / 2;
    k != centre && k % 2 == centre % 2
}

/// Whether a Hilbert transformer of `ntaps` taps is zero at tap `k`: at every even distance
/// from the centre, the centre included.
pub fn is_hilbert_zero(k: usize, ntaps: usize) -> (zero: bool)
    ensures
        zero == ((k - ntaps as int / 2) % 2 == 0),
{
    k % 2 == (ntaps / 2) % 2
}

/// `y` comes out of a half-band window: the centre sample with the centre tap first, then for
/// each outer tap, from the outermost in, the two samples equally far from the centre.
pub open spec fn folded_in<T, A: Fn(T, T) -> T, B: Fn(T, T, T, T) -> T>(
    first: A,
    step: B,
    centre: T,
    outer: Seq<T>,
    window: Seq<T>,
    y: T,
) -> bool {
    exists|accs: Seq<T>| #[trigger]
        folds_through(first, step, centre, outer, window, accs, outer.len() as int) && y
            == accs.last()
}

/// The intermediate results of folding the first `m` outer taps of a half-band window.
pub open spec fn folds_through<T, A: Fn(T, T) -> T, B: Fn(T, T, T, T) -> T>(
    first: A,
    step: B,
    centre: T,
    outer: Seq<T>,
    window: Seq<T>,
    accs: Seq<T>,
    m: int,
) -> bool {
    &&& accs.len() == m + 1
    &&& call_ensures(first, (centre, window[window.len() as int / 2]), accs[0])
    &&& forall|t: int| #![trigger accs[t]]
        0 <= t < m ==> call_ensures(
            step,
            (accs[t], outer[t], window[2 * t], window[window.len() - 1 - 2 * t]),
            accs[t + 1],
        )
}

/// Half-band decimate-by-two stage.
///
/// A half-band filter has every second tap equal to zero either side of the centre, and a
/// centre tap of one half. Skipping the zeros halves the multiply count, which is why a
/// cascade of these is the cheapest way to drop a wideband capture down to a channel rate.
#[derive(Debug, Clone)]
pub struct HalfBand<T> {
    /// Only the nonzero off-centre taps of one side, outermost first.
    odd_taps: Vec<T>,
    centre: T,
    history: Vec<T>,
    scratch: Vec<T>,
    zero: T,
    ntaps: usize,
    phase: usize,
}

impl<T: Copy> HalfBand<T> {
    /// The nonzero taps left of the centre, outermost first.
    pub closed spec fn outer_taps(&self) -> Seq<T> {
        self.odd_taps@
    }

    /// The tap in the middle.
    pub closed spec fn centre_tap(&self) -> T {
        self.centre
    }

    /// The samples carried over from earlier blocks.
    pub closed spec fn carried(&self) -> Seq<T> {
        self.history@
    }

    /// What an empty history is filled with.
    pub closed spec fn silence(&self) -> T {
        self.zero
    }

    /// The length of the whole design.
    pub closed spec fn design_len(&self) -> nat {
        self.ntaps as nat
    }

    /// How far into the next block the next sample to keep is.
    pub closed spec fn next_kept(&self) -> nat {
        self.phase as nat
    }

    /// The length is of the form `4k + 3`, half of the taps off the centre are kept on each
    /// side, and the history is one sample shorter than the design.
    pub open spec fn wf(&self) -> bool {
        &&& self.design_len() >= 7
        &&& self.design_len() % 4 == 3
        &&& self.outer_taps().len() == (self.design_len() + 1) / 4
        &&& self.carried().len() == self.design_len() - 1
        &&& self.next_kept() < 2
    }

    /// Everything but the samples and the phase is as it was.
    pub open spec fn same_design(&self, other: &Self) -> bool {
        &&& self.outer_taps() == other.outer_taps()
        &&& self.centre_tap() == other.centre_tap()
        &&& self.silence() == other.silence()
        &&& self.design_len() == other.design_len()
    }

    /// Builds a half-band stage from a design of length `4k + 3`, which is what makes the
    /// zero pattern land correctly around an integer centre.
    pub fn new(design: &[T], zero: T) -> (stage: Self)
        requires
            design@.len() >= 7,
            design@.len() % 4 == 3,
        ensures
            stage.wf(),
            stage.design_len() == design@.len(),
            stage.centre_tap() == design@[design@.len() as int / 2],
            forall|t: int|
                0 <= t < stage.outer_taps().len() ==> #[trigger] stage.outer_taps()[t]
                    == design@[2 * t],
            stage.carried() == Seq::new((design@.len() - 1) as nat, |i: int| zero),
            stage.silence() == zero,
            stage.next_kept() == 0,
    {
        let ntaps: usize = design.len();
        let centre: usize = ntaps / 2;
        // Taps at odd distances from the centre are the only nonzero ones off-centre.
        let mut odd_taps: Vec<T> = Vec::new();
        let mut k: usize = 0;
        while k < centre
            invariant
                ntaps == design@.len(),
                ntaps % 4 == 3,
                centre == ntaps / 2,
                k % 2 == 0,
                k <= centre + 1,
                odd_taps@.len() == k / 2,
                forall|t: int| 0 <= t < odd_taps@.len() ==> #[trigger] odd_taps@[t] == design@[2 * t],
            decreases centre + 1 - k,
        {
            odd_taps.push(design[k]);
            k += 2;
        }
        Self {
            odd_taps,
            centre: design[centre],
            history: filled(ntaps - 1, zero),
            scratch: Vec::new(),
            zero,
            ntaps,
            phase: 0,
        }
    }

    pub fn taps(&self) -> (n: usize)
        ensures
            n == self.design_len(),
    {
        self.ntaps
    }

    pub fn output_len(&self, n: usize) -> (len: usize)
        ensures
            len == most_kept(2, n as nat),
    {
        most_outputs(n, 2)
    }

    pub fn reset(&mut self)
        requires
            old(self).wf(),
        ensures
            final(self).wf(),
            final(self).same_design(old(self)),
            final(self).next_kept() == 0,
            final(self).carried() == Seq::new(
                old(self).carried().len(),
                |i: int| old(self).silence(),
            ),
    {
        fill_all(&mut self.history, self.zero);
        self.phase = 0;
    }

    /// Folds one window.
    fn fold<A: Fn(T, T) -> T, B: Fn(T, T, T, T) -> T>(
        &self,
        window: &[T],
        first: &A,
        step: &B,
    ) -> (y: T)
        requires
            self.wf(),
            window@.len() == self.design_len(),
            forall|a: T, b: T| call_requires(*first, (a, b)),
            forall|a: T, b: T, c: T, d: T| call_requires(*step, (a, b, c, d)),
        ensures
            folded_in(*first, *step, self.centre_tap(), self.outer_taps(), window@, y),
    {
        let mut acc: T = first(self.centre, window[self.ntaps / 2]);
        let ghost mut accs: Seq<T> = seq![acc];
        let mut t: usize = 0;
        while t < self.odd_taps.len()
            invariant
                self.wf(),
                window@.len() == self.design_len(),
                t <= self.odd_taps@.len(),
                forall|a: T, b: T, c: T, d: T| call_requires(*step, (a, b, c, d)),
                folds_through(
                    *first,
                    *step,
                    self.centre_tap(),
                    self.outer_taps(),
                    window@,
                    accs,
                    t as int,
                ),
                acc == accs.last(),
            decreases self.odd_taps@.len() - t,
        {
            // Pair up samples equidistant from the centre: the filter is symmetric, so each
            // tap multiplies a sum rather than two separate products.
            let offset: usize = 2 * t;
            let ghost before = accs;
            acc = step(acc, self.odd_taps[t], window[offset], window[self.ntaps - 1 - offset]);
            proof {
                accs = accs.push(acc);
                assert forall|u: int| #![trigger accs[u]] 0 <= u < t + 1 implies call_ensures(
                    *step,
                    (
                        accs[u],
                        self.outer_taps()[u],
                        window@[2 * u],
                        window@[window@.len() - 1 - 2 * u],
                    ),
                    accs[u + 1],
                ) by {
                    assert(accs[u] == before[u]);
                    if u < t {
                        assert(accs[u + 1] == before[u + 1]);
                    }
                }
            }
            t += 1;
        }
        acc
    }

    /// Returns the number of output samples written.
    ///
    /// `first` starts an output from the centre tap and sample; `step` adds an outer tap with
    /// its two samples.
    pub fn process<A: Fn(T, T) -> T, B: Fn(T, T, T, T) -> T>(
        &mut self,
        input: &[T],
        output: &mut [T],
        first: &A,
        step: &B,
    ) -> (written: usize)
        requires
            old(self).wf(),
            old(output)@.len() >= most_kept(2, input@.len()),
            forall|a: T, b: T| call_requires(*first, (a, b)),
            forall|a: T, b: T, c: T, d: T| call_requires(*step, (a, b, c, d)),
        ensures
            final(self).wf(),
            final(self).same_design(old(self)),
            final(self).carried() == history_after(old(self).carried(), input@),
            final(self).next_kept() == phase_after(old(self).next_kept(), 2, input@.len()),
            written == kept_count(old(self).next_kept(), 2, input@.len()),
            final(output)@.len() == old(output)@.len(),
            forall|j: int|
                0 <= j < written ==> folded_in(
                    *first,
                    *step,
                    old(self).centre_tap(),
                    old(self).outer_taps(),
                    window_at(
                        old(self).carried(),
                        input@,
                        old(self).next_kept() + 2 * j,
                        old(self).design_len() as int,
                    ),
                    #[trigger] final(output)@[j],
                ),
            forall|j: int|
                written <= j < old(output)@.len() ==> #[trigger] final(output)@[j] == old(
                    output,
                )@[j],
    {
        let ntaps: usize = self.ntaps;
        let ghost start = self.history@;
        let ghost phase = self.phase as nat;
        refill(&mut self.scratch, self.history.as_slice(), input);
        let total: usize = self.scratch.len();
        let n: usize = input.len();
        proof {
            kept_count_is_bounded(phase, 2, n as nat);
        }
        let mut written: usize = 0;
        let mut k: usize = self.phase;
        while k < n
            invariant
                n == input@.len(),
                ntaps == self.ntaps,
                self.wf(),
                self.same_design(old(self)),
                start == old(self).carried(),
                phase == old(self).next_kept(),
                self.history@ == start,
                self.scratch@ == start + input@,
                total == self.scratch@.len(),
                output@.len() == old(output)@.len(),
                output@.len() >= kept_count(phase, 2, n as nat),
                forall|a: T, b: T| call_requires(*first, (a, b)),
                forall|a: T, b: T, c: T, d: T| call_requires(*step, (a, b, c, d)),
                k == phase + 2 * written,
                k < n + 2,
                written + kept_count(k as nat, 2, n as nat) == kept_count(phase, 2, n as nat),
                phase_after(k as nat, 2, n as nat) == phase_after(phase, 2, n as nat),
                forall|j: int|
                    0 <= j < written ==> folded_in(
                        *first,
                        *step,
                        self.centre_tap(),
                        self.outer_taps(),
                        window_at(start, input@, phase + 2 * j, ntaps as int),
                        #[trigger] output@[j],
                    ),
                forall|j: int|
                    written <= j < output@.len() ==> #[trigger] output@[j] == old(output)@[j],
            decreases n + 2 - k,
        {
            let window = vstd::slice::slice_subrange(self.scratch.as_slice(), k, k + ntaps);
            assert(window@ == window_at(start, input@, phase + 2 * written, ntaps as int));
            let y = self.fold(window, first, step);
            output[written] = y;
            written += 1;
            k += 2;
        }
        self.phase = k - n;
        keep_tail(&mut self.history, &self.scratch, n);
        written
    }
}

/// The shortcut leaves nothing out: a tap that is neither the centre nor at one of the
/// forced zeroes is one of the outer taps or the mirror image of one.
pub proof fn halfband_shortcut_covers_every_tap(ntaps: int, k: int) -> (t: int)
    requires
        ntaps >= 7,
        ntaps % 4 == 3,
        0 <= k < ntaps,
        k != ntaps / 2,
        !halfband_zero(k, ntaps),
    ensures
        0 <= t < (ntaps + 1) / 4,
        k == 2 * t || k == ntaps - 1 - 2 * t,
{
    if k < ntaps / 2 {
        k / 2
    } else {
        (ntaps - 1 - k) / 2
    }
}

/// A filter convolves: for output `k` of a block, tap `j` meets the sample that came `j` before
/// input `k`, from this block or, further back, from what was carried over.
pub proof fn taps_meet_earlier_samples<T>(
    history: Seq<T>,
    input: Seq<T>,
    taps: Seq<T>,
    k: int,
    j: int,
)
    requires
        taps.len() > 0,
        history.len() == taps.len() - 1,
        0 <= k < input.len(),
        0 <= j < taps.len(),
    ensures
        ({
            let window = window_at(history, input, k, taps.len() as int);
            let place = taps.len() - 1 - j;
            &&& window.len() == taps.len()
            &&& taps.reverse()[place] == taps[j]
            &&& window[place] == if j <= k {
                input[k - j]
            } else {
                history[history.len() + k - j]
            }
        }),
{
}

/// What a block leaves behind is the samples that were seen last.
pub proof fn history_is_what_was_seen_last<T>(history: Seq<T>, input: Seq<T>, j: int)
    requires
        0 <= j < history.len(),
    ensures
        history_after(history, input).len() == history.len(),
        history_after(history, input)[history.len() - 1 - j] == if j < input.len() {
            input[input.len() - 1 - j]
        } else {
            history[history.len() - 1 - (j - input.len())]
        },
{
}

/// Keeping one sample in `factor` loses none and adds none: the samples kept of a block, one
/// `factor` apart, end where the next one to keep lies beyond the block.
pub proof fn kept_samples_are_evenly_spaced(phase: nat, factor: nat, n: nat)
    requires
        factor > 0,
    ensures
        phase + kept_count(phase, factor, n) * factor == n + phase_after(phase, factor, n),
        phase < n ==> phase_after(phase, factor, n) < factor,
    decreases remaining(n, phase),
{
    if phase < n {
        kept_samples_are_evenly_spaced(phase + factor, factor, n);
        let c = kept_count(phase + factor, factor, n);
        assert((1 + c) * factor == factor + c * factor) by (nonlinear_arith);
        if phase + factor >= n {
            assert(phase_after(phase + factor, factor, n) == phase + factor - n);
        }
    } else {
        assert(0 * factor == 0) by (nonlinear_arith);
    }
}

/// A half-band design is zero at every other tap either side of its centre: the tap next to the
/// centre is not, the centre is not, and the pattern is the same on both sides.
pub proof fn halfband_zeroes_alternate(ntaps: int, d: int)
    requires
        ntaps % 2 == 1,
        0 <= d <= ntaps / 2,
    ensures
        halfband_zero(ntaps / 2 + d, ntaps) <==> d > 0 && d % 2 == 0,
        halfband_zero(ntaps / 2 - d, ntaps) <==> halfband_zero(ntaps / 2 + d, ntaps),
{
}

/// The bound on the samples kept is the block divided by the factor, rounded up, and a block that
/// begins with a sample to keep reaches it.
pub proof fn most_kept_is_reached(factor: nat, n: nat)
    requires
        factor > 0,
    ensures
        n <= most_kept(factor, n) * factor < n + factor,
        kept_count(0, factor, n) == most_kept(factor, n),
{
    let q = n as int / factor as int;
    let r = n as int % factor as int;
    vstd::arithmetic::div_mod::lemma_fundamental_div_mod(n as int, factor as int);
    kept_samples_are_evenly_spaced(0, factor, n);
    let kept = kept_count(0, factor, n) as int;
    let most = most_kept(factor, n) as int;
    assert((q + 1) * factor == factor * q + factor) by (nonlinear_arith);
    assert(q * factor == factor * q) by (nonlinear_arith);
    if n > 0 {
        assert(kept * factor < n + factor && n <= kept * factor);
        assert(kept == most) by (nonlinear_arith)
            requires
                n <= kept * factor < n + factor,
                n <= most * factor < n + factor,
                factor > 0,
        ;
    } else {
        assert(q == 0) by (nonlinear_arith)
            requires
                0 == factor * q + r,
                0 <= r < factor,
        ;
    }
}

} // verus!
