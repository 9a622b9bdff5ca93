//! Front-end conditioning: interleaved bytes into two branches, corrected by what earlier
//! blocks have shown.

use vstd::prelude::*;

verus! {

/// How much of a transfer is used: what fits the buffer, in whole pairs.
pub fn usable_bytes(bytes: usize, capacity: usize) -> (usable: usize)
    ensures
        usable == (if bytes < capacity {
            bytes
        } else {
            capacity
        }) as int / 2 * 2,
{
    let limit: usize = if bytes < capacity {
        bytes
    } else {
        capacity
    };
    limit / 2 * 2
}

/// Unpacks interleaved bytes into `i` and `q` through a table of levels, and returns the
/// number of complex samples written.
///
/// Only 256 inputs exist, so the conversion is a table lookup rather than a widen and a
/// divide.
pub fn unpack<T: Copy>(bytes: &[u8], levels: &[T; 256], i: &mut [T], q: &mut [T]) -> (n: usize)
    requires
        bytes@.len() % 2 == 0,
        old(i)@.len() >= bytes@.len() / 2,
        old(q)@.len() >= bytes@.len() / 2,
    ensures
        n == bytes@.len() / 2,
        final(i)@.len() == old(i)@.len(),
        final(q)@.len() == old(q)@.len(),
        forall|k: int| 0 <= k < n ==> #[trigger] final(i)@[k] == levels@[bytes@[2 * k] as int],
        forall|k: int| 0 <= k < n ==> #[trigger] final(q)@[k] == levels@[bytes@[2 * k + 1] as int],
        forall|k: int| n <= k < old(i)@.len() ==> #[trigger] final(i)@[k] == old(i)@[k],
        forall|k: int| n <= k < old(q)@.len() ==> #[trigger] final(q)@[k] == old(q)@[k],
{
    let total: usize = bytes.len();
    let n: usize = total / 2;
    let mut k: usize = 0;
    while k < n
        invariant
            k <= n,
            total == 2 * n,
            bytes@.len() == total,
            i@.len() == old(i)@.len(),
            q@.len() == old(q)@.len(),
            i@.len() >= n,
            q@.len() >= n,
            forall|j: int| 0 <= j < k ==> #[trigger] i@[j] == levels@[bytes@[2 * j] as int],
            forall|j: int| 0 <= j < k ==> #[trigger] q@[j] == levels@[bytes@[2 * j + 1] as int],
            forall|j: int| k <= j < i@.len() ==> #[trigger] i@[j] == old(i)@[j],
            forall|j: int| k <= j < q@.len() ==> #[trigger] q@[j] == old(q)@[j],
        decreases n - k,
    {
        i[k] = levels[bytes[2 * k] as usize];
        q[k] = levels[bytes[2 * k + 1] as usize];
        k += 1;
    }
    n
}

/// `c` is what a measurement of two branches gives.
pub open spec fn measured<T, C, F: Fn(&[T], &[T]) -> C>(measure: F, i: Seq<T>, q: Seq<T>, c: C) -> bool {
    exists|a: &[T], b: &[T]| a@ == i && b@ == q && #[trigger] call_ensures(measure, (a, b), c)
}

/// The measurement takes any two branches of the same length.
pub open spec fn measures_pairs<T, C, F: Fn(&[T], &[T]) -> C>(measure: F) -> bool {
    forall|a: &[T], b: &[T]| a@.len() == b@.len() ==> #[trigger] call_requires(measure, (a, b))
}

/// Unpacks receiver bytes and removes the front end's systematic errors.
///
/// The corrections are of any kind; the caller says how they apply to a sample, how the error
/// left in a block is measured, and how that composes onto an estimate.
#[derive(Debug, Clone)]
pub struct IqConverter<T, C> {
    levels: [T; 256],
    neutral: C,
    corrections: C,
    /// Estimates are not applied until the first block has been observed.
    primed: bool,
}

impl<T: Copy, C: Copy> IqConverter<T, C> {
    /// What each byte stands for.
    pub closed spec fn level_table(&self) -> Seq<T> {
        self.levels@
    }

    /// The estimate that corrects nothing.
    pub closed spec fn no_correction(&self) -> C {
        self.neutral
    }

    /// The running estimate.
    pub closed spec fn estimate(&self) -> C {
        self.corrections
    }

    /// Whether a block has been observed.
    pub closed spec fn observed(&self) -> bool {
        self.primed
    }

    pub fn new(levels: [T; 256], neutral: C) -> (converter: Self)
        ensures
            converter.level_table() == levels@,
            converter.no_correction() == neutral,
            converter.estimate() == neutral,
            !converter.observed(),
    {
        Self { levels, neutral, corrections: neutral, primed: false }
    }

    pub fn corrections(&self) -> (estimate: C)
        ensures
            estimate == self.estimate(),
    {
        self.corrections
    }

    /// Resets the adaptive state. Call after retuning, since the errors are
    /// frequency-dependent and the old estimate is worse than no estimate.
    pub fn reset(&mut self)
        ensures
            final(self).level_table() == old(self).level_table(),
            final(self).no_correction() == old(self).no_correction(),
            final(self).estimate() == old(self).no_correction(),
            !final(self).observed(),
    {
        self.corrections = self.neutral;
        self.primed = false;
    }

    /// Unpacks `bytes` into `i` and `q`, applying the corrections learned so far, then
    /// updates those estimates from what it just saw. Returns the number of complex samples
    /// written.
    ///
    /// The previous blocks' estimate is used before this block is folded in. Using a block's
    /// own statistics to correct itself would partially cancel real signal that happens to sit
    /// near DC.
    pub fn process<A: Fn(C, T, T) -> (T, T), B: Fn(&[T], &[T]) -> C, D: Fn(C, C) -> C>(
        &mut self,
        bytes: &[u8],
        i: &mut [T],
        q: &mut [T],
        correct: &A,
        measure: &B,
        compose: &D,
    ) -> (n: usize)
        requires
            bytes@.len() % 2 == 0,
            old(i)@.len() >= bytes@.len() / 2,
            old(q)@.len() >= bytes@.len() / 2,
            forall|c: C, x: T, y: T| call_requires(*correct, (c, x, y)),
            measures_pairs(*measure),
            forall|a: C, b: C| call_requires(*compose, (a, b)),
        ensures
            n == bytes@.len() / 2,
            final(i)@.len() == old(i)@.len(),
            final(q)@.len() == old(q)@.len(),
            forall|k: int|
                #![trigger final(i)@[k]]
                #![trigger final(q)@[k]]
                0 <= k < n ==> {
                    let x = old(self).level_table()[bytes@[2 * k] as int];
                    let y = old(self).level_table()[bytes@[2 * k + 1] as int];
                    if old(self).observed() {
                        call_ensures(
                            *correct,
                            (old(self).estimate(), x, y),
                            (final(i)@[k], final(q)@[k]),
                        )
                    } else {
                        final(i)@[k] == x && final(q)@[k] == y
                    }
                },
            forall|k: int| n <= k < old(i)@.len() ==> #[trigger] final(i)@[k] == old(i)@[k],
            forall|k: int| n <= k < old(q)@.len() ==> #[trigger] final(q)@[k] == old(q)@[k],
            final(self).level_table() == old(self).level_table(),
            final(self).no_correction() == old(self).no_correction(),
            final(self).observed() == (old(self).observed() || n > 0),
            if n == 0 {
                final(self).estimate() == old(self).estimate()
            } else {
                exists|left: C| #[trigger]
                    measured(*measure, final(i)@.take(n as int), final(q)@.take(n as int), left) && (
                    if old(self).observed() {
                        call_ensures(*compose, (old(self).estimate(), left), final(self).estimate())
                    } else {
                        final(self).estimate() == left
                    })
            },
    {
        let n: usize = unpack(bytes, &self.levels, i, q);
        if self.primed {
            let ghost plain_i = i@;
            let ghost plain_q = q@;
            let mut k: usize = 0;
            while k < n
                invariant
                    k <= n,
                    self == old(self),
                    i@.len() == plain_i.len(),
                    q@.len() == plain_q.len(),
                    i@.len() >= n,
                    q@.len() >= n,
                    forall|c: C, x: T, y: T| call_requires(*correct, (c, x, y)),
                    forall|j: int|
                        #![trigger i@[j]]
                        #![trigger q@[j]]
                        0 <= j < k ==> call_ensures(
                            *correct,
                            (self.corrections, plain_i[j], plain_q[j]),
                            (i@[j], q@[j]),
                        ),
                    forall|j: int| k <= j < i@.len() ==> #[trigger] i@[j] == plain_i[j],
                    forall|j: int| k <= j < q@.len() ==> #[trigger] q@[j] == plain_q[j],
                decreases n - k,
            {
                let (x, y) = correct(self.corrections, i[k], q[k]);
                i[k] = x;
                q[k] = y;
                k += 1;
            }
        }
        if n > 0 {
            let seen_i = vstd::slice::slice_subrange(i, 0, n);
            let seen_q = vstd::slice::slice_subrange(q, 0, n);
            let left: C = measure(seen_i, seen_q);
            assert(measured(*measure, i@.take(n as int), q@.take(n as int), left));
            if self.primed {
                // What was measured is the error still remaining, not the total error, so it
                // is composed onto the running estimate.
                self.corrections = compose(self.corrections, left);
            } else {
                // Nothing has been corrected yet, so what remains is the whole error.
                self.corrections = left;
                self.primed = true;
            }
        }
        n
    }
}

} // verus!
