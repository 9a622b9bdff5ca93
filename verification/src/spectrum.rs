//! Spectrum rows for the display.

use vstd::prelude::*;

use crate::fir::filled;

verus! {

/// An average across frames, which quiets the display without hiding short-lived signals.
#[derive(Debug, Clone)]
pub struct Averager<T> {
    averaged: Vec<T>,
    /// The first frame is taken as it is.
    primed: bool,
}

impl<T: Copy> Averager<T> {
    /// The average so far.
    pub closed spec fn row(&self) -> Seq<T> {
        self.averaged@
    }

    /// Whether a frame has been taken since the last reset.
    pub closed spec fn started(&self) -> bool {
        self.primed
    }

    /// Builds an average of rows of `size` bins that reads `floor` before the first frame.
    pub fn new(size: usize, floor: T) -> (averager: Self)
        ensures
            averager.row() == Seq::new(size as nat, |k: int| floor),
            !averager.started(),
    {
        Self { averaged: filled(size, floor), primed: false }
    }

    /// The bins of the average.
    pub fn bins(&self) -> (bins: &[T])
        ensures
            bins@ == self.row(),
    {
        self.averaged.as_slice()
    }

    /// Takes the next frame as a new start.
    pub fn reset(&mut self)
        ensures
            final(self).row() == old(self).row(),
            !final(self).started(),
    {
        self.primed = false;
    }

    /// Takes a frame: as it is if it is the first, and otherwise blended into the average bin
    /// by bin.
    pub fn push<F: Fn(T, T) -> T>(&mut self, frame: &[T], blend: &F)
        requires
            frame@.len() == old(self).row().len(),
            forall|a: T, b: T| call_requires(*blend, (a, b)),
        ensures
            final(self).started(),
            final(self).row().len() == old(self).row().len(),
            if old(self).started() {
                forall|k: int|
                    0 <= k < frame@.len() ==> call_ensures(
                        *blend,
                        (old(self).row()[k], frame@[k]),
                        #[trigger] final(self).row()[k],
                    )
            } else {
                final(self).row() == frame@
            },
    {
        let ghost before = self.averaged@;
        let n: usize = self.averaged.len();
        let mut k: usize = 0;
        while k < n
            invariant
                k <= n,
                n == self.averaged@.len(),
                n == before.len(),
                n == frame@.len(),
                self.primed == old(self).primed,
                forall|a: T, b: T| call_requires(*blend, (a, b)),
                forall|j: int| k <= j < n ==> #[trigger] self.averaged@[j] == before[j],
                forall|j: int|
                    0 <= j < k ==> if self.primed {
                        call_ensures(*blend, (before[j], frame@[j]), #[trigger] self.averaged@[j])
                    } else {
                        self.averaged@[j] == frame@[j]
                    },
            decreases n - k,
        {
            let y: T = if self.primed {
                blend(self.averaged[k], frame[k])
            } else {
                frame[k]
            };
            self.averaged.set(k, y);
            k += 1;
        }
        if !self.primed {
            assert(self.averaged@ =~= frame@);
        }
        self.primed = true;
    }
}

/// Bins that share one row of a text plot, which keeps it to a screenful.
pub const BINS_PER_ROW: usize = 16;

/// The bins of a row of a text plot.
pub fn row_bins(row: usize, size: usize) -> (range: (usize, usize))
    requires
        row < size / BINS_PER_ROW,
    ensures
        range.0 == row * BINS_PER_ROW,
        range.1 == range.0 + BINS_PER_ROW,
        range.1 <= size,
{
    (row * BINS_PER_ROW, row * BINS_PER_ROW + BINS_PER_ROW)
}

/// The bins nearest the centre of a transform of `size` bins, where a tuned channel sits: the
/// last six and the first six.
pub fn centre_bins(size: usize) -> (bins: Vec<usize>)
    requires
        size >= 12,
    ensures
        bins@.len() == 12,
        forall|k: int|
            0 <= k < 12 ==> #[trigger] bins@[k] == if k < 6 {
                size - 6 + k
            } else {
                k - 6
            },
{
    let mut bins: Vec<usize> = Vec::new();
    let mut k: usize = 0;
    while k < 12
        invariant
            k <= 12,
            size >= 12,
            bins@.len() == k,
            forall|j: int|
                0 <= j < k ==> #[trigger] bins@[j] == if j < 6 {
                    size - 6 + j
                } else {
                    j - 6
                },
        decreases 12 - k,
    {
        if k < 6 {
            bins.push(size - 6 + k);
        } else {
            bins.push(k - 6);
        }
        k += 1;
    }
    bins
}

/// Rows of a text plot hold sixteen bins each, and one begins where the one before it ends.
pub proof fn rows_follow_each_other(row: int)
    ensures
        BINS_PER_ROW == 16,
        row * BINS_PER_ROW + BINS_PER_ROW == (row + 1) * BINS_PER_ROW,
{
    assert(row * BINS_PER_ROW + BINS_PER_ROW == (row + 1) * BINS_PER_ROW) by (nonlinear_arith);
}

} // verus!
