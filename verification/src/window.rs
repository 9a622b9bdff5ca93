//! Window functions: which one, and over what span.
//!
//! Two conventions matter and are routinely conflated. Spectral analysis wants the
//! *periodic* form, where the window has period `n` and its last sample is the one that
//! would wrap onto the first; filter design wants the *symmetric* form, which is a
//! palindrome of length `n`.

use vstd::prelude::*;

verus! {

#[derive(Debug, Clone, Copy, PartialEq, Eq, Structural)]
pub enum Window {
    Rectangular,
    Hann,
    Hamming,
    /// Four-term Blackman-Harris. Sidelobes below -92 dB, which is what a waterfall needs
    /// to keep a strong neighbouring carrier from smearing across the display.
    BlackmanHarris,
    /// Kaiser, parameterised by beta scaled by 100 so the enum stays `Eq` and hashable.
    Kaiser(u32),
}

/// The span from the first to the last sample of a symmetric window of length `n`, which is
/// at least one.
pub fn symmetric_span(n: usize) -> (span: usize)
    ensures
        span == (if n <= 2 {
            1
        } else {
            n - 1
        }),
{
    if n <= 2 {
        1
    } else {
        n - 1
    }
}

} // verus!
