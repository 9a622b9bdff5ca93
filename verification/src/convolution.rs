//! What the filters compute when their arithmetic is exact.
//!
//! The filters in [`crate::fir`] and [`crate::resample`] are stated for whatever arithmetic they
//! are given. Over a commutative ring their outputs are the sums that define them: every tap
//! times its sample.

use vstd::prelude::*;

use crate::dft::{
    is_ring, products_distribute, sums_associate, sums_commute, total, totals_agree,
    zero_adds_nothing, zero_scales_to_zero, Ring,
};
use crate::fir::{folded_in, folds_through, halfband_zero, window_at};
use crate::resample::{branch_of, resampled, summed, sums_through};

verus! {

/// The product of a tap and the sample that it meets.
pub open spec fn product_at<T, C>(
    r: Ring<C>,
    value: spec_fn(T) -> C,
    taps: Seq<T>,
    window: Seq<T>,
    k: int,
) -> C {
    (r.times)(value(taps[k]), value(window[k]))
}

/// Every tap times its sample, added up.
pub open spec fn convolved<T, C>(
    r: Ring<C>,
    value: spec_fn(T) -> C,
    taps: Seq<T>,
    window: Seq<T>,
) -> C {
    total(r, |k: int| product_at(r, value, taps, window, k), taps.len())
}

/// A step adds exactly the product of a tap and a sample.
pub open spec fn exact_step<T, C, F: Fn(T, T, T) -> T>(
    step: F,
    r: Ring<C>,
    value: spec_fn(T) -> C,
) -> bool {
    forall|acc: T, tap: T, sample: T, out: T| #[trigger]
        call_ensures(step, (acc, tap, sample), out) ==> value(out) == (r.plus)(
            value(acc),
            (r.times)(value(tap), value(sample)),
        )
}

/// A branch of the resampler gives every tap times its sample, added up.
pub proof fn branches_convolve<T, C, F: Fn(T, T, T) -> T>(
    step: F,
    r: Ring<C>,
    value: spec_fn(T) -> C,
    zero: T,
    branch: Seq<T>,
    window: Seq<T>,
    y: T,
)
    requires
        is_ring(r),
        exact_step(step, r, value),
        value(zero) == r.zero,
        branch.len() == window.len(),
        summed(step, zero, branch, window, y),
    ensures
        value(y) == convolved(r, value, branch, window),
{
    let m = branch.len() as int;
    let accs = choose|accs: Seq<T>| #[trigger]
        sums_through(step, zero, branch, window, accs, m) && y == accs.last();
    partial_sums(step, r, value, zero, branch, window, accs, m);
}

proof fn partial_sums<T, C, F: Fn(T, T, T) -> T>(
    step: F,
    r: Ring<C>,
    value: spec_fn(T) -> C,
    zero: T,
    branch: Seq<T>,
    window: Seq<T>,
    accs: Seq<T>,
    n: int,
)
    requires
        is_ring(r),
        exact_step(step, r, value),
        value(zero) == r.zero,
        sums_through(step, zero, branch, window, accs, branch.len() as int),
        0 <= n <= branch.len(),
    ensures
        value(accs[n]) == total(
            r,
            |k: int| product_at(r, value, branch, window, k),
            n as nat,
        ),
    decreases n,
{
    if n > 0 {
        partial_sums(step, r, value, zero, branch, window, accs, n - 1);
        assert(call_ensures(step, (accs[n - 1], branch[n - 1], window[n - 1]), accs[n - 1 + 1]));
    }
}

/// The terms of a sum from `from` on.
spec fn shifted_term<C>(term: spec_fn(int) -> C, from: int) -> spec_fn(int) -> C {
    |i: int| term(from + i)
}

/// A sum without its first term.
proof fn first_term_apart<C>(r: Ring<C>, term: spec_fn(int) -> C, from: int, n: nat)
    requires
        is_ring(r),
        n > 0,
    ensures
        total(r, shifted_term(term, from), n) == (r.plus)(
            term(from),
            total(r, shifted_term(term, from + 1), (n - 1) as nat),
        ),
    decreases n,
{
    let here = shifted_term(term, from);
    let next = shifted_term(term, from + 1);
    if n == 1 {
        reveal_with_fuel(total, 2);
        zero_adds_nothing(r, term(from));
        assert(here(0) == term(from));
    } else {
        let m = (n - 1) as nat;
        first_term_apart(r, term, from, m);
        assert(here(n - 1) == next(n - 2));
        sums_associate(r, term(from), total(r, next, (m - 1) as nat), next(n - 2));
    }
}

/// A sum without its first and its last term.
proof fn ends_apart<C>(r: Ring<C>, term: spec_fn(int) -> C, from: int, n: nat)
    requires
        is_ring(r),
        n >= 2,
    ensures
        total(r, shifted_term(term, from), n) == (r.plus)(
            (r.plus)(term(from), term(from + n - 1)),
            total(r, shifted_term(term, from + 1), (n - 2) as nat),
        ),
{
    let here = shifted_term(term, from);
    let next = shifted_term(term, from + 1);
    let (a, z) = (term(from), term(from + n - 1));
    let inner = total(r, next, (n - 2) as nat);
    first_term_apart(r, term, from, n);
    assert(next(n - 2) == z);
    assert(total(r, next, (n - 1) as nat) == (r.plus)(inner, z));
    sums_commute(r, inner, z);
    sums_associate(r, a, z, inner);
}

/// A half-band step adds exactly a tap times the sum of two samples, and the first of them is
/// exactly the centre's product.
pub open spec fn exact_fold<T, C, A: Fn(T, T) -> T, B: Fn(T, T, T, T) -> T>(
    first: A,
    step: B,
    r: Ring<C>,
    value: spec_fn(T) -> C,
) -> bool {
    &&& forall|tap: T, sample: T, out: T| #[trigger]
        call_ensures(first, (tap, sample), out) ==> value(out) == (r.times)(
            value(tap),
            value(sample),
        )
    &&& forall|acc: T, tap: T, a: T, b: T, out: T| #[trigger]
        call_ensures(step, (acc, tap, a, b), out) ==> value(out) == (r.plus)(
            value(acc),
            (r.times)(value(tap), (r.plus)(value(a), value(b))),
        )
}

/// A tap is the same as the one equally far from the other end.
pub open spec fn mirrored<T>(design: Seq<T>, k: int) -> bool {
    design[k] == design[design.len() - 1 - k]
}

/// A tap is zero where a half-band design is.
pub open spec fn vanishes<T, C>(
    r: Ring<C>,
    value: spec_fn(T) -> C,
    design: Seq<T>,
    k: int,
) -> bool {
    halfband_zero(k, design.len() as int) ==> value(design[k]) == r.zero
}

/// The products of the two taps of a pair.
spec fn pair_at<T, C>(
    r: Ring<C>,
    value: spec_fn(T) -> C,
    design: Seq<T>,
    window: Seq<T>,
    t: int,
) -> C {
    (r.plus)(
        product_at(r, value, design, window, 2 * t),
        product_at(r, value, design, window, design.len() - 1 - 2 * t),
    )
}

/// The half-band shortcut leaves nothing out: for a symmetric design that is zero where a
/// half-band design is, its output is every tap times its sample, added up.
#[verifier::spinoff_prover]
pub proof fn halfband_stages_convolve<T, C, A: Fn(T, T) -> T, B: Fn(T, T, T, T) -> T>(
    first: A,
    step: B,
    r: Ring<C>,
    value: spec_fn(T) -> C,
    design: Seq<T>,
    outer: Seq<T>,
    window: Seq<T>,
    y: T,
)
    requires
        is_ring(r),
        exact_fold(first, step, r, value),
        design.len() >= 7,
        design.len() % 4 == 3,
        window.len() == design.len(),
        outer.len() == (design.len() + 1) / 4,
        forall|t: int| 0 <= t < outer.len() ==> #[trigger] outer[t] == design[2 * t],
        forall|k: int| 0 <= k < design.len() ==> #[trigger] mirrored(design, k),
        forall|k: int| 0 <= k < design.len() ==> #[trigger] vanishes(r, value, design, k),
        folded_in(first, step, design[design.len() as int / 2], outer, window, y),
    ensures
        value(y) == convolved(r, value, design, window),
{
    let len = design.len() as int;
    let c = len / 2;
    let m = outer.len() as int;
    let accs = choose|accs: Seq<T>| #[trigger]
        folds_through(first, step, design[c], outer, window, accs, m) && y == accs.last();
    let term = |k: int| product_at(r, value, design, window, k);
    let pairs = |t: int| pair_at(r, value, design, window, t);
    folded_pairs(first, step, r, value, design, outer, window, accs, m);
    peeled_pairs(r, value, design, window, m - 1);
    // What is left inside the last but one pair: that pair and the centre.
    let k = m - 1;
    let inside = total(r, shifted_term(term, 2 * k), 3);
    ends_apart(r, term, 2 * k, 3);
    reveal_with_fuel(total, 2);
    assert(shifted_term(term, 2 * k + 1)(0) == term(c));
    zero_adds_nothing(r, term(c));
    assert(inside == (r.plus)(pairs(k), term(c)));
    let earlier = total(r, pairs, k as nat);
    sums_associate(r, earlier, pairs(k), term(c));
    sums_commute(r, total(r, pairs, m as nat), term(c));
    let whole = shifted_term(term, 0);
    totals_agree(r, whole, term, design.len());
}

/// Folding adds one pair after another to the centre.
proof fn folded_pairs<T, C, A: Fn(T, T) -> T, B: Fn(T, T, T, T) -> T>(
    first: A,
    step: B,
    r: Ring<C>,
    value: spec_fn(T) -> C,
    design: Seq<T>,
    outer: Seq<T>,
    window: Seq<T>,
    accs: Seq<T>,
    n: int,
)
    requires
        is_ring(r),
        exact_fold(first, step, r, value),
        window.len() == design.len(),
        design.len() >= 7,
        design.len() % 4 == 3,
        outer.len() == (design.len() + 1) / 4,
        forall|t: int| 0 <= t < outer.len() ==> #[trigger] outer[t] == design[2 * t],
        forall|k: int| 0 <= k < design.len() ==> #[trigger] mirrored(design, k),
        folds_through(
            first,
            step,
            design[design.len() as int / 2],
            outer,
            window,
            accs,
            outer.len() as int,
        ),
        0 <= n <= outer.len(),
    ensures
        value(accs[n]) == (r.plus)(
            product_at(r, value, design, window, design.len() as int / 2),
            total(r, |t: int| pair_at(r, value, design, window, t), n as nat),
        ),
    decreases n,
{
    let pairs = |t: int| pair_at(r, value, design, window, t);
    let centre = product_at(r, value, design, window, design.len() as int / 2);
    if n == 0 {
        zero_adds_nothing(r, centre);
    } else {
        let t = n - 1;
        folded_pairs(first, step, r, value, design, outer, window, accs, t);
        let other = design.len() - 1 - 2 * t;
        assert(mirrored(design, 2 * t));
        assert(outer[t] == design[2 * t]);
        assert(call_ensures(
            step,
            (accs[t], outer[t], window[2 * t], window[window.len() - 1 - 2 * t]),
            accs[t + 1],
        ));
        products_distribute(
            r,
            value(outer[t]),
            value(window[2 * t]),
            value(window[other]),
        );
        assert((r.times)(
            value(outer[t]),
            (r.plus)(value(window[2 * t]), value(window[other])),
        ) == pairs(t));
        sums_associate(r, centre, total(r, pairs, t as nat), pairs(t));
    }
}

/// A whole sum is its outer pairs and what is left between them, the taps between two pairs
/// being zero.
#[verifier::spinoff_prover]
proof fn peeled_pairs<T, C>(
    r: Ring<C>,
    value: spec_fn(T) -> C,
    design: Seq<T>,
    window: Seq<T>,
    n: int,
)
    requires
        is_ring(r),
        design.len() >= 7,
        design.len() % 4 == 3,
        window.len() == design.len(),
        forall|k: int| 0 <= k < design.len() ==> #[trigger] vanishes(r, value, design, k),
        0 <= n < (design.len() + 1) / 4,
    ensures
        total(
            r,
            shifted_term(|k: int| product_at(r, value, design, window, k), 0),
            design.len(),
        ) == (r.plus)(
            total(r, |t: int| pair_at(r, value, design, window, t), n as nat),
            total(
                r,
                shifted_term(|k: int| product_at(r, value, design, window, k), 2 * n),
                (design.len() - 4 * n) as nat,
            ),
        ),
    decreases n,
{
    let len = design.len() as int;
    let term = |k: int| product_at(r, value, design, window, k);
    let pairs = |t: int| pair_at(r, value, design, window, t);
    if n == 0 {
        zero_adds_nothing(r, total(r, shifted_term(term, 0), design.len()));
    } else {
        let t = n - 1;
        peeled_pairs(r, value, design, window, t);
        let size = (len - 4 * t) as nat;
        ends_apart(r, term, 2 * t, size);
        ends_apart(r, term, 2 * t + 1, (size - 2) as nat);
        let (low, high) = (2 * t + 1, len - 2 - 2 * t);
        assert(vanishes(r, value, design, low) && vanishes(r, value, design, high));
        vanished_product(r, value, design, window, low);
        vanished_product(r, value, design, window, high);
        assert(term(low) == r.zero && term(high) == r.zero);
        zero_adds_nothing(r, r.zero);
        let rest = total(r, shifted_term(term, 2 * n), (len - 4 * n) as nat);
        zero_adds_nothing(r, rest);
        assert(2 * t + 1 + 1 == 2 * n);
        assert((size - 2 - 2) as nat == (len - 4 * n) as nat);
        assert(total(r, shifted_term(term, 2 * t), size) == (r.plus)(pairs(t), rest));
        sums_associate(r, total(r, pairs, t as nat), pairs(t), rest);
    }
}

/// A tap that is zero contributes nothing.
proof fn vanished_product<T, C>(
    r: Ring<C>,
    value: spec_fn(T) -> C,
    design: Seq<T>,
    window: Seq<T>,
    k: int,
)
    requires
        is_ring(r),
        0 <= k < design.len(),
        design.len() % 4 == 3,
        k % 2 == 1,
        k != design.len() as int / 2,
        vanishes(r, value, design, k),
    ensures
        product_at(r, value, design, window, k) == r.zero,
{
    assert(halfband_zero(k, design.len() as int));
    nothing_times(r, value(window[k]));
}

proof fn nothing_times<C>(r: Ring<C>, x: C)
    requires
        is_ring(r),
    ensures
        (r.times)(r.zero, x) == r.zero,
{
    zero_scales_to_zero(r, x);
    crate::dft::products_commute(r, r.zero, x);
}

/// Tap `i` of the branch that an output uses times the sample that it meets.
pub open spec fn branch_product<T, C>(
    r: Ring<C>,
    value: spec_fn(T) -> C,
    branches: Seq<T>,
    samples: Seq<T>,
    tpp: int,
    up: int,
    c: int,
    i: int,
) -> C {
    (r.times)(value(branches[c % up * tpp + i]), value(samples[c / up + i]))
}

/// The output due at position `c` of the fine grid is the branch for the part of the position
/// between two samples, tap by tap, with the samples up to the one at or before the position.
pub proof fn resampled_outputs_convolve<T, C, F: Fn(T, T, T) -> T>(
    step: F,
    r: Ring<C>,
    value: spec_fn(T) -> C,
    zero: T,
    branches: Seq<T>,
    tpp: int,
    up: int,
    history: Seq<T>,
    input: Seq<T>,
    c: int,
    y: T,
)
    requires
        is_ring(r),
        exact_step(step, r, value),
        value(zero) == r.zero,
        tpp >= 1,
        up >= 1,
        branches.len() == up * tpp,
        history.len() == tpp - 1,
        0 <= c < input.len() * up,
        resampled(step, zero, branches, tpp, up, history, input, c, y),
    ensures
        value(y) == total(
            r,
            |i: int| branch_product(r, value, branches, history + input, tpp, up, c, i),
            tpp as nat,
        ),
{
    let p = c % up;
    let at = c / up;
    assert(0 <= p * tpp && p * tpp + tpp <= up * tpp) by (nonlinear_arith)
        requires
            0 <= p < up,
            tpp >= 1,
    ;
    assert(0 <= at < input.len()) by (nonlinear_arith)
        requires
            at == c / up,
            0 <= c < input.len() * up,
            up >= 1,
    ;
    let branch = branch_of(branches, p, tpp);
    let window = window_at(history, input, at, tpp);
    branches_convolve(step, r, value, zero, branch, window, y);
    let one = |k: int| product_at(r, value, branch, window, k);
    let other = |i: int| branch_product(r, value, branches, history + input, tpp, up, c, i);
    assert forall|k: int| 0 <= k < tpp implies #[trigger] one(k) == other(k) by {
        assert(branch[k] == branches[p * tpp + k]);
        assert(window[k] == (history + input)[at + k]);
    }
    totals_agree(r, one, other, tpp as nat);
}

} // verus!
