//! The sum that defines the transform, and that the butterfly network computes it.
//!
//! The network in [`crate::fft`] is stated for whatever arithmetic it is given. Here that
//! arithmetic is exact: a commutative ring with a root of unity. Over it the network's output
//! is the defining sum, bin for bin.

use vstd::arithmetic::power2::{
    lemma2_to64, lemma_pow2_adds, lemma_pow2_pos, lemma_pow2_unfold, pow2,
};
use vstd::prelude::*;

use crate::fft::{
    crossed, leads, permuted, place_in_block, reversal_is_an_involution, reversal_is_bounded,
    reversed_bits, stage_done, stages_done, transformed, twiddle_placed, Signal,
};

verus! {

/// Exact arithmetic on values of type `C`.
#[verifier::reject_recursive_types(C)]
pub struct Ring<C> {
    pub zero: C,
    pub one: C,
    pub plus: spec_fn(C, C) -> C,
    pub times: spec_fn(C, C) -> C,
    pub opposite: spec_fn(C) -> C,
}

/// The laws of a commutative ring.
#[verifier::opaque]
pub open spec fn is_ring<C>(r: Ring<C>) -> bool {
    &&& forall|x: C, y: C| #[trigger] (r.plus)(x, y) == (r.plus)(y, x)
    &&& forall|x: C, y: C, z: C| #[trigger]
        (r.plus)((r.plus)(x, y), z) == (r.plus)(x, (r.plus)(y, z))
    &&& forall|x: C| #[trigger] (r.plus)(r.zero, x) == x
    &&& forall|x: C| #[trigger] (r.plus)(x, (r.opposite)(x)) == r.zero
    &&& forall|x: C, y: C| #[trigger] (r.times)(x, y) == (r.times)(y, x)
    &&& forall|x: C, y: C, z: C| #[trigger]
        (r.times)((r.times)(x, y), z) == (r.times)(x, (r.times)(y, z))
    &&& forall|x: C| #[trigger] (r.times)(r.one, x) == x
    &&& forall|x: C, y: C, z: C|
        #[trigger] (r.times)(x, (r.plus)(y, z)) == (r.plus)((r.times)(x, y), (r.times)(x, z))
}

pub proof fn sums_commute<C>(r: Ring<C>, x: C, y: C)
    requires
        is_ring(r),
    ensures
        (r.plus)(x, y) == (r.plus)(y, x),
{
    reveal(is_ring);
}

pub proof fn sums_associate<C>(r: Ring<C>, x: C, y: C, z: C)
    requires
        is_ring(r),
    ensures
        (r.plus)((r.plus)(x, y), z) == (r.plus)(x, (r.plus)(y, z)),
{
    reveal(is_ring);
}

pub proof fn zero_adds_nothing<C>(r: Ring<C>, x: C)
    requires
        is_ring(r),
    ensures
        (r.plus)(r.zero, x) == x,
        (r.plus)(x, r.zero) == x,
{
    reveal(is_ring);
}

proof fn opposites_cancel<C>(r: Ring<C>, x: C)
    requires
        is_ring(r),
    ensures
        (r.plus)(x, (r.opposite)(x)) == r.zero,
        (r.plus)((r.opposite)(x), x) == r.zero,
{
    reveal(is_ring);
}

pub proof fn products_commute<C>(r: Ring<C>, x: C, y: C)
    requires
        is_ring(r),
    ensures
        (r.times)(x, y) == (r.times)(y, x),
{
    reveal(is_ring);
}

proof fn products_associate<C>(r: Ring<C>, x: C, y: C, z: C)
    requires
        is_ring(r),
    ensures
        (r.times)((r.times)(x, y), z) == (r.times)(x, (r.times)(y, z)),
{
    reveal(is_ring);
}

proof fn one_scales_nothing<C>(r: Ring<C>, x: C)
    requires
        is_ring(r),
    ensures
        (r.times)(r.one, x) == x,
        (r.times)(x, r.one) == x,
{
    reveal(is_ring);
}

pub proof fn products_distribute<C>(r: Ring<C>, x: C, y: C, z: C)
    requires
        is_ring(r),
    ensures
        (r.times)(x, (r.plus)(y, z)) == (r.plus)((r.times)(x, y), (r.times)(x, z)),
{
    reveal(is_ring);
}

/// Nothing but zero leaves a value as it was.
proof fn only_zero_adds_nothing<C>(r: Ring<C>, x: C, y: C)
    requires
        is_ring(r),
        (r.plus)(x, y) == x,
    ensures
        y == r.zero,
{
    let back = (r.opposite)(x);
    sums_associate(r, back, x, y);
    opposites_cancel(r, x);
    zero_adds_nothing(r, y);
}

pub proof fn zero_scales_to_zero<C>(r: Ring<C>, x: C)
    requires
        is_ring(r),
    ensures
        (r.times)(x, r.zero) == r.zero,
{
    zero_adds_nothing(r, r.zero);
    products_distribute(r, x, r.zero, r.zero);
    only_zero_adds_nothing(r, (r.times)(x, r.zero), (r.times)(x, r.zero));
}

/// The opposite of a value is its product with the opposite of one.
proof fn opposite_is_a_product<C>(r: Ring<C>, x: C)
    requires
        is_ring(r),
    ensures
        (r.opposite)(x) == (r.times)((r.opposite)(r.one), x),
{
    let minus = (r.opposite)(r.one);
    let product = (r.times)(minus, x);
    // x + (-1) x = x (1 + -1) = 0.
    products_distribute(r, x, r.one, minus);
    opposites_cancel(r, r.one);
    zero_scales_to_zero(r, x);
    one_scales_nothing(r, x);
    products_commute(r, x, minus);
    assert((r.plus)(x, product) == r.zero);
    // -x = -x + (x + (-1) x) = (-1) x.
    let back = (r.opposite)(x);
    sums_associate(r, back, x, product);
    opposites_cancel(r, x);
    zero_adds_nothing(r, product);
    zero_adds_nothing(r, back);
}

/// A power of a value.
pub open spec fn power<C>(r: Ring<C>, x: C, e: nat) -> C
    decreases e,
{
    if e == 0 {
        r.one
    } else {
        (r.times)(x, power(r, x, (e - 1) as nat))
    }
}

proof fn powers_add<C>(r: Ring<C>, x: C, a: nat, b: nat)
    requires
        is_ring(r),
    ensures
        power(r, x, a + b) == (r.times)(power(r, x, a), power(r, x, b)),
    decreases a,
{
    if a == 0 {
        one_scales_nothing(r, power(r, x, b));
    } else {
        powers_add(r, x, (a - 1) as nat, b);
        products_associate(r, x, power(r, x, (a - 1) as nat), power(r, x, b));
        assert((a + b - 1) as nat == ((a - 1) as nat) + b);
    }
}

/// A value with a power of one comes back to one again and again.
proof fn powers_come_round<C>(r: Ring<C>, x: C, period: nat, times: nat)
    requires
        is_ring(r),
        power(r, x, period) == r.one,
    ensures
        power(r, x, period * times) == r.one,
    decreases times,
{
    if times == 0 {
        assert(period * times == 0) by (nonlinear_arith)
            requires
                times == 0,
        ;
    } else {
        let fewer = (times - 1) as nat;
        powers_come_round(r, x, period, fewer);
        assert(period * times == period + period * fewer) by (nonlinear_arith)
            requires
                fewer == times - 1,
        ;
        powers_add(r, x, period, period * fewer);
        one_scales_nothing(r, r.one);
    }
}

/// The sum of the first `n` terms.
pub open spec fn total<C>(r: Ring<C>, term: spec_fn(int) -> C, n: nat) -> C
    decreases n,
{
    if n == 0 {
        r.zero
    } else {
        (r.plus)(total(r, term, (n - 1) as nat), term(n - 1))
    }
}

pub proof fn totals_agree<C>(r: Ring<C>, one: spec_fn(int) -> C, other: spec_fn(int) -> C, n: nat)
    requires
        forall|t: int| 0 <= t < n ==> #[trigger] one(t) == other(t),
    ensures
        total(r, one, n) == total(r, other, n),
    decreases n,
{
    if n > 0 {
        totals_agree(r, one, other, (n - 1) as nat);
        assert(one(n - 1) == other(n - 1));
    }
}

proof fn totals_scale<C>(
    r: Ring<C>,
    factor: C,
    term: spec_fn(int) -> C,
    scaled: spec_fn(int) -> C,
    n: nat,
)
    requires
        is_ring(r),
        forall|t: int| 0 <= t < n ==> #[trigger] scaled(t) == (r.times)(factor, term(t)),
    ensures
        total(r, scaled, n) == (r.times)(factor, total(r, term, n)),
    decreases n,
{
    if n == 0 {
        zero_scales_to_zero(r, factor);
    } else {
        let m = (n - 1) as nat;
        totals_scale(r, factor, term, scaled, m);
        products_distribute(r, factor, total(r, term, m), term(n - 1));
        assert(scaled(n - 1) == (r.times)(factor, term(n - 1)));
    }
}

/// A sum is that of its even terms and that of its odd terms.
proof fn totals_split<C>(
    r: Ring<C>,
    term: spec_fn(int) -> C,
    even: spec_fn(int) -> C,
    odd: spec_fn(int) -> C,
    n: nat,
)
    requires
        is_ring(r),
        forall|t: int| 0 <= t < n ==> #[trigger] even(t) == term(2 * t),
        forall|t: int| 0 <= t < n ==> #[trigger] odd(t) == term(2 * t + 1),
    ensures
        total(r, term, 2 * n) == (r.plus)(total(r, even, n), total(r, odd, n)),
    decreases n,
{
    if n == 0 {
        zero_adds_nothing(r, r.zero);
    } else {
        let m = (n - 1) as nat;
        totals_split(r, term, even, odd, m);
        reveal_with_fuel(total, 3);
        let (e, o) = (total(r, even, m), total(r, odd, m));
        let (x, y) = (term(2 * m as int), term(2 * m as int + 1));
        assert(even(n - 1) == x && odd(n - 1) == y);
        assert((2 * n - 1) as nat == 2 * m + 1);
        assert((2 * n - 2) as nat == 2 * m);
        assert(total(r, term, 2 * n) == (r.plus)((r.plus)((r.plus)(e, o), x), y));
        // ((e + o) + x) + y = (e + x) + (o + y).
        sums_associate(r, e, o, x);
        sums_commute(r, o, x);
        sums_associate(r, e, x, o);
        sums_associate(r, (r.plus)(e, x), o, y);
    }
}

/// The value of an element of a signal.
pub open spec fn value_at<T, C>(value: spec_fn(T, T) -> C, signal: Signal<T>, k: int) -> C {
    value(signal.re[k], signal.im[k])
}

/// The term of the defining sum for bin `k` that element `t` of a signal contributes.
pub open spec fn dft_term<T, C>(
    r: Ring<C>,
    value: spec_fn(T, T) -> C,
    root: C,
    signal: Signal<T>,
    k: int,
    t: int,
) -> C {
    (r.times)(power(r, root, (t * k) as nat), value_at(value, signal, t))
}

/// The defining sum: bin `k` is the sum of the elements, each turned by the root of unity to
/// the power of `k` times its index.
pub open spec fn dft<T, C>(
    r: Ring<C>,
    value: spec_fn(T, T) -> C,
    root: C,
    signal: Signal<T>,
    k: int,
) -> C {
    total(r, |t: int| dft_term(r, value, root, signal, k, t), signal.re.len())
}

/// A butterfly computes exactly what it is meant to: `(a, b, w)` gives `(a + w b, a - w b)`.
pub open spec fn exact_butterfly<T, C, F: Fn(T, T, T, T, T, T) -> (T, T, T, T)>(
    butterfly: F,
    r: Ring<C>,
    value: spec_fn(T, T) -> C,
) -> bool {
    forall|ar: T, ai: T, br: T, bi: T, wr: T, wi: T, out: (T, T, T, T)| #[trigger]
        call_ensures(butterfly, (ar, ai, br, bi, wr, wi), out) ==> {
            let turned = (r.times)(value(wr, wi), value(br, bi));
            &&& value(out.0, out.1) == (r.plus)(value(ar, ai), turned)
            &&& value(out.2, out.3) == (r.plus)(value(ar, ai), (r.opposite)(turned))
        }
}

/// Twiddle factor `j` of stage `s` is exactly the power of the root that it stands for.
pub open spec fn exact_twiddle<T, C>(
    twiddles: Signal<T>,
    r: Ring<C>,
    value: spec_fn(T, T) -> C,
    root: C,
    order: nat,
    s: nat,
    j: int,
) -> bool {
    value_at(value, twiddles, pow2(s) - 1 + j) == power(
        r,
        root,
        (pow2((order - s - 1) as nat) * j) as nat,
    )
}

/// Every twiddle factor is exact.
pub open spec fn exact_twiddles<T, C>(
    twiddles: Signal<T>,
    r: Ring<C>,
    value: spec_fn(T, T) -> C,
    root: C,
    order: nat,
) -> bool {
    forall|s: nat, j: int|
        s < order && 0 <= j < pow2(s) ==> #[trigger] exact_twiddle(
            twiddles,
            r,
            value,
            root,
            order,
            s,
            j,
        )
}

/// The term that element `t` of block `q` contributes to place `k` once the blocks have the
/// size two to the `s`. The elements of a block stand in bit-reversed order.
spec fn block_term<T, C>(
    r: Ring<C>,
    value: spec_fn(T, T) -> C,
    root: C,
    start: Signal<T>,
    order: nat,
    s: nat,
    q: int,
    k: int,
    t: int,
) -> C {
    (r.times)(
        power(r, root, (pow2((order - s) as nat) * (t * k)) as nat),
        value_at(value, start, q * pow2(s) + reversed_bits(t as nat, s)),
    )
}

spec fn block_sum<T, C>(
    r: Ring<C>,
    value: spec_fn(T, T) -> C,
    root: C,
    start: Signal<T>,
    order: nat,
    s: nat,
    q: int,
    k: int,
) -> C {
    total(r, |t: int| block_term(r, value, root, start, order, s, q, k, t), pow2(s))
}

/// Half the period turns a value into its opposite, and the whole of it changes nothing.
proof fn root_comes_round<C>(r: Ring<C>, root: C, order: nat)
    requires
        is_ring(r),
        order >= 1,
        power(r, root, pow2((order - 1) as nat)) == (r.opposite)(r.one),
    ensures
        power(r, root, pow2(order)) == r.one,
{
    let half = pow2((order - 1) as nat);
    lemma_pow2_unfold(order);
    powers_add(r, root, half, half);
    let minus = (r.opposite)(r.one);
    opposite_is_a_product(r, minus);
    opposites_cancel(r, minus);
    opposites_cancel(r, r.one);
    // -(-1) is the opposite of -1, which one is too.
    let again = (r.opposite)(minus);
    sums_associate(r, r.one, minus, again);
    zero_adds_nothing(r, again);
    zero_adds_nothing(r, r.one);
    assert(again == r.one);
}

/// The terms that the even and odd elements of a block contribute, in terms of those that its
/// two halves were put together from.
proof fn terms_pair_up<T, C>(
    r: Ring<C>,
    value: spec_fn(T, T) -> C,
    root: C,
    start: Signal<T>,
    order: nat,
    s: nat,
    q: int,
    k: int,
    far: bool,
    t: int,
)
    requires
        is_ring(r),
        1 <= s <= order,
        power(r, root, pow2((order - 1) as nat)) == (r.opposite)(r.one),
        0 <= k < pow2((s - 1) as nat),
        0 <= t < pow2((s - 1) as nat),
        q >= 0,
    ensures
        ({
            let h = pow2((s - 1) as nat) as int;
            let place = if far {
                k + h
            } else {
                k
            };
            let step = power(r, root, (pow2((order - s) as nat) * k) as nat);
            let factor = if far {
                (r.opposite)(step)
            } else {
                step
            };
            &&& block_term(r, value, root, start, order, s, q, place, 2 * t) == block_term(
                r,
                value,
                root,
                start,
                order,
                (s - 1) as nat,
                2 * q,
                k,
                t,
            )
            &&& block_term(r, value, root, start, order, s, q, place, 2 * t + 1) == (r.times)(
                factor,
                block_term(r, value, root, start, order, (s - 1) as nat, 2 * q + 1, k, t),
            )
        }),
{
    let below = (s - 1) as nat;
    let h = pow2(below) as int;
    let c = pow2((order - s) as nat) as int;
    let n = pow2(order) as int;
    let half = pow2((order - 1) as nat) as int;
    let place = if far {
        k + h
    } else {
        k
    };
    lemma_pow2_pos(below);
    lemma_pow2_pos((order - s) as nat);
    lemma_pow2_unfold(s);
    lemma_pow2_unfold((order - s + 1) as nat);
    lemma_pow2_unfold(order);
    lemma_pow2_adds((order - s) as nat, below);
    assert(c * h == half);
    assert(pow2((order - below) as nat) == 2 * c);
    root_comes_round(r, root, order);

    // Where the elements stand.
    let low = reversed_bits(t as nat, below) as int;
    assert((2 * t) as nat % 2 == 0 && (2 * t) as nat / 2 == t as nat);
    assert((2 * t + 1) as nat % 2 == 1 && (2 * t + 1) as nat / 2 == t as nat);
    assert(0 * pow2(below) == 0 && 1 * pow2(below) == h) by (nonlinear_arith)
        requires
            h == pow2(below),
    ;
    assert(reversed_bits((2 * t) as nat, s) == low);
    assert(reversed_bits((2 * t + 1) as nat, s) == h + low);
    assert(q * (2 * h) == 2 * q * h && (2 * q + 1) * h == 2 * q * h + h) by (nonlinear_arith);

    // What they are turned by.
    let e = 2 * c * (t * k);
    let even = c * (2 * t * place);
    let odd = c * ((2 * t + 1) * place);
    let single = c * k;
    let turn = power(r, root, e as nat);
    assert(e >= 0 && single >= 0) by (nonlinear_arith)
        requires
            c > 0,
            t >= 0,
            k >= 0,
            e == 2 * c * (t * k),
            single == c * k,
    ;
    let step = power(r, root, single as nat);
    let x = value_at(value, start, (2 * q + 1) * h + low);
    if !far {
        assert(even == e) by (nonlinear_arith)
            requires
                even == c * (2 * t * k),
                e == 2 * c * (t * k),
        ;
        assert(odd == single + e) by (nonlinear_arith)
            requires
                odd == c * ((2 * t + 1) * k),
                single == c * k,
                e == 2 * c * (t * k),
        ;
        powers_add(r, root, single as nat, e as nat);
        products_associate(r, step, turn, x);
    } else {
        let round = n * t;
        assert(round >= 0) by (nonlinear_arith)
            requires
                round == n * t,
                n >= 0,
                t >= 0,
        ;
        assert(even == e + round) by (nonlinear_arith)
            requires
                even == c * (2 * t * (k + h)),
                e == 2 * c * (t * k),
                round == n * t,
                n == 2 * half,
                c * h == half,
        ;
        assert(odd == (half + single) + (e + round)) by (nonlinear_arith)
            requires
                odd == c * ((2 * t + 1) * (k + h)),
                e == 2 * c * (t * k),
                single == c * k,
                round == n * t,
                n == 2 * half,
                c * h == half,
        ;
        powers_come_round(r, root, n as nat, t as nat);
        powers_add(r, root, e as nat, round as nat);
        one_scales_nothing(r, turn);
        assert(power(r, root, (e + round) as nat) == turn);
        powers_add(r, root, half as nat, single as nat);
        opposite_is_a_product(r, step);
        assert(power(r, root, (half + single) as nat) == (r.opposite)(step));
        powers_add(r, root, (half + single) as nat, (e + round) as nat);
        products_associate(r, (r.opposite)(step), turn, x);
    }
}

/// Once the blocks have the size two to the `s`, every place of every block holds the defining
/// sum of its elements.
proof fn stages_sum_up<T, C, F: Fn(T, T, T, T, T, T) -> (T, T, T, T)>(
    butterfly: F,
    r: Ring<C>,
    value: spec_fn(T, T) -> C,
    root: C,
    start: Signal<T>,
    now: Signal<T>,
    twiddles: Signal<T>,
    order: nat,
    s: nat,
    q: int,
    k: int,
)
    requires
        is_ring(r),
        exact_butterfly(butterfly, r, value),
        exact_twiddles(twiddles, r, value, root, order),
        power(r, root, pow2((order - 1) as nat)) == (r.opposite)(r.one),
        stages_done(butterfly, start, now, twiddles, s),
        s <= order,
        order >= 1,
        start.re.len() == pow2(order),
        0 <= q < pow2((order - s) as nat),
        0 <= k < pow2(s),
    ensures
        now.re.len() == start.re.len(),
        value_at(value, now, q * pow2(s) + k) == block_sum(
            r,
            value,
            root,
            start,
            order,
            s,
            q,
            k,
        ),
    decreases s,
{
    lemma2_to64();
    if s == 0 {
        let term = |t: int| block_term(r, value, root, start, order, s, q, k, t);
        reveal_with_fuel(total, 2);
        assert(q * pow2(0) == q) by (nonlinear_arith)
            requires
                pow2(0) == 1,
        ;
        assert(pow2(order) * (0int * k) == 0) by (nonlinear_arith);
        one_scales_nothing(r, value_at(value, start, q));
        zero_adds_nothing(r, term(0));
        assert(block_sum(r, value, root, start, order, s, q, k) == total(r, term, 1));
    } else {
        let below = (s - 1) as nat;
        let h = pow2(below) as int;
        let middle = choose|middle: Signal<T>|
            stages_done(butterfly, start, middle, twiddles, below) && #[trigger] stage_done(
                butterfly,
                middle,
                now,
                twiddles,
                h,
            );
        lemma_pow2_pos(below);
        lemma_pow2_unfold(s);
        lemma_pow2_unfold((order - below) as nat);
        let far = k >= h;
        let near = if far {
            k - h
        } else {
            k
        };
        stages_sum_up(
            butterfly,
            r,
            value,
            root,
            start,
            middle,
            twiddles,
            order,
            below,
            2 * q,
            near,
        );
        stages_sum_up(
            butterfly,
            r,
            value,
            root,
            start,
            middle,
            twiddles,
            order,
            below,
            2 * q + 1,
            near,
        );
        // The pair that meets there.
        let a = 2 * h * q + near;
        place_in_block(q, near, h);
        assert(q * (2 * h) == 2 * h * q && (2 * q) * h == 2 * h * q && (2 * q + 1) * h == 2 * h * q
            + h) by (nonlinear_arith);
        lemma_pow2_adds(s, (order - s) as nat);
        assert(0 <= a && a + h < pow2(order)) by (nonlinear_arith)
            requires
                a == 2 * h * q + near,
                0 <= near < h,
                0 <= q < pow2((order - s) as nat),
                pow2(order) == 2 * h * pow2((order - s) as nat),
        ;
        assert(leads(a, h));
        assert(crossed(butterfly, middle, now, twiddles, h, a));
        assert(exact_twiddle(twiddles, r, value, root, order, below, near));
        assert((order - below - 1) as nat == (order - s) as nat);
        let step = power(r, root, (pow2((order - s) as nat) * near) as nat);
        let even = |t: int| block_term(r, value, root, start, order, below, 2 * q, near, t);
        let odd = |t: int| block_term(r, value, root, start, order, below, 2 * q + 1, near, t);
        let factor = if far {
            (r.opposite)(step)
        } else {
            step
        };
        let turned = |t: int| (r.times)(factor, odd(t));
        let term = |t: int| block_term(r, value, root, start, order, s, q, k, t);
        assert forall|t: int| 0 <= t < h implies #[trigger] even(t) == term(2 * t) by {
            terms_pair_up(r, value, root, start, order, s, q, near, far, t);
        }
        assert forall|t: int| 0 <= t < h implies #[trigger] turned(t) == term(2 * t + 1) by {
            terms_pair_up(r, value, root, start, order, s, q, near, far, t);
        }
        totals_split(r, term, even, turned, h as nat);
        totals_scale(r, factor, odd, turned, h as nat);
        let (e, o) = (total(r, even, h as nat), total(r, odd, h as nat));
        assert(value_at(value, middle, a) == e);
        assert(value_at(value, middle, a + h) == o);
        if far {
            // -(w o) = (-w) o.
            let minus = (r.opposite)(r.one);
            opposite_is_a_product(r, (r.times)(step, o));
            opposite_is_a_product(r, step);
            products_associate(r, minus, step, o);
        }
    }
}

/// Over exact arithmetic the transform is the sum that defines it: in every bin, whatever the
/// size, given a root of unity of that order.
pub proof fn transform_is_the_defining_sum<T, C, F: Fn(T, T, T, T, T, T) -> (T, T, T, T)>(
    butterfly: F,
    r: Ring<C>,
    value: spec_fn(T, T) -> C,
    root: C,
    before: Signal<T>,
    after: Signal<T>,
    twiddles: Signal<T>,
    order: nat,
    k: int,
)
    requires
        is_ring(r),
        exact_butterfly(butterfly, r, value),
        exact_twiddles(twiddles, r, value, root, order),
        order >= 1,
        power(r, root, pow2((order - 1) as nat)) == (r.opposite)(r.one),
        before.re.len() == pow2(order),
        before.im.len() == pow2(order),
        transformed(butterfly, before, after, twiddles, order),
        0 <= k < pow2(order),
    ensures
        value_at(value, after, k) == dft(r, value, root, before, k),
{
    lemma2_to64();
    let start = choose|start: Signal<T>|
        permuted(before.re, start.re, order) && permuted(before.im, start.im, order)
            && #[trigger] stages_done(butterfly, start, after, twiddles, order);
    stages_sum_up(butterfly, r, value, root, start, after, twiddles, order, order, 0, k);
    let n = pow2(order);
    let summed = |t: int| block_term(r, value, root, start, order, order, 0, k, t);
    let defined = |t: int| dft_term(r, value, root, before, k, t);
    assert(0 * pow2(order) == 0) by (nonlinear_arith);
    assert forall|t: int| 0 <= t < n implies #[trigger] summed(t) == defined(t) by {
        reversal_is_bounded(t as nat, order);
        reversal_is_an_involution(t as nat, order);
        let i = reversed_bits(t as nat, order) as int;
        assert(start.re[i] == before.re[t]);
        assert(start.im[i] == before.im[t]);
        assert(pow2(0) * (t * k) == t * k) by (nonlinear_arith)
            requires
                pow2(0) == 1,
        ;
    }
    totals_agree(r, summed, defined, n);
}

/// A plan built with exact twiddle factors holds exact ones: `twiddle` gives, for `j` and `m`,
/// the root of order `m` to the power of `j`.
pub proof fn plans_hold_exact_twiddles<T, C, G: Fn(usize, usize) -> (T, T)>(
    twiddle: G,
    twiddles: Signal<T>,
    r: Ring<C>,
    value: spec_fn(T, T) -> C,
    root: C,
    order: nat,
)
    requires
        pow2(order) <= usize::MAX,
        forall|s: nat, j: int|
            s < order && 0 <= j < pow2(s) ==> #[trigger] twiddle_placed(
                twiddle,
                twiddles,
                pow2(s) as int,
                j,
            ),
        forall|s: nat, j: int, out: (T, T)|
            s < order && 0 <= j < pow2(s) && #[trigger] call_ensures(
                twiddle,
                (j as usize, (2 * (pow2(s) as int)) as usize),
                out,
            ) ==> value(out.0, out.1) == power(
                r,
                root,
                (pow2((order - s - 1) as nat) * j) as nat,
            ),
    ensures
        exact_twiddles(twiddles, r, value, root, order),
{
    assert forall|s: nat, j: int| s < order && 0 <= j < pow2(s) implies #[trigger] exact_twiddle(
        twiddles,
        r,
        value,
        root,
        order,
        s,
        j,
    ) by {
        let h = pow2(s) as int;
        assert(twiddle_placed(twiddle, twiddles, h, j));
        assert(call_ensures(
            twiddle,
            (j as usize, (2 * (pow2(s) as int)) as usize),
            (twiddles.re[h - 1 + j], twiddles.im[h - 1 + j]),
        ));
    }
}

} // verus!
