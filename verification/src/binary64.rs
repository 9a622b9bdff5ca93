//! Double-precision results, computed in integers.
//!
//! The divider arithmetic is defined in double precision. Its operands are whole numbers
//! that a double holds exactly, so the only rounding is that of the quotient, and that can
//! be carried out exactly in wide integers.

use vstd::arithmetic::div_mod::{lemma_fundamental_div_mod, lemma_fundamental_div_mod_converse};
use vstd::arithmetic::power2::{
    lemma2_to64, lemma2_to64_rest, lemma_pow2_adds, lemma_pow2_pos, lemma_pow2_strictly_increases,
    lemma_pow2_unfold, pow2,
};
use vstd::prelude::*;

verus! {

/// Binary digits needed to write `q`.
pub open spec fn significant_bits(q: nat) -> nat
    decreases q,
{
    if q == 0 {
        0
    } else {
        1 + significant_bits(q / 2)
    }
}

/// `a / b` rounded to the nearest whole number, ties to even.
pub open spec fn nearest_even(a: nat, b: nat) -> nat {
    let q = a / b;
    let r = a % b;
    if 2 * r < b {
        q
    } else if 2 * r > b {
        q + 1
    } else {
        q + q % 2
    }
}

/// How finely a double divides the unit interval above a value whose integer part is `q`.
///
/// A double carries 53 significant digits; those that the integer part does not need are
/// left for the fraction.
pub open spec fn steps_per_unit(q: nat) -> nat {
    pow2((53 - significant_bits(q)) as nat)
}

/// `n / d` as a double, truncated to a `u32` with saturation.
pub open spec fn truncated_quotient(n: nat, d: nat) -> nat {
    if n / d > u32::MAX {
        u32::MAX as nat
    } else {
        let steps = steps_per_unit(n / d);
        let whole = nearest_even(n * steps, d) / steps;
        if whole > u32::MAX {
            u32::MAX as nat
        } else {
            whole
        }
    }
}

proof fn significant_bits_bound(q: nat, k: nat)
    requires
        q < pow2(k),
    ensures
        significant_bits(q) <= k,
    decreases k,
{
    if q > 0 {
        if k == 0 {
            lemma2_to64();
        } else {
            lemma_pow2_unfold(k);
            significant_bits_bound(q / 2, (k - 1) as nat);
        }
    }
}

/// Binary digits are counted right: the number lies between the powers of two on either side.
pub proof fn significant_bits_are_exact(q: nat)
    requires
        q > 0,
    ensures
        pow2((significant_bits(q) - 1) as nat) <= q < pow2(significant_bits(q)),
    decreases q,
{
    let b = significant_bits(q);
    if q == 1 {
        reveal_with_fuel(significant_bits, 2);
        lemma2_to64();
    } else {
        significant_bits_are_exact(q / 2);
        lemma_pow2_unfold(b);
        lemma_pow2_unfold((b - 1) as nat);
    }
}

/// The steps in a unit are those of a double: a value with that integer part has a
/// significand of exactly fifty-three digits.
pub proof fn significands_have_fifty_three_digits(q: nat)
    requires
        0 < q <= u32::MAX,
    ensures
        0x10_0000_0000_0000 <= q * steps_per_unit(q) < 0x20_0000_0000_0000,
{
    lemma2_to64();
    lemma2_to64_rest();
    significant_bits_bound(q, 32);
    significant_bits_are_exact(q);
    let b = significant_bits(q);
    let rest = (53 - b) as nat;
    lemma_pow2_adds((b - 1) as nat, rest);
    lemma_pow2_adds(b, rest);
    lemma_pow2_pos(rest);
    let s = pow2(rest);
    let low = pow2((b - 1) as nat);
    let high = pow2(b);
    assert(low * s <= q * s < high * s) by (nonlinear_arith)
        requires
            low <= q < high,
            s > 0,
    ;
}

/// Rounding a quotient moves it by at most one from its integer part.
pub proof fn truncation_is_close(n: nat, d: nat)
    requires
        d > 0,
        n / d < u32::MAX,
    ensures
        truncated_quotient(n, d) == n / d || truncated_quotient(n, d) == n / d + 1,
{
    let q = n / d;
    let r = n % d;
    lemma2_to64();
    significant_bits_bound(q, 32);
    let steps = steps_per_unit(q);
    lemma_pow2_pos((53 - significant_bits(q)) as nat);
    let a = n * steps;
    let m = a / d;
    assert(n == q * d + r && 0 <= r < d) by (nonlinear_arith)
        requires
            q == n / d,
            r == n % d,
            d > 0,
    ;
    assert(q * steps <= m < (q + 1) * steps) by (nonlinear_arith)
        requires
            n == q * d + r,
            0 <= r < d,
            d > 0,
            steps > 0,
            a == n * steps,
            m == a / d,
    ;
    let rounded = nearest_even(a, d);
    assert(m <= rounded <= m + 1);
    assert(rounded / steps == q || rounded / steps == q + 1) by (nonlinear_arith)
        requires
            q * steps <= rounded <= (q + 1) * steps,
            steps > 0,
    ;
}

/// How finely a double divides the unit interval above a value whose integer part is `q`.
pub fn unit_steps(q: u32) -> (steps: u128)
    ensures
        steps == steps_per_unit(q as nat),
        significant_bits(q as nat) <= 32,
        0 < steps <= 0x20_0000_0000_0000,
{
    proof {
        lemma2_to64();
        lemma2_to64_rest();
        significant_bits_bound(q as nat, 32);
    }
    let mut rest: u32 = q;
    let mut steps: u128 = 0x20_0000_0000_0000;
    let ghost mut seen: nat = 0;
    while rest > 0
        invariant
            significant_bits(q as nat) == seen + significant_bits(rest as nat),
            significant_bits(q as nat) <= 32,
            steps == pow2((53 - seen) as nat),
            steps <= 0x20_0000_0000_0000,
        decreases rest,
    {
        proof {
            lemma_pow2_unfold((53 - seen) as nat);
            seen = seen + 1;
        }
        rest = rest / 2;
        steps = steps / 2;
    }
    proof {
        lemma_pow2_pos((53 - seen) as nat);
    }
    steps
}

/// `a / b` rounded to the nearest whole number, ties to even.
pub fn round_quotient(a: u128, b: u128) -> (rounded: u128)
    requires
        0 < b < 0x4000_0000_0000_0000_0000_0000_0000_0000,
        a < 0x4000_0000_0000_0000_0000_0000_0000_0000,
    ensures
        rounded == nearest_even(a as nat, b as nat),
{
    let floor: u128 = a / b;
    let left: u128 = a % b;
    assert(floor <= a && left < b) by (nonlinear_arith)
        requires
            floor == a / b,
            left == a % b,
            b >= 1,
            a >= 0,
    ;
    if 2 * left < b {
        floor
    } else if 2 * left > b {
        floor + 1
    } else {
        floor + floor % 2
    }
}

/// Divides as a double would and truncates the result to a `u32`, saturating.
pub fn truncated_division(n: u64, d: u32) -> (whole: u32)
    requires
        d > 0,
        n < 0x40_0000_0000_0000,
    ensures
        whole == truncated_quotient(n as nat, d as nat),
{
    let q: u64 = n / (d as u64);
    if q > u32::MAX as u64 {
        return u32::MAX;
    }
    let steps: u128 = unit_steps(q as u32);
    assert(n * steps <= 0x40_0000_0000_0000 * 0x20_0000_0000_0000) by (nonlinear_arith)
        requires
            n <= 0x40_0000_0000_0000,
            steps <= 0x20_0000_0000_0000,
    ;
    let rounded: u128 = round_quotient((n as u128) * steps, d as u128);
    let whole: u128 = rounded / steps;
    if whole > u32::MAX as u128 {
        u32::MAX
    } else {
        whole as u32
    }
}

/// Scaling both sides of a quotient does not change how it rounds.
pub proof fn nearest_even_scales(a: nat, b: nat, c: nat)
    requires
        b > 0,
        c > 0,
    ensures
        nearest_even(a * c, b * c) == nearest_even(a, b),
{
    let q = a / b;
    let r = a % b;
    lemma_fundamental_div_mod(a as int, b as int);
    assert(a * c == q * (b * c) + r * c && r * c < b * c && r * c >= 0 && b * c > 0)
        by (nonlinear_arith)
        requires
            a == b * q + r,
            0 <= r < b,
            c > 0,
    ;
    lemma_fundamental_div_mod_converse(
        (a * c) as int,
        (b * c) as int,
        q as int,
        (r * c) as int,
    );
    assert((2 * (r * c) < b * c) == (2 * r < b) && (2 * (r * c) > b * c) == (2 * r > b))
        by (nonlinear_arith)
        requires
            c > 0,
    ;
}

/// Divides by a power of two as a double would and truncates the result to a `u32`,
/// saturating.
pub(crate) fn truncated_shift(n: u128, d: u128, Ghost(k): Ghost<nat>) -> (whole: u32)
    requires
        d == pow2(k),
        d < 0x4000_0000_0000_0000_0000_0000_0000_0000,
        n < 0x4000_0000_0000_0000_0000_0000_0000_0000,
    ensures
        whole == truncated_quotient(n as nat, d as nat),
{
    proof {
        lemma_pow2_pos(k);
    }
    let q: u128 = n / d;
    if q > u32::MAX as u128 {
        return u32::MAX;
    }
    let steps: u128 = unit_steps(q as u32);
    let ghost f = (53 - significant_bits(q as nat)) as nat;
    let whole: u128 = if d >= steps {
        proof {
            if k < f {
                lemma_pow2_strictly_increases(k, f);
            }
            let more = (k - f) as nat;
            lemma_pow2_adds(f, more);
            lemma_pow2_pos(more);
            let other = pow2(more);
            assert(d == other * steps) by (nonlinear_arith)
                requires
                    d == pow2(f) * other,
                    steps == pow2(f),
            ;
            lemma_fundamental_div_mod_converse(d as int, steps as int, other as int, 0);
            nearest_even_scales(n as nat, other, steps as nat);
            assert(other <= d) by (nonlinear_arith)
                requires
                    d == other * steps,
                    steps > 0,
                    other >= 0,
            ;
        }
        round_quotient(n, d / steps) / steps
    } else {
        proof {
            if f < k {
                lemma_pow2_strictly_increases(f, k);
            }
            let more = (f - k) as nat;
            lemma_pow2_adds(k, more);
            lemma_pow2_pos(more);
            let other = pow2(more);
            let product = n * steps;
            assert(product == d * (n * other)) by (nonlinear_arith)
                requires
                    product == n * steps,
                    steps == d * other,
            ;
            lemma_fundamental_div_mod_converse(product as int, d as int, (n * other) as int, 0);
            assert(nearest_even(product as nat, d as nat) == n * other);
            let r = n as int % d as int;
            lemma_fundamental_div_mod(n as int, d as int);
            assert(n * other == steps * q + r * other && 0 <= r * other < steps)
                by (nonlinear_arith)
                requires
                    n == d * q + r,
                    0 <= r < d,
                    steps == d * other,
                    other > 0,
            ;
            lemma_fundamental_div_mod_converse(
                (n * other) as int,
                steps as int,
                q as int,
                r * other,
            );
        }
        q
    };
    if whole > u32::MAX as u128 {
        u32::MAX
    } else {
        whole as u32
    }
}

} // verus!
