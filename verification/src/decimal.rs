//! Decimal numbers of any length, and their nearest doubles.

use vstd::arithmetic::div_mod::lemma_fundamental_div_mod_converse;
use vstd::arithmetic::power2::{lemma2_to64, lemma2_to64_rest, lemma_pow2_pos, pow2};
use vstd::prelude::*;

use crate::binary64::{nearest_even, significant_bits, steps_per_unit, truncated_quotient};

verus! {

/// Ten to a power.
pub open spec fn ten_to(k: nat) -> nat
    decreases k,
{
    if k == 0 {
        1
    } else {
        10 * ten_to((k - 1) as nat)
    }
}

/// The whole number that a run of decimal digits writes.
pub open spec fn digits_value(digits: Seq<u8>) -> nat
    decreases digits.len(),
{
    if digits.len() == 0 {
        0
    } else {
        10 * digits_value(digits.drop_last()) + digits.last() as nat
    }
}

/// Every element is a decimal digit.
pub open spec fn all_digits(digits: Seq<u8>) -> bool {
    forall|i: int| 0 <= i < digits.len() ==> #[trigger] digits[i] < 10
}

proof fn ten_to_is_positive(k: nat)
    ensures
        ten_to(k) > 0,
    decreases k,
{
    if k > 0 {
        ten_to_is_positive((k - 1) as nat);
    }
}

pub proof fn ten_to_adds(a: nat, b: nat)
    ensures
        ten_to(a + b) == ten_to(a) * ten_to(b),
    decreases b,
{
    if b == 0 {
        assert(ten_to(a) * 1 == ten_to(a)) by (nonlinear_arith);
    } else {
        ten_to_adds(a, (b - 1) as nat);
        let x = ten_to(a);
        let y = ten_to((b - 1) as nat);
        assert(10 * (x * y) == x * (10 * y)) by (nonlinear_arith);
    }
}

/// A run of digits is what its first part writes, raised, plus what its second part writes.
pub proof fn digits_join(first: Seq<u8>, second: Seq<u8>)
    ensures
        digits_value(first + second) == digits_value(first) * ten_to(second.len()) + digits_value(
            second,
        ),
    decreases second.len(),
{
    let whole = first + second;
    if second.len() == 0 {
        assert(whole =~= first);
        assert(digits_value(first) * 1 == digits_value(first)) by (nonlinear_arith);
    } else {
        digits_join(first, second.drop_last());
        assert(whole.drop_last() =~= first + second.drop_last());
        let x = digits_value(first);
        let y = ten_to((second.len() - 1) as nat);
        assert(10 * (x * y) == x * (10 * y)) by (nonlinear_arith);
    }
}

/// A run of `k` digits writes less than ten to the `k`.
pub proof fn digits_are_bounded(digits: Seq<u8>)
    requires
        all_digits(digits),
    ensures
        digits_value(digits) < ten_to(digits.len()),
    decreases digits.len(),
{
    if digits.len() > 0 {
        let shorter = digits.drop_last();
        assert forall|i: int| 0 <= i < shorter.len() implies #[trigger] shorter[i] < 10 by {
            assert(shorter[i] == digits[i]);
        }
        digits_are_bounded(shorter);
        assert(digits[digits.len() - 1] < 10);
    }
}

/// A run of digits that starts with a nonzero one writes at least the power of ten that it
/// stands for.
pub proof fn leading_digit_counts(digits: Seq<u8>)
    requires
        digits.len() > 0,
        digits[0] > 0,
    ensures
        digits_value(digits) >= ten_to((digits.len() - 1) as nat),
    decreases digits.len(),
{
    if digits.len() == 1 {
        assert(digits.drop_last() =~= seq![]);
    } else {
        leading_digit_counts(digits.drop_last());
    }
}

/// A run of zeroes writes zero.
proof fn zeroes_write_nothing(digits: Seq<u8>)
    requires
        forall|i: int| 0 <= i < digits.len() ==> #[trigger] digits[i] == 0,
    ensures
        digits_value(digits) == 0,
    decreases digits.len(),
{
    if digits.len() > 0 {
        let shorter = digits.drop_last();
        assert forall|i: int| 0 <= i < shorter.len() implies #[trigger] shorter[i] == 0 by {
            assert(shorter[i] == digits[i]);
        }
        zeroes_write_nothing(shorter);
        assert(digits[digits.len() - 1] == 0);
    }
}

/// A run with a nonzero digit writes more than zero.
proof fn nonzero_digit_counts(digits: Seq<u8>, at: int)
    requires
        0 <= at < digits.len(),
        digits[at] > 0,
    ensures
        digits_value(digits) > 0,
    decreases digits.len(),
{
    if at < digits.len() - 1 {
        nonzero_digit_counts(digits.drop_last(), at);
    }
}

/// Doubles the fraction that a run of digits after the point writes, and gives back what
/// moves to the left of the point.
fn double_fraction(fraction: &mut Vec<u8>) -> (carry: u8)
    requires
        all_digits(old(fraction)@),
    ensures
        final(fraction)@.len() == old(fraction)@.len(),
        all_digits(final(fraction)@),
        carry <= 1,
        2 * digits_value(old(fraction)@) == carry * ten_to(old(fraction)@.len()) + digits_value(
            final(fraction)@,
        ),
{
    let n: usize = fraction.len();
    let ghost start = fraction@;
    let mut i: usize = n;
    let mut carry: u8 = 0;
    proof {
        assert(start.skip(n as int) =~= seq![]);
    }
    while i > 0
        invariant
            i <= n,
            n == start.len(),
            fraction@.len() == n,
            all_digits(start),
            all_digits(fraction@),
            carry <= 1,
            fraction@.take(i as int) == start.take(i as int),
            2 * digits_value(start.skip(i as int)) == carry * ten_to((n - i) as nat)
                + digits_value(fraction@.skip(i as int)),
        decreases i,
    {
        let ghost before = fraction@;
        i -= 1;
        proof {
            assert(fraction@[i as int] == fraction@.take(i + 1)[i as int]);
            assert(start[i as int] == start.take(i + 1)[i as int]);
        }
        let t: u8 = 2 * fraction[i] + carry;
        fraction.set(i, t % 10);
        let ghost old_carry = carry;
        carry = t / 10;
        proof {
            let k = (n - i - 1) as nat;
            assert(fraction@.take(i as int) =~= start.take(i as int)) by {
                assert forall|j: int| 0 <= j < i implies fraction@[j] == start[j] by {
                    assert(before.take(i + 1)[j] == start.take(i + 1)[j]);
                }
            }
            assert(start.skip(i as int) =~= seq![start[i as int]] + start.skip(i + 1));
            assert(fraction@.skip(i as int) =~= seq![t % 10] + before.skip(i + 1));
            digits_join(seq![start[i as int]], start.skip(i + 1));
            digits_join(seq![(t % 10) as u8], before.skip(i + 1));
            one_digit(start[i as int]);
            one_digit((t % 10) as u8);
            let d = start[i as int] as int;
            let p = ten_to(k) as int;
            assert(2 * (d * p) + old_carry * p == (t / 10) * (10 * p) + (t % 10) * p)
                by (nonlinear_arith)
                requires
                    t == 2 * d + old_carry,
                    0 <= t,
            ;
        }
    }
    proof {
        assert(start.skip(0) =~= start);
        assert(fraction@.skip(0) =~= fraction@);
    }
    carry
}

proof fn one_digit(d: u8)
    ensures
        digits_value(seq![d]) == d,
{
    assert(seq![d].drop_last() =~= seq![]);
    reveal_with_fuel(digits_value, 2);
}

/// Whether a fraction is nothing at all.
fn is_nothing(fraction: &Vec<u8>) -> (nothing: bool)
    ensures
        nothing == (digits_value(fraction@) == 0),
{
    let mut i: usize = 0;
    while i < fraction.len()
        invariant
            i <= fraction@.len(),
            forall|j: int| 0 <= j < i ==> #[trigger] fraction@[j] == 0,
        decreases fraction@.len() - i,
    {
        if fraction[i] != 0 {
            proof {
                nonzero_digit_counts(fraction@, i as int);
            }
            return false;
        }
        i += 1;
    }
    proof {
        zeroes_write_nothing(fraction@);
    }
    true
}

#[via_fn]
proof fn significand_steps_end(n: nat, d: nat, steps: nat) {
    if n > 0 && steps > 0 {
        assert(n * (2 * steps) > n * steps) by (nonlinear_arith)
            requires
                n > 0,
                steps > 0,
        ;
    }
}

/// The power of two, from `steps` on, that raises `n / d` to a number of fifty-three binary
/// digits.
pub open spec fn significand_steps(n: nat, d: nat, steps: nat) -> nat
    decreases
            (if n * steps >= d * 0x10_0000_0000_0000 {
                0
            } else {
                d * 0x10_0000_0000_0000 - n * steps
            }),
    via significand_steps_end
{
    if n == 0 || steps == 0 || n * steps >= d * 0x10_0000_0000_0000 {
        steps
    } else {
        significand_steps(n, d, 2 * steps)
    }
}

/// A nonnegative decimal number: the point stands before the digit at `point`, which may lie
/// outside the digits on either side.
pub struct Decimal {
    pub digits: Seq<u8>,
    pub point: int,
}

impl Decimal {
    /// The digits are digits, and the first one is not zero.
    pub open spec fn wf(self) -> bool {
        &&& all_digits(self.digits)
        &&& self.digits.len() > 0 ==> self.digits[0] > 0
    }

    /// The number is `numerator / denominator`.
    pub open spec fn numerator(self) -> nat {
        if self.point > self.digits.len() {
            digits_value(self.digits) * ten_to((self.point - self.digits.len()) as nat)
        } else {
            digits_value(self.digits)
        }
    }

    /// The number is `numerator / denominator`.
    pub open spec fn denominator(self) -> nat {
        if self.point > self.digits.len() {
            1
        } else {
            ten_to((self.digits.len() - self.point) as nat)
        }
    }

    /// The number read as a double, multiplied by ten to the `exponent` as a double, and
    /// truncated to a `u32` with saturation.
    ///
    /// From 10^10 up the product saturates and below a tenth it truncates to zero, however
    /// either is rounded. Between the two the first rounding is that of the number to
    /// fifty-three binary digits and the second that of the product.
    pub open spec fn scaled_to_u32(self, exponent: nat) -> nat {
        if self.digits.len() == 0 || self.point + exponent < 0 {
            0
        } else if self.point + exponent > 10 {
            u32::MAX as nat
        } else {
            let steps = significand_steps(self.numerator(), self.denominator(), 1);
            let significand = nearest_even(self.numerator() * steps, self.denominator());
            truncated_quotient(significand * ten_to(exponent), steps)
        }
    }
}

/// The nearest double to a whole number plus a fraction, as a significand and the number of
/// steps in a unit.
fn nearest_double(whole: u64, fraction: Vec<u8>) -> (double: (u64, u128))
    requires
        whole < 0x10_0000_0000_0000,
        all_digits(fraction@),
        (whole * ten_to(fraction@.len()) + digits_value(fraction@)) * 10_000_000_000 >= ten_to(
            fraction@.len(),
        ),
    ensures
        ({
            let d = ten_to(fraction@.len());
            let n = (whole * d + digits_value(fraction@)) as nat;
            &&& double.1 == significand_steps(n, d, 1)
            &&& double.0 == nearest_even((n * double.1) as nat, d)
            &&& double.0 <= 0x20_0000_0000_0000
            &&& exists|k: nat| double.1 == #[trigger] pow2(k)
            &&& double.1 < 0x4000_0000_0000_0000_0000_0000_0000_0000
        }),
{
    let ghost d = ten_to(fraction@.len());
    let ghost n = (whole * d + digits_value(fraction@)) as nat;
    let mut fraction = fraction;
    let mut acc: u64 = whole;
    let mut steps: u128 = 1;
    let ghost mut k: nat = 0;
    proof {
        lemma2_to64();
        digits_are_bounded(fraction@);
        ten_to_is_positive(fraction@.len());
        assert(n * 1 == n) by (nonlinear_arith);
        assert(n > 0);
    }
    while acc < 0x10_0000_0000_0000
        invariant
            n > 0,
            d > 0,
            n * 10_000_000_000 >= d,
            d == ten_to(fraction@.len()),
            all_digits(fraction@),
            acc < 0x20_0000_0000_0000,
            steps == pow2(k),
            0 < steps < 0x4000_0000_0000_0000_0000_0000_0000_0000,
            n * steps == acc * d + digits_value(fraction@),
            digits_value(fraction@) < d,
            significand_steps(n, d, 1) == significand_steps(n, d, steps as nat),
        decreases 0x20_0000_0000_0000 - acc, 0x4000_0000_0000_0000_0000_0000_0000_0000 - steps,
    {
        proof {
            let r = digits_value(fraction@);
            // The significand is still short, so the number of steps is bounded.
            assert(n * steps < d * 0x10_0000_0000_0000) by (nonlinear_arith)
                requires
                    n * steps == acc * d + r,
                    0 <= r < d,
                    acc < 0x10_0000_0000_0000,
            ;
            assert(steps < 0x10_0000_0000_0000 * 10_000_000_000) by (nonlinear_arith)
                requires
                    n * steps < d * 0x10_0000_0000_0000,
                    n * 10_000_000_000 >= d,
                    n > 0,
                    d > 0,
                    steps > 0,
            ;
            assert(n * (2 * steps) == 2 * (n * steps)) by (nonlinear_arith);
            vstd::arithmetic::power2::lemma_pow2_unfold(k + 1);
        }
        let ghost before = fraction@;
        let carry: u8 = double_fraction(&mut fraction);
        let ghost old_acc = acc;
        acc = 2 * acc + carry as u64;
        steps = 2 * steps;
        proof {
            k = k + 1;
            digits_are_bounded(fraction@);
            assert(2 * (old_acc * d) + carry * d == acc * d) by (nonlinear_arith)
                requires
                    acc == 2 * old_acc + carry,
            ;
        }
    }
    proof {
        let r = digits_value(fraction@);
        assert(n * steps >= d * 0x10_0000_0000_0000) by (nonlinear_arith)
            requires
                n * steps == acc * d + r,
                0 <= r,
                acc >= 0x10_0000_0000_0000,
                d > 0,
        ;
        assert((n * steps) == d * acc + r) by (nonlinear_arith)
            requires
                n * steps == acc * d + r,
        ;
        vstd::arithmetic::div_mod::lemma_fundamental_div_mod_converse(
            n * steps,
            d as int,
            acc as int,
            r as int,
        );
    }
    let ghost r = digits_value(fraction@);
    let half: u8 = double_fraction(&mut fraction);
    proof {
        digits_are_bounded(fraction@);
        let rest = digits_value(fraction@);
        assert(2 * r == half * d + rest);
        assert(half == 0 ==> half * d == 0) by (nonlinear_arith);
        assert(half == 1 ==> half * d == d) by (nonlinear_arith);
    }
    let significand: u64 = if half == 0 {
        acc
    } else if !is_nothing(&fraction) {
        acc + 1
    } else {
        acc + acc % 2
    };
    (significand, steps)
}

/// The whole number that a short run of digits writes.
fn short_value(digits: &[u8], end: usize) -> (value: u64)
    requires
        all_digits(digits@),
        end <= digits@.len(),
        end <= 10,
    ensures
        value == digits_value(digits@.take(end as int)),
        value < 10_000_000_000,
{
    let mut value: u64 = 0;
    let mut i: usize = 0;
    assert(digits@.take(0) =~= seq![]);
    while i < end
        invariant
            i <= end <= digits@.len(),
            end <= 10,
            all_digits(digits@),
            value == digits_value(digits@.take(i as int)),
            value < ten_to(i as nat),
        decreases end - i,
    {
        proof {
            ten_to_grows((i + 1) as nat, 10);
            ten_to_values();
            assert(digits@.take(i + 1).drop_last() =~= digits@.take(i as int));
            assert(digits@.take(i + 1).last() == digits@[i as int]);
        }
        value = 10 * value + digits[i] as u64;
        i += 1;
    }
    proof {
        ten_to_grows(end as nat, 10);
        ten_to_values();
    }
    value
}

proof fn ten_to_grows(a: nat, b: nat)
    requires
        a <= b,
    ensures
        ten_to(a) <= ten_to(b),
    decreases b - a,
{
    if a < b {
        ten_to_grows(a, (b - 1) as nat);
    }
}

proof fn ten_to_values()
    ensures
        ten_to(0) == 1,
        ten_to(1) == 10,
        ten_to(3) == 1_000,
        ten_to(6) == 1_000_000,
        ten_to(9) == 1_000_000_000,
        ten_to(10) == 10_000_000_000,
{
    reveal_with_fuel(ten_to, 11);
}

/// Ten to a small power.
fn power_of_ten(k: usize) -> (power: u64)
    requires
        k <= 10,
    ensures
        power == ten_to(k as nat),
        0 < power <= 10_000_000_000,
{
    let mut power: u64 = 1;
    let mut i: usize = 0;
    while i < k
        invariant
            i <= k <= 10,
            power == ten_to(i as nat),
        decreases k - i,
    {
        proof {
            ten_to_grows((i + 1) as nat, 10);
            ten_to_values();
        }
        power = 10 * power;
        i += 1;
    }
    proof {
        ten_to_grows(k as nat, 10);
        ten_to_values();
        ten_to_is_positive(k as nat);
    }
    power
}

/// Reads a decimal number as a double, multiplies it by a power of ten as a double, and
/// truncates the product to a `u32`, saturating.
pub fn scaled_to_u32(digits: &[u8], point: i128, exponent: usize) -> (value: u32)
    requires
        (Decimal { digits: digits@, point: point as int }).wf(),
        exponent <= 9,
        -0x4000_0000_0000_0000_0000_0000_0000_0000 < point
            < 0x4000_0000_0000_0000_0000_0000_0000_0000,
    ensures
        value == (Decimal { digits: digits@, point: point as int }).scaled_to_u32(exponent as nat),
{
    let ghost number = Decimal { digits: digits@, point: point as int };
    if digits.len() == 0 || point + (exponent as i128) < 0 {
        return 0;
    }
    if point + exponent as i128 > 10 {
        return u32::MAX;
    }
    let len: usize = digits.len();
    let mut fraction: Vec<u8> = Vec::new();
    let whole: u64;
    if point <= 0 {
        // Zeroes stand between the point and the first digit.
        let zeroes: usize = (-point) as usize;
        let mut i: usize = 0;
        while i < zeroes
            invariant
                i <= zeroes,
                fraction@.len() == i,
                forall|j: int| 0 <= j < i ==> #[trigger] fraction@[j] == 0,
            decreases zeroes - i,
        {
            fraction.push(0);
            i += 1;
        }
        let ghost leading = fraction@;
        fraction.extend_from_slice(digits);
        whole = 0;
        proof {
            assert(fraction@ =~= leading + digits@);
            zeroes_write_nothing(leading);
            digits_join(leading, digits@);
            assert(0 * ten_to(len as nat) == 0) by (nonlinear_arith);
            assert(fraction@.len() == len - point);
            assert(0 * ten_to(fraction@.len()) == 0) by (nonlinear_arith);
        }
    } else if (point as usize) < len {
        let split: usize = point as usize;
        whole = short_value(digits, split);
        fraction.extend_from_slice(vstd::slice::slice_subrange(digits, split, len));
        proof {
            assert(fraction@ =~= digits@.skip(split as int));
            assert(digits@ =~= digits@.take(split as int) + fraction@);
            digits_join(digits@.take(split as int), fraction@);
        }
    } else {
        let head: u64 = short_value(digits, len);
        let raise: u64 = power_of_ten(point as usize - len);
        proof {
            assert(digits@.take(len as int) =~= digits@);
            let more = (point - len) as nat;
            digits_are_bounded(digits@);
            ten_to_adds(len as nat, more);
            ten_to_grows((len + more) as nat, 10);
            ten_to_values();
            assert(head * raise < 10_000_000_000) by (nonlinear_arith)
                requires
                    head < ten_to(len as nat),
                    raise == ten_to(more),
                    raise > 0,
                    ten_to(len as nat) * ten_to(more) <= 10_000_000_000,
            ;
        }
        whole = head * raise;
        proof {
            assert(fraction@ =~= seq![]);
            assert(whole * 1 == whole) by (nonlinear_arith);
            if point == len {
                assert(head * 1 == head) by (nonlinear_arith);
            }
        }
    }
    let ghost d = ten_to(fraction@.len());
    let ghost n = (whole * d + digits_value(fraction@)) as nat;
    proof {
        assert(n == number.numerator());
        assert(d == number.denominator());
        assert(all_digits(fraction@)) by {
            assert forall|i: int| 0 <= i < fraction@.len() implies #[trigger] fraction@[i] < 10 by {
                if point <= 0 {
                    if i >= -point {
                        assert(fraction@[i] == digits@[i + point]);
                    }
                } else {
                    assert(fraction@[i] == digits@[i + point]);
                }
            }
        }
        leading_digit_counts(digits@);
        ten_to_values();
        ten_to_is_positive(fraction@.len());
        if point <= len {
            let low = (len - 1) as nat;
            ten_to_adds(low, 10);
            ten_to_grows((len - point) as nat, low + 10);
        } else {
            let raise = ten_to((point - len) as nat);
            ten_to_is_positive((len - 1) as nat);
            ten_to_is_positive((point - len) as nat);
            assert(n >= 1) by (nonlinear_arith)
                requires
                    n == digits_value(digits@) * raise,
                    digits_value(digits@) >= 1,
                    raise >= 1,
            ;
        }
    }
    let (significand, steps) = nearest_double(whole, fraction);
    let scale: u64 = power_of_ten(exponent);
    let ghost k = choose|k: nat| steps == #[trigger] pow2(k);
    proof {
        ten_to_grows(exponent as nat, 9);
        ten_to_values();
        assert(significand * scale <= 0x20_0000_0000_0000 * 1_000_000_000) by (nonlinear_arith)
            requires
                significand <= 0x20_0000_0000_0000,
                scale <= 1_000_000_000,
        ;
    }
    crate::binary64::truncated_shift(significand as u128 * scale as u128, steps, Ghost(k))
}

proof fn significand_steps_are_positive(n: nat, d: nat, steps: nat)
    requires
        steps > 0,
    ensures
        significand_steps(n, d, steps) > 0,
    decreases
            (if n * steps >= d * 0x10_0000_0000_0000 {
                0
            } else {
                d * 0x10_0000_0000_0000 - n * steps
            }),
{
    if n == 0 || n * steps >= d * 0x10_0000_0000_0000 {
    } else {
        assert(n * (2 * steps) > n * steps) by (nonlinear_arith)
            requires
                n > 0,
                steps > 0,
        ;
        significand_steps_are_positive(n, d, 2 * steps);
    }
}

/// The steps found for a number give it a significand of exactly fifty-three digits.
pub proof fn decimal_significands_have_fifty_three_digits(n: nat, d: nat, steps: nat)
    requires
        n > 0,
        d > 0,
        steps > 0,
        n * steps < d * 0x20_0000_0000_0000,
    ensures
        ({
            let found = significand_steps(n, d, steps);
            d * 0x10_0000_0000_0000 <= n * found < d * 0x20_0000_0000_0000
        }),
    decreases
            (if n * steps >= d * 0x10_0000_0000_0000 {
                0
            } else {
                d * 0x10_0000_0000_0000 - n * steps
            }),
{
    if n * steps < d * 0x10_0000_0000_0000 {
        assert(n * (2 * steps) == 2 * (n * steps) && n * (2 * steps) > n * steps)
            by (nonlinear_arith)
            requires
                n > 0,
                steps > 0,
        ;
        decimal_significands_have_fifty_three_digits(n, d, 2 * steps);
    }
}

/// A whole number that fits a `u32` survives being read as a double.
pub proof fn whole_numbers_are_exact(digits: Seq<u8>, n: nat)
    requires
        digits.len() > 0,
        digits[0] > 0,
        digits_value(digits) == n,
        n <= u32::MAX,
    ensures
        (Decimal { digits, point: digits.len() as int }).scaled_to_u32(0) == n,
{
    let number = Decimal { digits, point: digits.len() as int };
    leading_digit_counts(digits);
    if digits.len() > 10 {
        ten_to_grows(10, (digits.len() - 1) as nat);
        ten_to_values();
    }
    let steps = significand_steps(n, 1, 1);
    significand_steps_are_positive(n, 1, 1);
    let product = n * steps;
    lemma_fundamental_div_mod_converse(product as int, 1, product as int, 0);
    assert(nearest_even(product, 1) == product);
    assert(product * 1 == product) by (nonlinear_arith);
    lemma_fundamental_div_mod_converse(product as int, steps as int, n as int, 0);
    let unit = steps_per_unit(n);
    lemma_pow2_pos((53 - significant_bits(n)) as nat);
    let fine = product * unit;
    assert(fine == (n * unit) * steps) by (nonlinear_arith)
        requires
            fine == (n * steps) * unit,
    ;
    lemma_fundamental_div_mod_converse(fine as int, steps as int, (n * unit) as int, 0);
    assert(nearest_even(fine, steps) == n * unit);
    lemma_fundamental_div_mod_converse((n * unit) as int, unit as int, n as int, 0);
}

/// A whole number times a power of ten that fits a `u32` survives being read as a double and
/// multiplied.
pub proof fn scaled_whole_numbers_are_exact(digits: Seq<u8>, n: nat, exponent: nat)
    requires
        digits.len() > 0,
        digits[0] > 0,
        digits_value(digits) == n,
        n * ten_to(exponent) <= u32::MAX,
    ensures
        (Decimal { digits, point: digits.len() as int }).scaled_to_u32(exponent) == n * ten_to(
            exponent,
        ),
{
    let number = Decimal { digits, point: digits.len() as int };
    let scale = ten_to(exponent);
    let v = n * scale;
    leading_digit_counts(digits);
    ten_to_is_positive(exponent);
    if digits.len() + exponent > 10 {
        let lead = (digits.len() - 1) as nat;
        ten_to_adds(lead, exponent);
        ten_to_grows(10, lead + exponent);
        ten_to_values();
        assert(v >= ten_to(lead) * scale) by (nonlinear_arith)
            requires
                v == n * scale,
                n >= ten_to(lead),
        ;
    }
    let steps = significand_steps(n, 1, 1);
    significand_steps_are_positive(n, 1, 1);
    let product = n * steps;
    lemma_fundamental_div_mod_converse(product as int, 1, product as int, 0);
    assert(nearest_even(product, 1) == product);
    let top = product * scale;
    assert(top == v * steps) by (nonlinear_arith)
        requires
            top == (n * steps) * scale,
            v == n * scale,
    ;
    lemma_fundamental_div_mod_converse(top as int, steps as int, v as int, 0);
    let unit = steps_per_unit(v);
    lemma_pow2_pos((53 - significant_bits(v)) as nat);
    let fine = top * unit;
    assert(fine == (v * unit) * steps) by (nonlinear_arith)
        requires
            fine == (v * steps) * unit,
    ;
    lemma_fundamental_div_mod_converse(fine as int, steps as int, (v * unit) as int, 0);
    assert(nearest_even(fine, steps) == v * unit);
    lemma_fundamental_div_mod_converse((v * unit) as int, unit as int, v as int, 0);
}

/// The powers of ten that suffixes stand for.
pub proof fn suffix_powers()
    ensures
        ten_to(3) == 1_000,
        ten_to(6) == 1_000_000,
        ten_to(9) == 1_000_000_000,
{
    ten_to_values();
}

} // verus!
