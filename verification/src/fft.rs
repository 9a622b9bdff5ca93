//! In-place radix-2 FFT over split real and imaginary arrays: which elements meet, in which
//! order, with which twiddle factor.
//!
//! Decimation in time, so the input is bit-reversed once up front and the butterflies then
//! run over contiguous memory. Twiddle factors are precomputed into a single flat table
//! laid out per stage: the stage whose half-block is `h` reads `h` consecutive entries
//! starting at `h - 1`. Summing over stages gives `n - 1` entries total.

use vstd::arithmetic::div_mod::{
    lemma_fundamental_div_mod, lemma_fundamental_div_mod_converse, lemma_mod_bound,
};
use vstd::arithmetic::power2::{
    lemma2_to64, lemma_pow2_adds, lemma_pow2_pos, lemma_pow2_strictly_increases, lemma_pow2_unfold, pow2,
};
use vstd::prelude::*;

verus! {

/// The low `bits` bits of `i` in reverse order.
pub open spec fn reversed_bits(i: nat, bits: nat) -> nat
    decreases bits,
{
    if bits == 0 {
        0
    } else {
        (i % 2) * pow2((bits - 1) as nat) + reversed_bits(i / 2, (bits - 1) as nat)
    }
}

/// A reversal stays within its bits.
pub proof fn reversal_is_bounded(i: nat, bits: nat)
    ensures
        reversed_bits(i, bits) < pow2(bits),
    decreases bits,
{
    if bits == 0 {
        lemma2_to64();
    } else {
        reversal_is_bounded(i / 2, (bits - 1) as nat);
        lemma_pow2_unfold(bits);
        let half = pow2((bits - 1) as nat);
        assert((i % 2) * half <= half) by (nonlinear_arith)
            requires
                i % 2 <= 1,
        ;
    }
}

/// The top bit comes out lowest.
proof fn reversal_of_top_bit(top: nat, low: nat, bits: nat)
    requires
        bits >= 1,
        top <= 1,
        low < pow2((bits - 1) as nat),
    ensures
        reversed_bits(top * pow2((bits - 1) as nat) + low, bits) == top + 2 * reversed_bits(
            low,
            (bits - 1) as nat,
        ),
    decreases bits,
{
    lemma2_to64();
    let half = pow2((bits - 1) as nat);
    let i = top * half + low;
    if bits == 1 {
        assert(i == top) by (nonlinear_arith)
            requires
                i == top * half + low,
                half == 1,
                low == 0,
        ;
        assert(top * 1 == top) by (nonlinear_arith);
        reveal_with_fuel(reversed_bits, 2);
    } else {
        let quarter = pow2((bits - 2) as nat);
        lemma_pow2_unfold((bits - 1) as nat);
        assert(top * half == 2 * (top * quarter)) by (nonlinear_arith)
            requires
                half == 2 * quarter,
        ;
        reversal_of_top_bit(top, low / 2, (bits - 1) as nat);
        assert(i / 2 == top * quarter + low / 2);
        assert(i % 2 == low % 2);
        assert((low % 2) * half == 2 * ((low % 2) * quarter)) by (nonlinear_arith)
            requires
                half == 2 * quarter,
        ;
    }
}

/// Reversing twice gives the index back, so the permutation is a set of swaps.
pub proof fn reversal_is_an_involution(i: nat, bits: nat)
    requires
        i < pow2(bits),
    ensures
        reversed_bits(reversed_bits(i, bits), bits) == i,
    decreases bits,
{
    lemma2_to64();
    if bits > 0 {
        lemma_pow2_unfold(bits);
        let shorter = (bits - 1) as nat;
        reversal_is_an_involution(i / 2, shorter);
        reversal_is_bounded(i / 2, shorter);
        reversal_of_top_bit(i % 2, reversed_bits(i / 2, shorter), bits);
    }
}

/// Reverses the low `bits` bits of an index.
fn reverse(i: usize, bits: usize) -> (r: usize)
    requires
        pow2(bits as nat) <= usize::MAX,
    ensures
        r == reversed_bits(i as nat, bits as nat),
{
    let mut acc: usize = 0;
    let mut rest: usize = i;
    let mut k: usize = 0;
    assert(0 * pow2(bits as nat) == 0) by (nonlinear_arith);
    while k < bits
        invariant
            k <= bits,
            pow2(bits as nat) <= usize::MAX,
            reversed_bits(i as nat, bits as nat) == acc * pow2((bits - k) as nat) + reversed_bits(
                rest as nat,
                (bits - k) as nat,
            ),
        decreases bits - k,
    {
        proof {
            let left = (bits - k) as nat;
            let half = pow2((left - 1) as nat);
            lemma_pow2_unfold(left);
            lemma_pow2_pos((left - 1) as nat);
            reversal_is_bounded(i as nat, bits as nat);
            let bit = rest as nat % 2;
            assert(acc * (2 * half) + bit * half == (2 * acc + bit) * half) by (nonlinear_arith);
            assert(2 * acc + bit <= (2 * acc + bit) * half) by (nonlinear_arith)
                requires
                    half >= 1,
                    acc >= 0,
                    bit >= 0,
            ;
        }
        acc = 2 * acc + rest % 2;
        rest = rest / 2;
        k += 1;
    }
    proof {
        lemma2_to64();
        assert(acc * 1 == acc) by (nonlinear_arith);
    }
    acc
}

/// A block of complex samples.
#[verifier::ext_equal]
pub struct Signal<T> {
    pub re: Seq<T>,
    pub im: Seq<T>,
}

/// Where the element at `k` came from once the pairs with a member below `i` are swapped.
pub open spec fn source(k: int, i: int, bits: nat) -> int {
    if k < i || reversed_bits(k as nat, bits) < i {
        reversed_bits(k as nat, bits) as int
    } else {
        k
    }
}

/// Every element has moved to the reversal of its index.
pub open spec fn permuted<T>(before: Seq<T>, after: Seq<T>, bits: nat) -> bool {
    &&& after.len() == before.len()
    &&& forall|i: int|
        0 <= i < after.len() ==> #[trigger] after[i] == before[reversed_bits(
            i as nat,
            bits,
        ) as int]
}

/// Whether an index is the upper member of a pair in the stage with half-block `h`.
pub open spec fn leads(a: int, h: int) -> bool {
    a % (2 * h) < h
}

/// One pair of a stage: the element at `a` and the one a half-block further on, with the
/// twiddle factor of their place in the block.
pub open spec fn crossed<T, F: Fn(T, T, T, T, T, T) -> (T, T, T, T)>(
    butterfly: F,
    before: Signal<T>,
    after: Signal<T>,
    twiddles: Signal<T>,
    h: int,
    a: int,
) -> bool {
    let w = h - 1 + a % (2 * h);
    call_ensures(
        butterfly,
        (
            before.re[a],
            before.im[a],
            before.re[a + h],
            before.im[a + h],
            twiddles.re[w],
            twiddles.im[w],
        ),
        (after.re[a], after.im[a], after.re[a + h], after.im[a + h]),
    )
}

/// One whole stage: every pair has been crossed, each once.
pub open spec fn stage_done<T, F: Fn(T, T, T, T, T, T) -> (T, T, T, T)>(
    butterfly: F,
    before: Signal<T>,
    after: Signal<T>,
    twiddles: Signal<T>,
    h: int,
) -> bool {
    &&& after.re.len() == before.re.len()
    &&& after.im.len() == before.im.len()
    &&& forall|a: int|
        0 <= a < before.re.len() && leads(a, h) ==> #[trigger] crossed(
            butterfly,
            before,
            after,
            twiddles,
            h,
            a,
        )
}

/// All stages with a half-block below two to the `stages` have been done, smallest first.
pub open spec fn stages_done<T, F: Fn(T, T, T, T, T, T) -> (T, T, T, T)>(
    butterfly: F,
    start: Signal<T>,
    now: Signal<T>,
    twiddles: Signal<T>,
    stages: nat,
) -> bool
    decreases stages,
{
    if stages == 0 {
        now == start
    } else {
        exists|middle: Signal<T>|
            stages_done(butterfly, start, middle, twiddles, (stages - 1) as nat)
                && #[trigger] stage_done(
                butterfly,
                middle,
                now,
                twiddles,
                pow2((stages - 1) as nat) as int,
            )
    }
}

/// Twiddle factor `j` of the stage with half-block `h` is where that stage looks for it.
pub open spec fn twiddle_placed<T, F: Fn(usize, usize) -> (T, T)>(
    twiddle: F,
    twiddles: Signal<T>,
    h: int,
    j: int,
) -> bool {
    call_ensures(
        twiddle,
        (j as usize, (2 * h) as usize),
        (twiddles.re[h - 1 + j], twiddles.im[h - 1 + j]),
    )
}

/// The whole transform: the permutation, then all stages.
pub open spec fn transformed<T, F: Fn(T, T, T, T, T, T) -> (T, T, T, T)>(
    butterfly: F,
    before: Signal<T>,
    after: Signal<T>,
    twiddles: Signal<T>,
    order: nat,
) -> bool {
    exists|start: Signal<T>|
        permuted(before.re, start.re, order) && permuted(before.im, start.im, order)
            && #[trigger] stages_done(butterfly, start, after, twiddles, order)
}

/// The place of an index in its block.
pub proof fn place_in_block(block: int, j: int, h: int)
    requires
        h > 0,
        0 <= j < 2 * h,
    ensures
        (2 * h * block + j) % (2 * h) == j,
{
    assert(2 * h * block + j == block * (2 * h) + j) by (nonlinear_arith);
    lemma_fundamental_div_mod_converse(2 * h * block + j, 2 * h, block, j);
}

/// An index that leads a pair before a block boundary is followed before it.
proof fn follower_stays_in_block(a: int, h: int, block: int)
    requires
        h > 0,
        leads(a, h),
        0 <= a < 2 * h * block,
    ensures
        a + h < 2 * h * block,
{
    let m = 2 * h;
    lemma_fundamental_div_mod(a, m);
    lemma_mod_bound(a, m);
    let q = a / m;
    let r = a % m;
    assert(q + 1 <= block) by (nonlinear_arith)
        requires
            a == m * q + r,
            0 <= r,
            a < m * block,
            m > 0,
    ;
    assert(m * (q + 1) <= m * block) by (nonlinear_arith)
        requires
            q + 1 <= block,
            m > 0,
    ;
    assert(m * (q + 1) == m * q + m) by (nonlinear_arith);
}

/// The length of a block: two half-blocks.
fn block_len(h: usize, n: usize, Ghost(blocks): Ghost<int>) -> (m: usize)
    requires
        h >= 1,
        n == 2 * h * blocks,
        n >= 1,
    ensures
        m == 2 * h,
        m <= n,
        n == m * blocks,
{
    proof {
        assert(blocks >= 1) by (nonlinear_arith)
            requires
                n == 2 * h * blocks,
                n >= 1,
                h >= 1,
        ;
        assert(2 * h <= n) by (nonlinear_arith)
            requires
                n == 2 * h * blocks,
                blocks >= 1,
                h >= 1,
        ;
    }
    2 * h
}

/// Precomputed plan for one transform size.
///
/// Building a plan allocates; running it does not. Construct once and reuse across blocks.
#[derive(Debug, Clone)]
pub struct Fft<T> {
    n: usize,
    bits: usize,
    /// Where each element travels during the bit-reversal permutation.
    reversal: Vec<usize>,
    tw_re: Vec<T>,
    tw_im: Vec<T>,
}

impl<T: Copy> Fft<T> {
    /// The transform size.
    pub closed spec fn size(&self) -> nat {
        self.n as nat
    }

    /// The size is two to this.
    pub closed spec fn order(&self) -> nat {
        self.bits as nat
    }

    /// The twiddle factors.
    pub closed spec fn twiddles(&self) -> Signal<T> {
        Signal { re: self.tw_re@, im: self.tw_im@ }
    }

    /// Where each element travels.
    pub closed spec fn travels(&self) -> Seq<usize> {
        self.reversal@
    }

    /// The size is a power of two, and both tables are complete.
    pub open spec fn wf(&self) -> bool {
        &&& 2 <= self.size() <= usize::MAX
        &&& self.size() == pow2(self.order())
        &&& self.twiddles().re.len() == self.size() - 1
        &&& self.twiddles().im.len() == self.size() - 1
        &&& self.travels().len() == self.size()
        &&& forall|i: int|
            0 <= i < self.size() ==> #[trigger] self.travels()[i] == reversed_bits(
                i as nat,
                self.order(),
            )
    }

    /// Builds a plan. `twiddle` gives `exp(-2 pi i j / m)` for `j` and `m`.
    pub fn new<F: Fn(usize, usize) -> (T, T)>(n: usize, twiddle: &F) -> (plan: Self)
        requires
            n >= 2,
            exists|b: nat| n == #[trigger] pow2(b),
            forall|j: usize, m: usize| call_requires(*twiddle, (j, m)),
        ensures
            plan.wf(),
            plan.size() == n,
            forall|s: nat, j: int|
                s < plan.order() && 0 <= j < pow2(s) ==> #[trigger] twiddle_placed(
                    *twiddle,
                    plan.twiddles(),
                    pow2(s) as int,
                    j,
                ),
    {
        let ghost b = choose|b: nat| n == #[trigger] pow2(b);
        let mut tw_re: Vec<T> = Vec::new();
        let mut tw_im: Vec<T> = Vec::new();
        let mut h: usize = 1;
        let mut bits: usize = 0;
        proof {
            lemma2_to64();
        }
        // Stage with half-block h occupies [h - 1, 2h - 1), so the table totals n - 1.
        while h < n
            invariant
                n == pow2(b),
                h == pow2(bits as nat),
                bits <= b,
                1 <= h <= n,
                bits < h,
                tw_re@.len() == h - 1,
                tw_im@.len() == h - 1,
                forall|j: usize, m: usize| call_requires(*twiddle, (j, m)),
                forall|s: nat, j: int|
                    s < bits && 0 <= j < pow2(s) ==> #[trigger] twiddle_placed(
                        *twiddle,
                        Signal { re: tw_re@, im: tw_im@ },
                        pow2(s) as int,
                        j,
                    ),
            decreases n - h,
        {
            proof {
                if bits as nat >= b {
                    assert(bits == b);
                    assert(false);
                }
                lemma_pow2_unfold((bits + 1) as nat);
                if bits + 1 < b {
                    lemma_pow2_strictly_increases((bits + 1) as nat, b);
                }
            }
            let m: usize = 2 * h;
            let ghost before = Signal { re: tw_re@, im: tw_im@ };
            let mut j: usize = 0;
            while j < h
                invariant
                    j <= h,
                    h >= 1,
                    m == 2 * h,
                    before.re.len() == h - 1,
                    before.im.len() == h - 1,
                    tw_re@.len() == h - 1 + j,
                    tw_im@.len() == h - 1 + j,
                    forall|x: usize, y: usize| call_requires(*twiddle, (x, y)),
                    forall|i: int| 0 <= i < h - 1 ==> tw_re@[i] == before.re[i] && tw_im@[i] == before.im[i],
                    forall|i: int|
                        0 <= i < j ==> #[trigger] twiddle_placed(
                            *twiddle,
                            Signal { re: tw_re@, im: tw_im@ },
                            h as int,
                            i,
                        ),
                decreases h - j,
            {
                let ghost so_far = Signal { re: tw_re@, im: tw_im@ };
                let (c, s) = twiddle(j, m);
                tw_re.push(c);
                tw_im.push(s);
                proof {
                    let now = Signal { re: tw_re@, im: tw_im@ };
                    assert forall|i: int| 0 <= i < j + 1 implies #[trigger] twiddle_placed(
                        *twiddle,
                        now,
                        h as int,
                        i,
                    ) by {
                        if i < j {
                            assert(twiddle_placed(*twiddle, so_far, h as int, i));
                            assert(now.re[h - 1 + i] == so_far.re[h - 1 + i]);
                            assert(now.im[h - 1 + i] == so_far.im[h - 1 + i]);
                        }
                    }
                }
                j += 1;
            }
            proof {
                let now = Signal { re: tw_re@, im: tw_im@ };
                assert forall|s: nat, i: int|
                    s < bits + 1 && 0 <= i < pow2(s) implies #[trigger] twiddle_placed(
                    *twiddle,
                    now,
                    pow2(s) as int,
                    i,
                ) by {
                    if s < bits {
                        assert(twiddle_placed(*twiddle, before, pow2(s) as int, i));
                        lemma_pow2_unfold((s + 1) as nat);
                        if s + 1 < bits {
                            lemma_pow2_strictly_increases((s + 1) as nat, bits as nat);
                        }
                        assert(pow2(s) - 1 + i < h - 1);
                        assert(now.re[pow2(s) - 1 + i] == before.re[pow2(s) - 1 + i]);
                        assert(now.im[pow2(s) - 1 + i] == before.im[pow2(s) - 1 + i]);
                    }
                }
            }
            h = m;
            bits += 1;
        }
        let mut reversal: Vec<usize> = Vec::with_capacity(n);
        let mut i: usize = 0;
        while i < n
            invariant
                i <= n,
                n == pow2(bits as nat),
                reversal@.len() == i,
                forall|k: int|
                    0 <= k < i ==> #[trigger] reversal@[k] == reversed_bits(k as nat, bits as nat),
            decreases n - i,
        {
            reversal.push(reverse(i, bits));
            i += 1;
        }
        Self { n, bits, reversal, tw_re, tw_im }
    }

    pub fn len(&self) -> (n: usize)
        ensures
            n == self.size(),
    {
        self.n
    }

    pub fn is_empty(&self) -> (empty: bool)
        ensures
            !empty,
    {
        false
    }

    fn permute(&self, re: &mut [T], im: &mut [T])
        requires
            self.wf(),
            old(re)@.len() == self.size(),
            old(im)@.len() == self.size(),
        ensures
            permuted(old(re)@, final(re)@, self.order()),
            permuted(old(im)@, final(im)@, self.order()),
    {
        let ghost bits = self.order();
        let mut i: usize = 0;
        while i < self.n
            invariant
                self.wf(),
                bits == self.order(),
                i <= self.n,
                re@.len() == self.size(),
                im@.len() == self.size(),
                old(re)@.len() == self.size(),
                old(im)@.len() == self.size(),
                forall|k: int|
                    0 <= k < self.size() ==> #[trigger] re@[k] == old(re)@[source(
                        k,
                        i as int,
                        bits,
                    )],
                forall|k: int|
                    0 <= k < self.size() ==> #[trigger] im@[k] == old(im)@[source(
                        k,
                        i as int,
                        bits,
                    )],
            decreases self.n - i,
        {
            proof {
                assert(self.travels()[i as int] == reversed_bits(i as nat, bits));
                reversal_is_bounded(i as nat, bits);
                reversal_is_an_involution(i as nat, bits);
            }
            let j: usize = self.reversal[i];
            let ghost re_before = re@;
            let ghost im_before = im@;
            // Swap once per pair rather than twice.
            if j > i {
                let r = re[i];
                re[i] = re[j];
                re[j] = r;
                let m = im[i];
                im[i] = im[j];
                im[j] = m;
            }
            proof {
                assert forall|k: int| 0 <= k < self.size() implies #[trigger] re@[k] == old(
                    re,
                )@[source(k, i + 1, bits)] by {
                    reversal_is_an_involution(k as nat, bits);
                    assert(re_before[k] == old(re)@[source(k, i as int, bits)]);
                    assert(re_before[i as int] == old(re)@[source(i as int, i as int, bits)]);
                    assert(re_before[j as int] == old(re)@[source(j as int, i as int, bits)]);
                }
                assert forall|k: int| 0 <= k < self.size() implies #[trigger] im@[k] == old(
                    im,
                )@[source(k, i + 1, bits)] by {
                    reversal_is_an_involution(k as nat, bits);
                    assert(im_before[k] == old(im)@[source(k, i as int, bits)]);
                    assert(im_before[i as int] == old(im)@[source(i as int, i as int, bits)]);
                    assert(im_before[j as int] == old(im)@[source(j as int, i as int, bits)]);
                }
            }
            i += 1;
        }
    }

    /// One stage: crosses every pair a half-block apart.
    fn stage<F: Fn(T, T, T, T, T, T) -> (T, T, T, T)>(
        &self,
        re: &mut [T],
        im: &mut [T],
        h: usize,
        butterfly: &F,
        Ghost(s): Ghost<nat>,
    )
        requires
            self.wf(),
            h == pow2(s),
            s < self.order(),
            old(re)@.len() == self.size(),
            old(im)@.len() == self.size(),
            forall|a: T, b: T, c: T, d: T, e: T, f: T|
                call_requires(*butterfly, (a, b, c, d, e, f)),
        ensures
            stage_done(
                *butterfly,
                (Signal { re: old(re)@, im: old(im)@ }),
                (Signal { re: final(re)@, im: final(im)@ }),
                self.twiddles(),
                h as int,
            ),
    {
        let n: usize = self.n;
        let ghost before = Signal { re: re@, im: im@ };
        let ghost blocks = pow2((self.order() - s - 1) as nat) as int;
        proof {
            lemma_pow2_pos(s);
            lemma_pow2_unfold((s + 1) as nat);
            lemma_pow2_adds((s + 1) as nat, (self.order() - s - 1) as nat);
            assert(n == 2 * h * blocks);
        }
        let m: usize = block_len(h, n, Ghost(blocks));
        let mut base: usize = 0;
        let ghost mut block: int = 0;
        assert(m * 0 == 0) by (nonlinear_arith);
        while base < n
            invariant
                self.wf(),
                n == self.size(),
                h >= 1,
                m == 2 * h,
                n == m * blocks,
                2 * h - 1 <= self.twiddles().re.len(),
                base == m * block,
                base <= n,
                0 <= block,
                before.re == old(re)@,
                before.im == old(im)@,
                before.re.len() == n,
                before.im.len() == n,
                re@.len() == n,
                im@.len() == n,
                forall|a: T, b: T, c: T, d: T, e: T, f: T|
                    call_requires(*butterfly, (a, b, c, d, e, f)),
                forall|a: int|
                    0 <= a < base && leads(a, h as int) ==> #[trigger] crossed(
                        *butterfly,
                        before,
                        Signal { re: re@, im: im@ },
                        self.twiddles(),
                        h as int,
                        a,
                    ),
                forall|k: int|
                    base <= k < n ==> #[trigger] re@[k] == before.re[k] && im@[k] == before.im[k],
            decreases n - base,
        {
            proof {
                assert(base + m <= n) by (nonlinear_arith)
                    requires
                        base == m * block,
                        n == m * blocks,
                        base < n,
                        m > 0,
                ;
                assert(m * (block + 1) == m * block + m) by (nonlinear_arith);
            }
            let mut j: usize = 0;
            while j < h
                invariant
                    self.wf(),
                    n == self.size(),
                    j <= h,
                    h >= 1,
                    m == 2 * h,
                    2 * h - 1 <= self.twiddles().re.len(),
                    base == m * block,
                    base + m <= n,
                    0 <= block,
                    before.re.len() == n,
                    before.im.len() == n,
                    re@.len() == n,
                    im@.len() == n,
                    forall|a: T, b: T, c: T, d: T, e: T, f: T|
                        call_requires(*butterfly, (a, b, c, d, e, f)),
                    forall|a: int|
                        0 <= a < base + j && leads(a, h as int) ==> #[trigger] crossed(
                            *butterfly,
                            before,
                            Signal { re: re@, im: im@ },
                            self.twiddles(),
                            h as int,
                            a,
                        ),
                    forall|k: int|
                        base + j <= k < base + h || base + h + j <= k < n ==> #[trigger] re@[k]
                            == before.re[k] && im@[k] == before.im[k],
                decreases h - j,
            {
                let top: usize = base + j;
                let bottom: usize = top + h;
                let w: usize = h - 1 + j;
                let ghost so_far = Signal { re: re@, im: im@ };
                let (ar, ai, br, bi) = butterfly(
                    re[top],
                    im[top],
                    re[bottom],
                    im[bottom],
                    self.tw_re[w],
                    self.tw_im[w],
                );
                re[top] = ar;
                im[top] = ai;
                re[bottom] = br;
                im[bottom] = bi;
                proof {
                    let now = Signal { re: re@, im: im@ };
                    place_in_block(block, j as int, h as int);
                    assert forall|a: int|
                        0 <= a < base + j + 1 && leads(a, h as int) implies #[trigger] crossed(
                        *butterfly,
                        before,
                        now,
                        self.twiddles(),
                        h as int,
                        a,
                    ) by {
                        if a < top {
                            assert(crossed(
                                *butterfly,
                                before,
                                so_far,
                                self.twiddles(),
                                h as int,
                                a,
                            ));
                            if a < base {
                                follower_stays_in_block(a, h as int, block);
                            }
                            assert(now.re[a] == so_far.re[a] && now.im[a] == so_far.im[a]);
                            assert(now.re[a + h] == so_far.re[a + h]);
                            assert(now.im[a + h] == so_far.im[a + h]);
                        } else {
                            assert(a == top);
                        }
                    }
                }
                j += 1;
            }
            proof {
                let now = Signal { re: re@, im: im@ };
                assert forall|a: int|
                    0 <= a < base + m && leads(a, h as int) implies #[trigger] crossed(
                    *butterfly,
                    before,
                    now,
                    self.twiddles(),
                    h as int,
                    a,
                ) by {
                    if a >= base + h {
                        place_in_block(block, a - base, h as int);
                    }
                }
                block = block + 1;
            }
            base = base + m;
        }
    }

    /// Forward transform, in place: the bit-reversal permutation, then every stage from
    /// neighbours up to the whole block.
    ///
    /// `butterfly` crosses two elements with a twiddle factor, all as real and imaginary
    /// parts: `(a, b, w)` gives `(a + w b, a - w b)`.
    pub fn forward<F: Fn(T, T, T, T, T, T) -> (T, T, T, T)>(
        &self,
        re: &mut [T],
        im: &mut [T],
        butterfly: &F,
    )
        requires
            self.wf(),
            old(re)@.len() == self.size(),
            old(im)@.len() == self.size(),
            forall|a: T, b: T, c: T, d: T, e: T, f: T|
                call_requires(*butterfly, (a, b, c, d, e, f)),
        ensures
            final(re)@.len() == self.size(),
            final(im)@.len() == self.size(),
            transformed(
                *butterfly,
                (Signal { re: old(re)@, im: old(im)@ }),
                (Signal { re: final(re)@, im: final(im)@ }),
                self.twiddles(),
                self.order(),
            ),
    {
        self.permute(re, im);
        let ghost start = Signal { re: re@, im: im@ };
        let mut h: usize = 1;
        let ghost mut s: nat = 0;
        proof {
            lemma2_to64();
        }
        while h < self.n
            invariant
                self.wf(),
                h == pow2(s),
                s <= self.order(),
                1 <= h <= self.n,
                re@.len() == self.size(),
                im@.len() == self.size(),
                forall|a: T, b: T, c: T, d: T, e: T, f: T|
                    call_requires(*butterfly, (a, b, c, d, e, f)),
                stages_done(
                    *butterfly,
                    start,
                    Signal { re: re@, im: im@ },
                    self.twiddles(),
                    s,
                ),
            decreases self.n - h,
        {
            proof {
                if s >= self.order() {
                    assert(s == self.order());
                    assert(false);
                }
                lemma_pow2_unfold((s + 1) as nat);
                if s + 1 < self.order() {
                    lemma_pow2_strictly_increases((s + 1) as nat, self.order());
                }
            }
            let ghost middle = Signal { re: re@, im: im@ };
            self.stage(re, im, h, butterfly, Ghost(s));
            h = 2 * h;
            proof {
                s = s + 1;
                let now = Signal { re: re@, im: im@ };
                assert(stages_done(*butterfly, start, middle, self.twiddles(), (s - 1) as nat));
                assert(stage_done(
                    *butterfly,
                    middle,
                    now,
                    self.twiddles(),
                    pow2((s - 1) as nat) as int,
                ));
                assert(stages_done(*butterfly, start, now, self.twiddles(), s));
            }
        }
        proof {
            if s < self.order() {
                lemma_pow2_strictly_increases(s, self.order());
            }
        }
    }
}

/// Rotates a spectrum so negative frequencies come first and DC lands in the middle.
///
/// Complex input produces a two-sided spectrum with DC in bin zero and negative
/// frequencies in the upper half. A waterfall wants them laid out left to right.
pub fn shift<T: Copy>(bins: &mut [T])
    requires
        old(bins)@.len() % 2 == 0,
    ensures
        final(bins)@ == shifted(old(bins)@),
{
    let half: usize = bins.len() / 2;
    let mut i: usize = 0;
    while i < half
        invariant
            i <= half,
            bins@.len() == old(bins)@.len(),
            bins@.len() == 2 * half,
            forall|k: int| 0 <= k < i ==> #[trigger] bins@[k] == old(bins)@[k + half],
            forall|k: int| i <= k < half ==> #[trigger] bins@[k] == old(bins)@[k],
            forall|k: int| half <= k < half + i ==> #[trigger] bins@[k] == old(bins)@[k - half],
            forall|k: int| half + i <= k < 2 * half ==> #[trigger] bins@[k] == old(bins)@[k],
        decreases half - i,
    {
        let low = bins[i];
        bins[i] = bins[i + half];
        bins[i + half] = low;
        i += 1;
    }
    assert(bins@ =~= shifted(old(bins)@));
}

/// A spectrum with its two halves exchanged.
pub open spec fn shifted<T>(bins: Seq<T>) -> Seq<T> {
    let half = bins.len() as int / 2;
    bins.skip(half) + bins.take(half)
}

/// Shifting twice restores the order.
pub proof fn shifting_twice_restores<T>(bins: Seq<T>)
    requires
        bins.len() % 2 == 0,
    ensures
        shifted(shifted(bins)) == bins,
{
    assert(shifted(shifted(bins)) =~= bins);
}

/// In each stage every index belongs to exactly one pair: it leads one, or it follows the
/// index a half-block before it, which does.
pub proof fn every_index_is_paired_once(a: int, h: int)
    requires
        h > 0,
        a >= 0,
    ensures
        leads(a, h) <==> !leads(a - h, h),
        !leads(a, h) ==> a >= h,
{
    let m = 2 * h;
    let r = a % m;
    let q = a / m;
    lemma_fundamental_div_mod(a, m);
    lemma_mod_bound(a, m);
    if r < h {
        assert(a - h == (q - 1) * m + (r + h)) by (nonlinear_arith)
            requires
                a == m * q + r,
                m == 2 * h,
        ;
        lemma_fundamental_div_mod_converse(a - h, m, q - 1, r + h);
    } else {
        assert(a - h == q * m + (r - h)) by (nonlinear_arith)
            requires
                a == m * q + r,
        ;
        lemma_fundamental_div_mod_converse(a - h, m, q, r - h);
        assert(q >= 0) by (nonlinear_arith)
            requires
                a == m * q + r,
                a >= 0,
                0 <= r < m,
        ;
        assert(a >= r) by (nonlinear_arith)
            requires
                a == m * q + r,
                q >= 0,
                m > 0,
        ;
    }
}

/// Shifting moves every bin by half the spectrum: the bin at zero frequency lands in the middle,
/// positive frequencies to its right in order, and negative ones to its left.
pub proof fn shifting_centres_the_spectrum<T>(bins: Seq<T>, k: int)
    requires
        bins.len() % 2 == 0,
        0 <= k < bins.len() as int / 2,
    ensures
        ({
            let half = bins.len() as int / 2;
            &&& shifted(bins).len() == bins.len()
            &&& shifted(bins)[half + k] == bins[k]
            &&& shifted(bins)[half - 1 - k] == bins[bins.len() - 1 - k]
        }),
{
}

} // verus!
