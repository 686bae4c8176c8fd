//! Fixed-point arithmetic shared by every series transform: the size limits
//! that keep 128-bit intermediates from overflowing, truncating division,
//! and sums over index ranges of a series.

use vstd::prelude::*;

verus! {

use vstd::arithmetic::div_mod::{
    lemma_div_is_ordered, lemma_div_multiples_vanish, lemma_div_nonincreasing,
    lemma_div_pos_is_pos,
};

/// Largest magnitude accepted for one element of a series handed to a
/// summing transform; keeps window sums and squared deviations inside i128.
pub const ELEM_LIMIT: i64 = 4_000_000_000_000_000;

/// Largest magnitude accepted for a raw price or volume tick of one bar.
/// Small enough that a cumulative total over a whole series fits in i64.
pub const VAL_LIMIT: i64 = 1_000_000_000_000;

/// Largest series length the library accepts.
pub const LEN_LIMIT: usize = 1_000_000;

/// Quotient of `a` by `b` rounded toward zero; the rounding rule every
/// transform in this crate uses when a mean or a ratio does not divide
/// evenly. Meaningful for `b > 0` only.
pub open spec fn tdiv(a: int, b: int) -> int {
    if a >= 0 {
        a / b
    } else {
        -((-a) / b)
    }
}

/// Sum of `s[lo..hi]` (half-open), 0 when the range is empty or backwards.
pub open spec fn range_sum(s: Seq<i64>, lo: int, hi: int) -> int
    decreases hi - lo,
{
    if lo >= hi {
        0
    } else {
        s[lo] + range_sum(s, lo + 1, hi)
    }
}

/// A sum grows on the right one element at a time.
pub proof fn lemma_range_sum_extend(s: Seq<i64>, lo: int, hi: int)
    requires
        lo <= hi,
    ensures
        range_sum(s, lo, hi + 1) == range_sum(s, lo, hi) + s[hi],
    decreases hi - lo,
{
    if lo < hi {
        lemma_range_sum_extend(s, lo + 1, hi);
        assert(range_sum(s, lo, hi + 1) == s[lo] + range_sum(s, lo + 1, hi + 1));
    } else {
        assert(range_sum(s, lo + 1, hi + 1) == 0);
        assert(range_sum(s, lo, hi + 1) == s[lo] + range_sum(s, lo + 1, hi + 1));
        assert(range_sum(s, lo, hi) == 0);
    }
}

/// A sum of `hi - lo` elements each of magnitude at most `m` has magnitude
/// at most `(hi - lo) * m`.
pub proof fn lemma_range_sum_bound(s: Seq<i64>, lo: int, hi: int, m: int)
    requires
        lo <= hi,
        forall|j: int| lo <= j < hi ==> -m <= #[trigger] s[j] <= m,
    ensures
        -((hi - lo) * m) <= range_sum(s, lo, hi) <= (hi - lo) * m,
    decreases hi - lo,
{
    if lo >= hi {
        assert((hi - lo) * m == 0) by (nonlinear_arith)
            requires
                hi == lo,
        ;
    } else {
        lemma_range_sum_bound(s, lo + 1, hi, m);
        assert(-m <= s[lo] <= m);
        assert((hi - lo) * m == m + (hi - (lo + 1)) * m) by (nonlinear_arith);
    }
}

/// Truncating division shrinks magnitude: `|a| <= m * b` gives
/// `|tdiv(a, b)| <= m`.
pub proof fn lemma_tdiv_bound(a: int, b: int, m: int)
    requires
        b > 0,
        m >= 0,
        -(m * b) <= a <= m * b,
    ensures
        -m <= tdiv(a, b) <= m,
{
    lemma_div_multiples_vanish(m, b);
    if a >= 0 {
        lemma_div_is_ordered(a, m * b, b);
        lemma_div_pos_is_pos(a, b);
    } else {
        lemma_div_is_ordered(-a, m * b, b);
        lemma_div_pos_is_pos(-a, b);
    }
}

/// The truncated quotient never exceeds the dividend's magnitude.
pub proof fn lemma_tdiv_shrinks(a: int, b: int)
    requires
        b > 0,
    ensures
        -(if a >= 0 { a } else { -a }) <= tdiv(a, b) <= (if a >= 0 { a } else { -a }),
{
    if a >= 0 {
        lemma_div_nonincreasing(a, b);
        lemma_div_pos_is_pos(a, b);
    } else {
        lemma_div_nonincreasing(-a, b);
        lemma_div_pos_is_pos(-a, b);
    }
}

/// Quotient of `a` by `b` rounded toward zero, for any nonzero `b`.
pub open spec fn tdiv_any(a: int, b: int) -> int {
    if b > 0 {
        tdiv(a, b)
    } else {
        tdiv(-a, -b)
    }
}

/// Every element of `s` has magnitude at most `m`.
pub open spec fn bounded(s: Seq<i64>, m: int) -> bool {
    forall|j: int| 0 <= j < s.len() ==> -m <= #[trigger] s[j] <= m
}

/// A machine option widened to a mathematical one.
pub open spec fn opt_int(o: Option<i64>) -> Option<int> {
    match o {
        Some(x) => Some(x as int),
        None => None,
    }
}

/// A machine series widened pointwise to a mathematical one.
pub open spec fn opt_seq(s: Seq<Option<i64>>) -> Seq<Option<int>> {
    Seq::new(s.len(), |i: int| opt_int(s[i]))
}

/// The all-undefined series of length `n`.
pub open spec fn all_none(n: nat) -> Seq<Option<int>> {
    Seq::new(n, |i: int| None)
}

/// Multiplying both sides of `a <= b` by a nonnegative factor keeps the order.
pub proof fn lemma_mul_le(a: int, b: int, c: int)
    requires
        a <= b,
        c >= 0,
    ensures
        a * c <= b * c,
{
    assert(a * c <= b * c) by (nonlinear_arith)
        requires
            a <= b,
            c >= 0,
    ;
}

/// One smoothing step with weight `2 / (p + 1)` lands between zero and the
/// raw difference: the exponential mean never leaves the band spanned by
/// its previous value and the new observation.
pub proof fn lemma_tdiv_step(d: int, p: int)
    requires
        p >= 1,
    ensures
        d >= 0 ==> 0 <= tdiv(2 * d, p + 1) <= d,
        d < 0 ==> d <= tdiv(2 * d, p + 1) <= 0,
{
    if d >= 0 {
        lemma_div_pos_is_pos(2 * d, p + 1);
        assert(2 * d <= d * (p + 1)) by (nonlinear_arith)
            requires
                d >= 0 && p >= 1,
        ;
        lemma_div_is_ordered(2 * d, d * (p + 1), p + 1);
        lemma_div_multiples_vanish(d, p + 1);
    } else {
        let e = -d;
        lemma_div_pos_is_pos(2 * e, p + 1);
        assert(2 * e <= e * (p + 1)) by (nonlinear_arith)
            requires
                e >= 0 && p >= 1,
        ;
        lemma_div_is_ordered(2 * e, e * (p + 1), p + 1);
        lemma_div_multiples_vanish(e, p + 1);
        assert(tdiv(2 * d, p + 1) == -((2 * e) / (p + 1)));
    }
}

/// `r` is the integer square root of `n`.
pub open spec fn is_isqrt(n: int, r: int) -> bool {
    r >= 0 && r * r <= n < (r + 1) * (r + 1)
}

/// The integer square root of `n`, the value the band-width transforms
/// use for a standard deviation.
pub open spec fn isqrt_spec(n: int) -> int {
    choose|r: int| is_isqrt(n, r)
}

/// Two integer square roots of the same number are equal.
pub proof fn lemma_isqrt_unique(n: int, a: int, b: int)
    requires
        is_isqrt(n, a),
        is_isqrt(n, b),
    ensures
        a == b,
{
    assert(a == b) by (nonlinear_arith)
        requires
            a >= 0 && a * a <= n < (a + 1) * (a + 1) && b >= 0 && b * b <= n < (b + 1) * (b
                + 1),
    ;
}

/// Integer square root by bisection.
pub fn isqrt(n: u128) -> (r: u128)
    requires
        n < 81_000_000_000_000_000_000_000_000_000_000_000_000,
    ensures
        is_isqrt(n as int, r as int),
        r == isqrt_spec(n as int),
{
    let mut lo: u128 = 0;
    let mut hi: u128 = 9_000_000_000_000_000_000;
    while lo + 1 < hi
        invariant
            0 <= lo < hi <= 9_000_000_000_000_000_000,
            lo * lo <= n,
            n < hi * hi,
        decreases hi - lo,
    {
        let mid = lo + (hi - lo) / 2;
        proof {
            assert(mid as int * mid as int <= 81_000_000_000_000_000_000_000_000_000_000_000_000)
                by (nonlinear_arith)
                requires
                    0 <= mid as int <= 9_000_000_000_000_000_000,
            ;
        }
        if mid * mid <= n {
            lo = mid;
        } else {
            hi = mid;
        }
    }
    proof {
        assert(is_isqrt(n as int, lo as int));
        lemma_isqrt_unique(n as int, lo as int, isqrt_spec(n as int));
    }
    lo
}

/// Quotient of `a` by `b` rounded toward zero, computed on 128-bit values.
pub fn div_trunc(a: i128, b: i128) -> (q: i128)
    requires
        b > 0,
        a > i128::MIN,
    ensures
        q == tdiv(a as int, b as int),
{
    proof {
        lemma_tdiv_shrinks(a as int, b as int);
    }
    if a >= 0 {
        let q = a.checked_div(b);
        q.unwrap()
    } else {
        let q = (-a).checked_div(b);
        -q.unwrap()
    }
}

} // verus!
