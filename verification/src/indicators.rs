//! Numeric series transforms. Every function maps one or more fixed-point
//! series to a derived series of the same length, with `None` marking
//! positions that lack enough history. Quotients round toward zero
//! (`tdiv`); the size limits of `crate::num` keep every intermediate value
//! inside 128 bits.

use vstd::prelude::*;

verus! {

use crate::num::{
    all_none, bounded, lemma_mul_le, lemma_range_sum_bound, lemma_range_sum_extend,
    lemma_tdiv_bound, lemma_tdiv_step, div_trunc, opt_int, opt_seq, range_sum, tdiv,
    tdiv_any, isqrt, isqrt_spec, ELEM_LIMIT, LEN_LIMIT, VAL_LIMIT,
};
use crate::signals::{win_max, win_min};

/// An all-undefined value series of length `n`.
pub fn none_vec(n: usize) -> (r: Vec<Option<i64>>)
    ensures
        r@.len() == n,
        forall|j: int| 0 <= j < n ==> r@[j] is None,
{
    let mut r: Vec<Option<i64>> = Vec::new();
    let mut k: usize = 0;
    while k < n
        invariant
            k <= n,
            r@.len() == k,
            forall|j: int| 0 <= j < k ==> r@[j] is None,
        decreases n - k,
    {
        r.push(None);
        k = k + 1;
    }
    r
}

/// The simple moving average at index `i`: the truncated mean of the `p`
/// values ending at `i`.
pub open spec fn sma_at(s: Seq<i64>, p: int, i: int) -> int {
    tdiv(range_sum(s, i + 1 - p, i + 1), p)
}

/// The whole SMA series: undefined before the first full window, and
/// everywhere when the period is zero or longer than the series.
pub open spec fn sma_seq(s: Seq<i64>, p: int) -> Seq<Option<int>> {
    if p <= 0 || s.len() < p {
        all_none(s.len())
    } else {
        Seq::new(s.len(), |i: int| if i >= p - 1 {
            Some(sma_at(s, p, i))
        } else {
            None
        })
    }
}

/// Simple moving average over a rolling window, one truncated mean per
/// index from `period - 1` on.
pub fn sma(data: &Vec<i64>, period: usize) -> (r: Vec<Option<i64>>)
    requires
        data@.len() <= LEN_LIMIT,
        bounded(data@, ELEM_LIMIT as int),
    ensures
        r@.len() == data@.len(),
        opt_seq(r@) == sma_seq(data@, period as int),
{
    let n = data.len();
    if period == 0 || n < period {
        let r = none_vec(n);
        proof {
            assert(opt_seq(r@) =~= sma_seq(data@, period as int));
        }
        return r;
    }
    let mut r = none_vec(n);
    let mut sum: i128 = 0;
    let mut j: usize = 0;
    while j < period
        invariant
            j <= period,
            1 <= period <= n,
            n == data@.len(),
            n <= LEN_LIMIT,
            bounded(data@, ELEM_LIMIT as int),
            sum == range_sum(data@, 0, j as int),
        decreases period - j,
    {
        proof {
            lemma_range_sum_bound(data@, 0, j as int, ELEM_LIMIT as int);
            lemma_mul_le(j as int, LEN_LIMIT as int, ELEM_LIMIT as int);
            lemma_range_sum_extend(data@, 0, j as int);
        }
        sum = sum + data[j] as i128;
        j = j + 1;
    }
    proof {
        lemma_range_sum_bound(data@, 0, period as int, ELEM_LIMIT as int);
        lemma_mul_le(period as int, LEN_LIMIT as int, ELEM_LIMIT as int);
        lemma_tdiv_bound(sum as int, period as int, ELEM_LIMIT as int);
    }
    let q = div_trunc(sum, period as i128);
    r.set(period - 1, Some(q as i64));
    let mut i: usize = period;
    while i < n
        invariant
            period <= i <= n,
            1 <= period,
            n == data@.len(),
            n <= LEN_LIMIT,
            bounded(data@, ELEM_LIMIT as int),
            sum == range_sum(data@, i - period, i as int),
            r@.len() == n,
            forall|k: int| 0 <= k < i ==> opt_int(r@[k]) == sma_seq(data@, period as int)[k],
        decreases n - i,
    {
        proof {
            lemma_range_sum_bound(data@, i - period, i as int, ELEM_LIMIT as int);
            lemma_mul_le(period as int, LEN_LIMIT as int, ELEM_LIMIT as int);
            lemma_range_sum_extend(data@, i - period, i as int);
            assert(range_sum(data@, i - period, i + 1) == data@[i - period]
                + range_sum(data@, i - period + 1, i + 1));
        }
        sum = sum + data[i] as i128 - data[i - period] as i128;
        proof {
            assert(sum == range_sum(data@, i + 1 - period, i + 1));
            lemma_range_sum_bound(data@, i + 1 - period, i + 1, ELEM_LIMIT as int);
            lemma_tdiv_bound(sum as int, period as int, ELEM_LIMIT as int);
        }
        let q = div_trunc(sum, period as i128);
        r.set(i, Some(q as i64));
        i = i + 1;
    }
    proof {
        assert(opt_seq(r@) =~= sma_seq(data@, period as int));
    }
    r
}

/// The exponential moving average at index `i`: seeded with the simple
/// mean of the first `p` values, then advanced by a truncated step with
/// weight `2 / (p + 1)`.
pub open spec fn ema_at(s: Seq<i64>, p: int, i: int) -> int
    decreases i,
{
    if p <= 0 || i <= p - 1 {
        tdiv(range_sum(s, 0, p), p)
    } else {
        let prev = ema_at(s, p, i - 1);
        prev + tdiv(2 * (s[i] - prev), p + 1)
    }
}

/// The whole EMA series: seeded at `p - 1`, undefined before, and
/// undefined everywhere when the period is zero or longer than the series.
pub open spec fn ema_seq(s: Seq<i64>, p: int) -> Seq<Option<int>> {
    if p <= 0 || s.len() < p {
        all_none(s.len())
    } else {
        Seq::new(s.len(), |i: int| if i >= p - 1 {
            Some(ema_at(s, p, i))
        } else {
            None
        })
    }
}

/// The exponential mean never leaves the band of its inputs.
pub proof fn lemma_ema_at_bound(s: Seq<i64>, p: int, i: int, m: int)
    requires
        1 <= p <= s.len(),
        0 <= i < s.len(),
        m >= 0,
        bounded(s, m),
    ensures
        -m <= ema_at(s, p, i) <= m,
    decreases i,
{
    if i <= p - 1 {
        lemma_range_sum_bound(s, 0, p, m);
        assert(-((p - 0) * m) <= range_sum(s, 0, p) <= (p - 0) * m);
        assert((p - 0) * m == m * p) by (nonlinear_arith);
        assert(-(m * p) <= range_sum(s, 0, p) <= m * p);
        lemma_tdiv_bound(range_sum(s, 0, p), p, m);
    } else {
        lemma_ema_at_bound(s, p, i - 1, m);
        let prev = ema_at(s, p, i - 1);
        lemma_tdiv_step(s[i] - prev, p);
    }
}

/// Exponential moving average: the truncated mean of the first `period`
/// values at index `period - 1`, then the smoothing recurrence.
pub fn ema(data: &Vec<i64>, period: usize) -> (r: Vec<Option<i64>>)
    requires
        data@.len() <= LEN_LIMIT,
        bounded(data@, ELEM_LIMIT as int),
    ensures
        r@.len() == data@.len(),
        opt_seq(r@) == ema_seq(data@, period as int),
{
    let n = data.len();
    if period == 0 || n < period {
        let r = none_vec(n);
        proof {
            assert(opt_seq(r@) =~= ema_seq(data@, period as int));
        }
        return r;
    }
    let mut r = none_vec(n);
    let mut sum: i128 = 0;
    let mut j: usize = 0;
    while j < period
        invariant
            j <= period,
            1 <= period <= n,
            n == data@.len(),
            n <= LEN_LIMIT,
            bounded(data@, ELEM_LIMIT as int),
            sum == range_sum(data@, 0, j as int),
        decreases period - j,
    {
        proof {
            lemma_range_sum_bound(data@, 0, j as int, ELEM_LIMIT as int);
            lemma_mul_le(j as int, LEN_LIMIT as int, ELEM_LIMIT as int);
            lemma_range_sum_extend(data@, 0, j as int);
        }
        sum = sum + data[j] as i128;
        j = j + 1;
    }
    proof {
        lemma_range_sum_bound(data@, 0, period as int, ELEM_LIMIT as int);
        lemma_mul_le(period as int, LEN_LIMIT as int, ELEM_LIMIT as int);
        lemma_tdiv_bound(sum as int, period as int, ELEM_LIMIT as int);
    }
    let q = div_trunc(sum, period as i128);
    let mut prev: i64 = q as i64;
    r.set(period - 1, Some(prev));
    let mut i: usize = period;
    while i < n
        invariant
            period <= i <= n,
            1 <= period,
            n == data@.len(),
            n <= LEN_LIMIT,
            bounded(data@, ELEM_LIMIT as int),
            prev == ema_at(data@, period as int, i - 1),
            -(ELEM_LIMIT as int) <= prev <= ELEM_LIMIT as int,
            r@.len() == n,
            forall|k: int| 0 <= k < i ==> opt_int(r@[k]) == ema_seq(data@, period as int)[k],
        decreases n - i,
    {
        let d: i128 = data[i] as i128 - prev as i128;
        let step = div_trunc(2 * d, period as i128 + 1);
        proof {
            lemma_tdiv_step(d as int, period as int);
        }
        let val = prev + step as i64;
        prev = val;
        r.set(i, Some(val));
        proof {
            assert(val == ema_at(data@, period as int, i as int));
        }
        i = i + 1;
    }
    proof {
        assert(opt_seq(r@) =~= ema_seq(data@, period as int));
    }
    r
}

/// The upward move into bar `i`, zero when the bar fell or held.
pub open spec fn gain_at(s: Seq<i64>, i: int) -> int {
    if s[i] > s[i - 1] {
        s[i] - s[i - 1]
    } else {
        0
    }
}

/// The downward move into bar `i` as a positive magnitude.
pub open spec fn loss_at(s: Seq<i64>, i: int) -> int {
    if s[i] < s[i - 1] {
        s[i - 1] - s[i]
    } else {
        0
    }
}

pub open spec fn gain_sum(s: Seq<i64>, lo: int, hi: int) -> int
    decreases hi - lo,
{
    if lo >= hi {
        0
    } else {
        gain_at(s, lo) + gain_sum(s, lo + 1, hi)
    }
}

pub open spec fn loss_sum(s: Seq<i64>, lo: int, hi: int) -> int
    decreases hi - lo,
{
    if lo >= hi {
        0
    } else {
        loss_at(s, lo) + loss_sum(s, lo + 1, hi)
    }
}

pub proof fn lemma_gain_sum_extend(s: Seq<i64>, lo: int, hi: int)
    requires
        lo <= hi,
    ensures
        gain_sum(s, lo, hi + 1) == gain_sum(s, lo, hi) + gain_at(s, hi),
        loss_sum(s, lo, hi + 1) == loss_sum(s, lo, hi) + loss_at(s, hi),
    decreases hi - lo,
{
    if lo < hi {
        lemma_gain_sum_extend(s, lo + 1, hi);
        assert(gain_sum(s, lo, hi + 1) == gain_at(s, lo) + gain_sum(s, lo + 1, hi + 1));
        assert(loss_sum(s, lo, hi + 1) == loss_at(s, lo) + loss_sum(s, lo + 1, hi + 1));
    } else {
        assert(gain_sum(s, lo + 1, hi + 1) == 0);
        assert(gain_sum(s, lo, hi + 1) == gain_at(s, lo) + gain_sum(s, lo + 1, hi + 1));
        assert(loss_sum(s, lo + 1, hi + 1) == 0);
        assert(loss_sum(s, lo, hi + 1) == loss_at(s, lo) + loss_sum(s, lo + 1, hi + 1));
    }
}

pub proof fn lemma_gain_sum_bound(s: Seq<i64>, lo: int, hi: int, m: int)
    requires
        lo <= hi,
        m >= 0,
        forall|j: int| lo - 1 <= j < hi ==> -m <= #[trigger] s[j] <= m,
    ensures
        0 <= gain_sum(s, lo, hi) <= (hi - lo) * (2 * m),
        0 <= loss_sum(s, lo, hi) <= (hi - lo) * (2 * m),
    decreases hi - lo,
{
    if lo >= hi {
        assert((hi - lo) * (2 * m) == 0) by (nonlinear_arith)
            requires
                hi == lo,
        ;
    } else {
        lemma_gain_sum_bound(s, lo + 1, hi, m);
        assert(0 <= gain_at(s, lo) <= 2 * m);
        assert(0 <= loss_at(s, lo) <= 2 * m);
        assert((hi - lo) * (2 * m) == 2 * m + (hi - (lo + 1)) * (2 * m)) by (nonlinear_arith);
    }
}

/// Wilder's smoothed average gain: seeded with the simple mean of the
/// gains over `[1, p]`, then `(avg * (p - 1) + gain) / p`, truncated.
pub open spec fn avg_gain(s: Seq<i64>, p: int, i: int) -> int
    decreases i,
{
    if p <= 0 || i <= p {
        tdiv(gain_sum(s, 1, p + 1), p)
    } else {
        tdiv(avg_gain(s, p, i - 1) * (p - 1) + gain_at(s, i), p)
    }
}

/// Wilder's smoothed average loss, the mirror of `avg_gain`.
pub open spec fn avg_loss(s: Seq<i64>, p: int, i: int) -> int
    decreases i,
{
    if p <= 0 || i <= p {
        tdiv(loss_sum(s, 1, p + 1), p)
    } else {
        tdiv(avg_loss(s, p, i - 1) * (p - 1) + loss_at(s, i), p)
    }
}

/// The relative strength index at `i`: 100 when the average loss is
/// exactly zero, else `100 * g / (g + l)` truncated.
pub open spec fn rsi_at(s: Seq<i64>, p: int, i: int) -> int {
    if avg_loss(s, p, i) == 0 {
        100
    } else {
        tdiv(100 * avg_gain(s, p, i), avg_gain(s, p, i) + avg_loss(s, p, i))
    }
}

/// The whole RSI series: defined from index `p` on, undefined everywhere
/// when the period is zero or the series has at most `p` bars.
pub open spec fn rsi_seq(s: Seq<i64>, p: int) -> Seq<Option<int>> {
    if p <= 0 || s.len() < p + 1 {
        all_none(s.len())
    } else {
        Seq::new(s.len(), |i: int| if i >= p {
            Some(rsi_at(s, p, i))
        } else {
            None
        })
    }
}

/// Both smoothed averages stay within `[0, 2m]` for inputs bounded by `m`.
pub proof fn lemma_avg_bound(s: Seq<i64>, p: int, i: int, m: int)
    requires
        1 <= p,
        p + 1 <= s.len(),
        p <= i < s.len(),
        m >= 0,
        bounded(s, m),
    ensures
        0 <= avg_gain(s, p, i) <= 2 * m,
        0 <= avg_loss(s, p, i) <= 2 * m,
    decreases i,
{
    if i <= p {
        lemma_gain_sum_bound(s, 1, p + 1, m);
        assert((p + 1 - 1) * (2 * m) == (2 * m) * p) by (nonlinear_arith);
        lemma_tdiv_bound(gain_sum(s, 1, p + 1), p, 2 * m);
        lemma_tdiv_bound(loss_sum(s, 1, p + 1), p, 2 * m);
    } else {
        lemma_avg_bound(s, p, i - 1, m);
        let g = avg_gain(s, p, i - 1);
        let l = avg_loss(s, p, i - 1);
        assert(0 <= g * (p - 1) + gain_at(s, i) <= (2 * m) * p) by (nonlinear_arith)
            requires
                0 <= g <= 2 * m && 0 <= gain_at(s, i) <= 2 * m && p >= 1,
        ;
        assert(0 <= l * (p - 1) + loss_at(s, i) <= (2 * m) * p) by (nonlinear_arith)
            requires
                0 <= l <= 2 * m && 0 <= loss_at(s, i) <= 2 * m && p >= 1,
        ;
        lemma_tdiv_bound(g * (p - 1) + gain_at(s, i), p, 2 * m);
        lemma_tdiv_bound(l * (p - 1) + loss_at(s, i), p, 2 * m);
    }
}

/// Where both averages are at hand and nonnegative, the index lies in
/// `[0, 100]`.
pub proof fn lemma_rsi_at_range(s: Seq<i64>, p: int, i: int, m: int)
    requires
        1 <= p,
        p + 1 <= s.len(),
        p <= i < s.len(),
        m >= 0,
        bounded(s, m),
    ensures
        0 <= rsi_at(s, p, i) <= 100,
{
    lemma_avg_bound(s, p, i, m);
    let g = avg_gain(s, p, i);
    let l = avg_loss(s, p, i);
    if l != 0 {
        assert(-(100 * (g + l)) <= 100 * g <= 100 * (g + l));
        lemma_tdiv_bound(100 * g, g + l, 100);
        vstd::arithmetic::div_mod::lemma_div_pos_is_pos(100 * g, g + l);
    }
}

/// Relative strength index with Wilder's smoothing.
pub fn rsi(data: &Vec<i64>, period: usize) -> (r: Vec<Option<i64>>)
    requires
        data@.len() <= LEN_LIMIT,
        bounded(data@, ELEM_LIMIT as int),
    ensures
        r@.len() == data@.len(),
        opt_seq(r@) == rsi_seq(data@, period as int),
{
    let n = data.len();
    if period == 0 || n <= period {
        let r = none_vec(n);
        proof {
            assert(opt_seq(r@) =~= rsi_seq(data@, period as int));
        }
        return r;
    }
    let mut r = none_vec(n);
    let mut gsum: i128 = 0;
    let mut lsum: i128 = 0;
    let mut j: usize = 1;
    while j < period + 1
        invariant
            1 <= j <= period + 1,
            1 <= period,
            period + 1 <= n,
            n == data@.len(),
            n <= LEN_LIMIT,
            bounded(data@, ELEM_LIMIT as int),
            gsum == gain_sum(data@, 1, j as int),
            lsum == loss_sum(data@, 1, j as int),
        decreases period + 1 - j,
    {
        proof {
            lemma_gain_sum_bound(data@, 1, j as int, ELEM_LIMIT as int);
            lemma_mul_le(j - 1, LEN_LIMIT as int, 2 * ELEM_LIMIT as int);
            lemma_gain_sum_extend(data@, 1, j as int);
        }
        let d = data[j] - data[j - 1];
        if d > 0 {
            gsum = gsum + d as i128;
        } else if d < 0 {
            lsum = lsum - d as i128;
        }
        j = j + 1;
    }
    proof {
        lemma_gain_sum_bound(data@, 1, period + 1, ELEM_LIMIT as int);
        assert((period as int + 1 - 1) * (2 * ELEM_LIMIT as int) == (2 * ELEM_LIMIT as int)
            * period as int) by (nonlinear_arith);
        lemma_tdiv_bound(gsum as int, period as int, 2 * ELEM_LIMIT as int);
        lemma_tdiv_bound(lsum as int, period as int, 2 * ELEM_LIMIT as int);
    }
    let mut avg_g: i64 = div_trunc(gsum, period as i128) as i64;
    let mut avg_l: i64 = div_trunc(lsum, period as i128) as i64;
    proof {
        vstd::arithmetic::div_mod::lemma_div_pos_is_pos(gsum as int, period as int);
        vstd::arithmetic::div_mod::lemma_div_pos_is_pos(lsum as int, period as int);
        assert(avg_g == avg_gain(data@, period as int, period as int));
        assert(avg_l == avg_loss(data@, period as int, period as int));
    }
    let val = if avg_l == 0 {
        100i64
    } else {
        proof {
            lemma_tdiv_bound(100 * avg_g as int, avg_g as int + avg_l as int, 100);
        }
        div_trunc(100 * avg_g as i128, avg_g as i128 + avg_l as i128) as i64
    };
    r.set(period, Some(val));
    proof {
        assert(val == rsi_at(data@, period as int, period as int));
    }
    let mut i: usize = period + 1;
    while i < n
        invariant
            period + 1 <= i <= n,
            1 <= period,
            n == data@.len(),
            n <= LEN_LIMIT,
            bounded(data@, ELEM_LIMIT as int),
            avg_g == avg_gain(data@, period as int, i - 1),
            avg_l == avg_loss(data@, period as int, i - 1),
            0 <= avg_g <= 2 * ELEM_LIMIT as int,
            0 <= avg_l <= 2 * ELEM_LIMIT as int,
            r@.len() == n,
            forall|k: int| 0 <= k < i ==> opt_int(r@[k]) == rsi_seq(data@, period as int)[k],
        decreases n - i,
    {
        let d = data[i] - data[i - 1];
        let g: i64 = if d > 0 {
            d
        } else {
            0
        };
        let l: i64 = if d < 0 {
            -d
        } else {
            0
        };
        proof {
            assert(g == gain_at(data@, i as int));
            assert(l == loss_at(data@, i as int));
            assert(0 <= avg_g as int * (period as int - 1) + g <= (2 * ELEM_LIMIT as int)
                * period as int) by (nonlinear_arith)
                requires
                    0 <= avg_g <= 2 * ELEM_LIMIT as int && 0 <= g <= 2 * ELEM_LIMIT as int
                        && period >= 1,
            ;
            assert(0 <= avg_l as int * (period as int - 1) + l <= (2 * ELEM_LIMIT as int)
                * period as int) by (nonlinear_arith)
                requires
                    0 <= avg_l <= 2 * ELEM_LIMIT as int && 0 <= l <= 2 * ELEM_LIMIT as int
                        && period >= 1,
            ;
            assert(0 <= avg_g as int * (period as int - 1) <= 8_000_000_000_000_000_000_000)
                by (nonlinear_arith)
                requires
                    0 <= avg_g as int <= 8_000_000_000_000_000,
                    1 <= period as int <= 1_000_000,
            ;
            assert(0 <= avg_l as int * (period as int - 1) <= 8_000_000_000_000_000_000_000)
                by (nonlinear_arith)
                requires
                    0 <= avg_l as int <= 8_000_000_000_000_000,
                    1 <= period as int <= 1_000_000,
            ;
            lemma_tdiv_bound(avg_g as int * (period as int - 1) + g, period as int,
                2 * ELEM_LIMIT as int);
            lemma_tdiv_bound(avg_l as int * (period as int - 1) + l, period as int,
                2 * ELEM_LIMIT as int);
            vstd::arithmetic::div_mod::lemma_div_pos_is_pos(
                avg_g as int * (period as int - 1) + g, period as int);
            vstd::arithmetic::div_mod::lemma_div_pos_is_pos(
                avg_l as int * (period as int - 1) + l, period as int);
        }
        avg_g = div_trunc(avg_g as i128 * (period as i128 - 1) + g as i128, period as i128)
            as i64;
        avg_l = div_trunc(avg_l as i128 * (period as i128 - 1) + l as i128, period as i128)
            as i64;
        proof {
            assert(avg_g == avg_gain(data@, period as int, i as int));
            assert(avg_l == avg_loss(data@, period as int, i as int));
        }
        let val = if avg_l == 0 {
            100i64
        } else {
            proof {
                lemma_tdiv_bound(100 * avg_g as int, avg_g as int + avg_l as int, 100);
            }
            div_trunc(100 * avg_g as i128, avg_g as i128 + avg_l as i128) as i64
        };
        r.set(i, Some(val));
        proof {
            assert(val == rsi_at(data@, period as int, i as int));
        }
        i = i + 1;
    }
    proof {
        assert(opt_seq(r@) =~= rsi_seq(data@, period as int));
    }
    r
}

/// The on-balance volume total at `i`: starts at zero, adds the bar's
/// volume on a close-up day, subtracts it on a close-down day.
pub open spec fn obv_at(c: Seq<i64>, v: Seq<i64>, i: int) -> int
    decreases i,
{
    if i <= 0 {
        0
    } else {
        let prev = obv_at(c, v, i - 1);
        if c[i] > c[i - 1] {
            prev + v[i]
        } else if c[i] < c[i - 1] {
            prev - v[i]
        } else {
            prev
        }
    }
}

/// The running total never exceeds `i` bars' worth of volume.
pub proof fn lemma_obv_at_bound(c: Seq<i64>, v: Seq<i64>, i: int, m: int)
    requires
        0 <= i,
        m >= 0,
        bounded(v, m),
        i < v.len(),
    ensures
        -(i * m) <= obv_at(c, v, i) <= i * m,
    decreases i,
{
    if i == 0 {
        assert(i * m == 0) by (nonlinear_arith)
            requires
                i == 0,
        ;
    } else {
        lemma_obv_at_bound(c, v, i - 1, m);
        assert((i - 1) * m + m == i * m) by (nonlinear_arith);
    }
}

/// On-balance volume: a cumulative signed volume total, defined at every
/// index.
pub fn obv(close: &Vec<i64>, volume: &Vec<i64>) -> (r: Vec<i64>)
    requires
        close@.len() == volume@.len(),
        close@.len() <= LEN_LIMIT,
        bounded(volume@, VAL_LIMIT as int),
    ensures
        r@.len() == close@.len(),
        forall|i: int| 0 <= i < r@.len() ==> r@[i] == obv_at(close@, volume@, i),
{
    let n = close.len();
    let mut r: Vec<i64> = Vec::new();
    if n == 0 {
        return r;
    }
    r.push(0);
    let mut i: usize = 1;
    while i < n
        invariant
            1 <= i <= n,
            n == close@.len() == volume@.len(),
            n <= LEN_LIMIT,
            bounded(volume@, VAL_LIMIT as int),
            r@.len() == i,
            forall|k: int| 0 <= k < i ==> r@[k] == obv_at(close@, volume@, k),
        decreases n - i,
    {
        proof {
            lemma_obv_at_bound(close@, volume@, i - 1, VAL_LIMIT as int);
            lemma_mul_le(i - 1, LEN_LIMIT as int, VAL_LIMIT as int);
        }
        let prev = r[i - 1];
        let next = if close[i] > close[i - 1] {
            prev + volume[i]
        } else if close[i] < close[i - 1] {
            prev - volume[i]
        } else {
            prev
        };
        r.push(next);
        i = i + 1;
    }
    r
}

/// Every position of `s[lo..hi]` is defined.
pub open spec fn all_some(s: Seq<Option<int>>, lo: int, hi: int) -> bool {
    forall|j: int| lo <= j < hi ==> (#[trigger] s[j]) is Some
}

/// Every defined element of `s` has magnitude at most `m`.
pub open spec fn opt_bounded(s: Seq<Option<int>>, m: int) -> bool {
    forall|j: int| 0 <= j < s.len() ==> ((#[trigger] s[j]) matches Some(x) ==> -m <= x <= m)
}

/// Sum of the defined values of `s[lo..hi]`; an undefined position adds
/// nothing (the callers only use it under `all_some`).
pub open spec fn opt_sum(s: Seq<Option<int>>, lo: int, hi: int) -> int
    decreases hi - lo,
{
    if lo >= hi {
        0
    } else {
        (match s[lo] {
            Some(x) => x,
            None => 0,
        }) + opt_sum(s, lo + 1, hi)
    }
}

pub proof fn lemma_opt_sum_extend(s: Seq<Option<int>>, lo: int, hi: int)
    requires
        lo <= hi,
    ensures
        opt_sum(s, lo, hi + 1) == opt_sum(s, lo, hi) + (match s[hi] {
            Some(x) => x,
            None => 0,
        }),
    decreases hi - lo,
{
    if lo < hi {
        lemma_opt_sum_extend(s, lo + 1, hi);
        assert(opt_sum(s, lo, hi + 1) == (match s[lo] {
            Some(x) => x,
            None => 0,
        }) + opt_sum(s, lo + 1, hi + 1));
    } else {
        assert(opt_sum(s, lo + 1, hi + 1) == 0);
        assert(opt_sum(s, lo, hi + 1) == (match s[lo] {
            Some(x) => x,
            None => 0,
        }) + opt_sum(s, lo + 1, hi + 1));
        assert(opt_sum(s, lo, hi) == 0);
    }
}

pub proof fn lemma_opt_sum_bound(s: Seq<Option<int>>, lo: int, hi: int, m: int)
    requires
        lo <= hi,
        m >= 0,
        forall|j: int| lo <= j < hi ==> ((#[trigger] s[j]) matches Some(x) ==> -m <= x <= m),
    ensures
        -((hi - lo) * m) <= opt_sum(s, lo, hi) <= (hi - lo) * m,
    decreases hi - lo,
{
    if lo >= hi {
        assert((hi - lo) * m == 0) by (nonlinear_arith)
            requires
                hi == lo,
        ;
    } else {
        lemma_opt_sum_bound(s, lo + 1, hi, m);
        assert((hi - lo) * m == m + (hi - (lo + 1)) * m) by (nonlinear_arith);
    }
}

/// Exponential mean of a partially defined series, with the undefined
/// sentinel flowing through exactly as NaN does in float arithmetic: an
/// undefined value inside the seed window, or anywhere later, poisons
/// every output from that point on.
pub open spec fn ema_opt_at(s: Seq<Option<int>>, p: int, i: int) -> Option<int>
    decreases i,
{
    if p <= 0 {
        None
    } else if i <= p - 1 {
        if all_some(s, 0, p) {
            Some(tdiv(opt_sum(s, 0, p), p))
        } else {
            None
        }
    } else {
        match (ema_opt_at(s, p, i - 1), s[i]) {
            (Some(prev), Some(x)) => Some(prev + tdiv(2 * (x - prev), p + 1)),
            _ => None,
        }
    }
}

pub open spec fn ema_opt_seq(s: Seq<Option<int>>, p: int) -> Seq<Option<int>> {
    if p <= 0 || s.len() < p {
        all_none(s.len())
    } else {
        Seq::new(s.len(), |i: int| if i >= p - 1 {
            ema_opt_at(s, p, i)
        } else {
            None
        })
    }
}

/// A hole in the seed window leaves the whole series undefined.
pub proof fn lemma_ema_opt_none(s: Seq<Option<int>>, p: int, i: int)
    requires
        p >= 1,
        !all_some(s, 0, p),
    ensures
        ema_opt_at(s, p, i) is None,
    decreases i,
{
    if i > p - 1 {
        lemma_ema_opt_none(s, p, i - 1);
    }
}

/// Exponential moving average over a partially defined series; the
/// undefined sentinel propagates forward as float NaN would.
pub fn ema_opt(data: &Vec<Option<i64>>, period: usize) -> (r: Vec<Option<i64>>)
    requires
        data@.len() <= LEN_LIMIT,
        opt_bounded(opt_seq(data@), 2 * ELEM_LIMIT as int),
    ensures
        r@.len() == data@.len(),
        opt_seq(r@) == ema_opt_seq(opt_seq(data@), period as int),
        opt_bounded(opt_seq(r@), 2 * ELEM_LIMIT as int),
{
    let n = data.len();
    if period == 0 || n < period {
        let r = none_vec(n);
        proof {
            assert(opt_seq(r@) =~= ema_opt_seq(opt_seq(data@), period as int));
        }
        return r;
    }
    let mut sum: i128 = 0;
    let mut j: usize = 0;
    let mut holed = false;
    while j < period
        invariant
            j <= period,
            1 <= period <= n,
            n == data@.len(),
            n <= LEN_LIMIT,
            opt_bounded(opt_seq(data@), 2 * ELEM_LIMIT as int),
            !holed ==> all_some(opt_seq(data@), 0, j as int),
            !holed ==> sum == opt_sum(opt_seq(data@), 0, j as int),
            holed ==> !all_some(opt_seq(data@), 0, period as int),
        decreases period - j,
    {
        proof {
            lemma_opt_sum_bound(opt_seq(data@), 0, j as int, 2 * ELEM_LIMIT as int);
            lemma_mul_le(j as int, LEN_LIMIT as int, 2 * ELEM_LIMIT as int);
            lemma_opt_sum_extend(opt_seq(data@), 0, j as int);
        }
        match data[j] {
            Some(x) => {
                if !holed {
                    sum = sum + x as i128;
                }
            },
            None => {
                holed = true;
            },
        }
        j = j + 1;
    }
    if holed {
        let r = none_vec(n);
        proof {
            assert forall|i: int| 0 <= i < n implies ema_opt_seq(opt_seq(data@),
                period as int)[i] is None by {
                if i >= period - 1 {
                    lemma_ema_opt_none(opt_seq(data@), period as int, i);
                }
            }
            assert(opt_seq(r@) =~= ema_opt_seq(opt_seq(data@), period as int));
        }
        return r;
    }
    let mut r = none_vec(n);
    proof {
        lemma_opt_sum_bound(opt_seq(data@), 0, period as int, 2 * ELEM_LIMIT as int);
        assert((period as int - 0) * (2 * ELEM_LIMIT as int) == (2 * ELEM_LIMIT as int)
            * period as int) by (nonlinear_arith);
        lemma_mul_le(period as int, LEN_LIMIT as int, 2 * ELEM_LIMIT as int);
        lemma_tdiv_bound(sum as int, period as int, 2 * ELEM_LIMIT as int);
    }
    let q = div_trunc(sum, period as i128);
    let mut prev: Option<i64> = Some(q as i64);
    r.set(period - 1, prev);
    let mut i: usize = period;
    proof {
        assert(forall|k: int|
            0 <= k < n ==> ((#[trigger] r@[k]) matches Some(v) ==> -(2 * ELEM_LIMIT as int)
                <= v <= 2 * ELEM_LIMIT as int));
    }
    while i < n
        invariant
            period <= i <= n,
            1 <= period,
            n == data@.len(),
            n <= LEN_LIMIT,
            opt_bounded(opt_seq(data@), 2 * ELEM_LIMIT as int),
            opt_int(prev) == ema_opt_at(opt_seq(data@), period as int, i - 1),
            prev matches Some(v) ==> -(2 * ELEM_LIMIT as int) <= v <= 2 * ELEM_LIMIT as int,
            r@.len() == n,
            forall|k: int|
                0 <= k < i ==> opt_int(r@[k]) == ema_opt_seq(opt_seq(data@), period as int)[k],
            forall|k: int|
                0 <= k < n ==> ((#[trigger] r@[k]) matches Some(v) ==> -(2 * ELEM_LIMIT as int)
                    <= v <= 2 * ELEM_LIMIT as int),
        decreases n - i,
    {
        proof {
            assert(opt_seq(data@)[i as int] == opt_int(data@[i as int]));
        }
        let next: Option<i64> = match (prev, data[i]) {
            (Some(pv), Some(x)) => {
                let d: i128 = x as i128 - pv as i128;
                let step = div_trunc(2 * d, period as i128 + 1);
                proof {
                    lemma_tdiv_step(d as int, period as int);
                }
                Some(pv + step as i64)
            },
            _ => None,
        };
        prev = next;
        r.set(i, next);
        i = i + 1;
    }
    proof {
        assert(opt_seq(r@) =~= ema_opt_seq(opt_seq(data@), period as int));
    }
    r
}

/// Pointwise difference of two partially defined series; defined only
/// where both are.
pub open spec fn opt_sub_seq(a: Seq<Option<int>>, b: Seq<Option<int>>) -> Seq<Option<int>> {
    Seq::new(a.len(), |i: int| match (a[i], b[i]) {
        (Some(x), Some(y)) => Some(x - y),
        _ => None,
    })
}

/// Pointwise difference of two aligned series.
pub fn opt_sub(a: &Vec<Option<i64>>, b: &Vec<Option<i64>>) -> (r: Vec<Option<i64>>)
    requires
        a@.len() == b@.len(),
        opt_bounded(opt_seq(a@), 4_000_000_000_000_000_000),
        opt_bounded(opt_seq(b@), 4_000_000_000_000_000_000),
    ensures
        r@.len() == a@.len(),
        opt_seq(r@) == opt_sub_seq(opt_seq(a@), opt_seq(b@)),
{
    let n = a.len();
    let mut r: Vec<Option<i64>> = Vec::new();
    let mut i: usize = 0;
    while i < n
        invariant
            i <= n,
            n == a@.len() == b@.len(),
            opt_bounded(opt_seq(a@), 4_000_000_000_000_000_000),
            opt_bounded(opt_seq(b@), 4_000_000_000_000_000_000),
            r@.len() == i,
            forall|k: int|
                0 <= k < i ==> opt_int(r@[k]) == opt_sub_seq(opt_seq(a@), opt_seq(b@))[k],
        decreases n - i,
    {
        proof {
            assert(opt_seq(a@)[i as int] == opt_int(a@[i as int]));
            assert(opt_seq(b@)[i as int] == opt_int(b@[i as int]));
        }
        let v = match (a[i], b[i]) {
            (Some(x), Some(y)) => Some(x - y),
            _ => None,
        };
        r.push(v);
        i = i + 1;
    }
    proof {
        assert(opt_seq(r@) =~= opt_sub_seq(opt_seq(a@), opt_seq(b@)));
    }
    r
}

/// The MACD line: fast exponential mean minus slow exponential mean,
/// defined where both are.
pub open spec fn macd_seq(s: Seq<i64>, fast: int, slow: int) -> Seq<Option<int>> {
    opt_sub_seq(ema_seq(s, fast), ema_seq(s, slow))
}

/// The MACD signal line: an exponential mean of the MACD line itself.
pub open spec fn macd_signal_seq(s: Seq<i64>, fast: int, slow: int, signal: int) -> Seq<
    Option<int>,
> {
    ema_opt_seq(macd_seq(s, fast, slow), signal)
}

/// The MACD histogram: line minus signal.
pub open spec fn macd_histogram_seq(s: Seq<i64>, fast: int, slow: int, signal: int) -> Seq<
    Option<int>,
> {
    opt_sub_seq(macd_seq(s, fast, slow), macd_signal_seq(s, fast, slow, signal))
}

/// Every defined value of an exponential-mean series of a bounded input
/// is itself bounded.
proof fn lemma_ema_seq_bounded(s: Seq<i64>, p: int, m: int)
    requires
        m >= 0,
        bounded(s, m),
    ensures
        opt_bounded(ema_seq(s, p), m),
{
    if !(p <= 0 || s.len() < p) {
        assert forall|j: int| 0 <= j < ema_seq(s, p).len() implies ((#[trigger] ema_seq(s,
        p)[j]) matches Some(x) ==> -m <= x <= m) by {
            if j >= p - 1 {
                lemma_ema_at_bound(s, p, j, m);
            }
        }
    }
}

/// MACD line of a price series.
pub fn macd(data: &Vec<i64>, fast: usize, slow: usize) -> (r: Vec<Option<i64>>)
    requires
        data@.len() <= LEN_LIMIT,
        bounded(data@, ELEM_LIMIT as int),
    ensures
        r@.len() == data@.len(),
        opt_seq(r@) == macd_seq(data@, fast as int, slow as int),
        opt_bounded(opt_seq(r@), 2 * ELEM_LIMIT as int),
{
    let ef = ema(data, fast);
    let es = ema(data, slow);
    proof {
        lemma_ema_seq_bounded(data@, fast as int, ELEM_LIMIT as int);
        lemma_ema_seq_bounded(data@, slow as int, ELEM_LIMIT as int);
    }
    let r = opt_sub(&ef, &es);
    proof {
        assert(opt_seq(r@) == macd_seq(data@, fast as int, slow as int));
    }
    r
}

/// MACD signal line.
pub fn macd_signal(data: &Vec<i64>, fast: usize, slow: usize, signal: usize) -> (r: Vec<
    Option<i64>,
>)
    requires
        data@.len() <= LEN_LIMIT,
        bounded(data@, ELEM_LIMIT as int),
    ensures
        r@.len() == data@.len(),
        opt_seq(r@) == macd_signal_seq(data@, fast as int, slow as int, signal as int),
{
    let line = macd(data, fast, slow);
    let r = ema_opt(&line, signal);
    r
}

/// MACD histogram: line minus signal.
pub fn macd_histogram(data: &Vec<i64>, fast: usize, slow: usize, signal: usize) -> (r: Vec<
    Option<i64>,
>)
    requires
        data@.len() <= LEN_LIMIT,
        bounded(data@, ELEM_LIMIT as int),
    ensures
        r@.len() == data@.len(),
        opt_seq(r@) == macd_histogram_seq(data@, fast as int, slow as int, signal as int),
{
    let line = macd(data, fast, slow);
    let sig = ema_opt(&line, signal);
    let r = opt_sub(&line, &sig);
    r
}

/// Rolling maximum: the largest value of the `p`-bar window ending at each
/// index, undefined before the window fills.
pub open spec fn rolling_max_seq(s: Seq<i64>, p: int) -> Seq<Option<int>> {
    if p <= 0 || s.len() < p {
        all_none(s.len())
    } else {
        Seq::new(s.len(), |i: int| if i >= p - 1 {
            Some(win_max(s, i + 1 - p, i + 1))
        } else {
            None
        })
    }
}

/// Rolling minimum, the mirror of `rolling_max_seq`.
pub open spec fn rolling_min_seq(s: Seq<i64>, p: int) -> Seq<Option<int>> {
    if p <= 0 || s.len() < p {
        all_none(s.len())
    } else {
        Seq::new(s.len(), |i: int| if i >= p - 1 {
            Some(win_min(s, i + 1 - p, i + 1))
        } else {
            None
        })
    }
}

/// Rolling maximum over a trailing window.
pub fn rolling_max(data: &Vec<i64>, period: usize) -> (r: Vec<Option<i64>>)
    ensures
        r@.len() == data@.len(),
        opt_seq(r@) == rolling_max_seq(data@, period as int),
{
    let n = data.len();
    if period == 0 || n < period {
        let r = none_vec(n);
        proof {
            assert(opt_seq(r@) =~= rolling_max_seq(data@, period as int));
        }
        return r;
    }
    let mut r = none_vec(n);
    let mut i: usize = period - 1;
    while i < n
        invariant
            period - 1 <= i <= n,
            1 <= period <= n,
            n == data@.len(),
            r@.len() == n,
            forall|k: int|
                0 <= k < i ==> opt_int(r@[k]) == rolling_max_seq(data@, period as int)[k],
            forall|k: int| i <= k < n ==> r@[k] is None,
        decreases n - i,
    {
        let lo = i + 1 - period;
        let mut m: i64 = data[lo];
        let mut j: usize = lo + 1;
        while j < i + 1
            invariant
                lo + 1 <= j <= i + 1,
                lo == i + 1 - period,
                i < n,
                n == data@.len(),
                m == win_max(data@, lo as int, j as int),
            decreases i + 1 - j,
        {
            if data[j] > m {
                m = data[j];
            }
            j = j + 1;
        }
        r.set(i, Some(m));
        i = i + 1;
    }
    proof {
        assert(opt_seq(r@) =~= rolling_max_seq(data@, period as int));
    }
    r
}

/// Rolling minimum over a trailing window.
pub fn rolling_min(data: &Vec<i64>, period: usize) -> (r: Vec<Option<i64>>)
    ensures
        r@.len() == data@.len(),
        opt_seq(r@) == rolling_min_seq(data@, period as int),
{
    let n = data.len();
    if period == 0 || n < period {
        let r = none_vec(n);
        proof {
            assert(opt_seq(r@) =~= rolling_min_seq(data@, period as int));
        }
        return r;
    }
    let mut r = none_vec(n);
    let mut i: usize = period - 1;
    while i < n
        invariant
            period - 1 <= i <= n,
            1 <= period <= n,
            n == data@.len(),
            r@.len() == n,
            forall|k: int|
                0 <= k < i ==> opt_int(r@[k]) == rolling_min_seq(data@, period as int)[k],
            forall|k: int| i <= k < n ==> r@[k] is None,
        decreases n - i,
    {
        let lo = i + 1 - period;
        let mut m: i64 = data[lo];
        let mut j: usize = lo + 1;
        while j < i + 1
            invariant
                lo + 1 <= j <= i + 1,
                lo == i + 1 - period,
                i < n,
                n == data@.len(),
                m == win_min(data@, lo as int, j as int),
            decreases i + 1 - j,
        {
            if data[j] < m {
                m = data[j];
            }
            j = j + 1;
        }
        r.set(i, Some(m));
        i = i + 1;
    }
    proof {
        assert(opt_seq(r@) =~= rolling_min_seq(data@, period as int));
    }
    r
}

/// Sum of squared deviations from `mean` over `s[lo..hi]`.
pub open spec fn dev_sum(s: Seq<i64>, mean: int, lo: int, hi: int) -> int
    decreases hi - lo,
{
    if lo >= hi {
        0
    } else {
        (s[lo] - mean) * (s[lo] - mean) + dev_sum(s, mean, lo + 1, hi)
    }
}

pub proof fn lemma_dev_sum_extend(s: Seq<i64>, mean: int, lo: int, hi: int)
    requires
        lo <= hi,
    ensures
        dev_sum(s, mean, lo, hi + 1) == dev_sum(s, mean, lo, hi) + (s[hi] - mean) * (s[hi]
            - mean),
    decreases hi - lo,
{
    if lo < hi {
        lemma_dev_sum_extend(s, mean, lo + 1, hi);
        assert(dev_sum(s, mean, lo, hi + 1) == (s[lo] - mean) * (s[lo] - mean) + dev_sum(s,
        mean, lo + 1, hi + 1));
    } else {
        assert(dev_sum(s, mean, lo + 1, hi + 1) == 0);
        assert(dev_sum(s, mean, lo, hi + 1) == (s[lo] - mean) * (s[lo] - mean) + dev_sum(s,
        mean, lo + 1, hi + 1));
        assert(dev_sum(s, mean, lo, hi) == 0);
    }
}

pub proof fn lemma_dev_sum_bound(s: Seq<i64>, mean: int, lo: int, hi: int, d: int)
    requires
        lo <= hi,
        d >= 0,
        forall|j: int| lo <= j < hi ==> -d <= #[trigger] s[j] - mean <= d,
    ensures
        0 <= dev_sum(s, mean, lo, hi) <= (hi - lo) * (d * d),
    decreases hi - lo,
{
    if lo >= hi {
        assert((hi - lo) * (d * d) == 0) by (nonlinear_arith)
            requires
                hi == lo,
        ;
    } else {
        lemma_dev_sum_bound(s, mean, lo + 1, hi, d);
        assert(0 <= (s[lo] - mean) * (s[lo] - mean) <= d * d) by (nonlinear_arith)
            requires
                -d <= s[lo] - mean <= d,
        ;
        assert((hi - lo) * (d * d) == d * d + (hi - (lo + 1)) * (d * d)) by (nonlinear_arith);
    }
}

/// Truncated population variance of the `p`-bar window ending at `i`,
/// measured around the truncated window mean.
pub open spec fn variance_at(s: Seq<i64>, p: int, i: int) -> int {
    tdiv(dev_sum(s, sma_at(s, p, i), i + 1 - p, i + 1), p)
}

/// Population standard deviation of the trailing window: the integer
/// square root of the truncated variance.
pub open spec fn stddev_at(s: Seq<i64>, p: int, i: int) -> int {
    isqrt_spec(variance_at(s, p, i))
}

pub open spec fn stddev_seq(s: Seq<i64>, p: int) -> Seq<Option<int>> {
    if p <= 0 || s.len() < p {
        all_none(s.len())
    } else {
        Seq::new(s.len(), |i: int| if i >= p - 1 {
            Some(stddev_at(s, p, i))
        } else {
            None
        })
    }
}

/// The standard deviation of the `p`-bar window ending at `i`, for a
/// series bounded by the ghost magnitude `m`; shared by the deviation
/// transforms.
fn window_stddev(data: &Vec<i64>, period: usize, i: usize, mean: i64, Ghost(m): Ghost<int>)
    -> (std: i64)
    requires
        1 <= period <= data@.len(),
        period - 1 <= i < data@.len(),
        data@.len() <= LEN_LIMIT,
        0 <= m <= ELEM_LIMIT as int,
        bounded(data@, m),
        -m <= mean <= m,
        mean == sma_at(data@, period as int, i as int),
    ensures
        std == stddev_at(data@, period as int, i as int),
        0 <= std <= 2 * m,
{
    let lo = i + 1 - period;
    let mut acc: i128 = 0;
    let mut j: usize = lo;
    proof {
        assert((2 * m) * (2 * m) <= 64_000_000_000_000_000_000_000_000_000_000int)
            by (nonlinear_arith)
            requires
                0 <= m <= 4_000_000_000_000_000,
        ;
    }
    while j < i + 1
        invariant
            lo <= j <= i + 1,
            lo == i + 1 - period,
            1 <= period,
            i < data@.len(),
            data@.len() <= LEN_LIMIT,
            0 <= m <= ELEM_LIMIT as int,
            bounded(data@, m),
            -m <= mean <= m,
            acc == dev_sum(data@, mean as int, lo as int, j as int),
            0 <= acc <= ((j - lo) as int) * ((2 * m) * (2 * m)),
            (2 * m) * (2 * m) <= 64_000_000_000_000_000_000_000_000_000_000int,
        decreases i + 1 - j,
    {
        proof {
            lemma_mul_le((j - lo) as int, LEN_LIMIT as int, (2 * m) * (2 * m));
            lemma_mul_le((2 * m) * (2 * m), 64_000_000_000_000_000_000_000_000_000_000int,
                LEN_LIMIT as int);
            assert((LEN_LIMIT as int) * ((2 * m) * (2 * m)) == ((2 * m) * (2 * m))
                * (LEN_LIMIT as int)) by (nonlinear_arith);
            lemma_dev_sum_extend(data@, mean as int, lo as int, j as int);
        }
        let d: i64 = data[j] - mean;
        proof {
            assert(0 <= (d as int) * (d as int) <= (2 * m) * (2 * m)) by (nonlinear_arith)
                requires
                    -(2 * m) <= d as int <= 2 * m,
            ;
            assert(((j - lo) as int + 1) * ((2 * m) * (2 * m)) == ((j - lo) as int) * ((2
                * m) * (2 * m)) + (2 * m) * (2 * m)) by (nonlinear_arith);
        }
        acc = acc + d as i128 * d as i128;
        j = j + 1;
    }
    proof {
        lemma_mul_le((i + 1 - lo) as int, LEN_LIMIT as int, (2 * m) * (2 * m));
        lemma_mul_le((2 * m) * (2 * m), 64_000_000_000_000_000_000_000_000_000_000int,
            LEN_LIMIT as int);
        assert((LEN_LIMIT as int) * ((2 * m) * (2 * m)) == ((2 * m) * (2 * m))
            * (LEN_LIMIT as int)) by (nonlinear_arith);
        vstd::arithmetic::div_mod::lemma_div_pos_is_pos(acc as int, period as int);
        assert(((i + 1 - lo) as int) * ((2 * m) * (2 * m)) == ((2 * m) * (2 * m))
            * (period as int)) by (nonlinear_arith)
            requires
                (i + 1 - lo) as int == period as int,
        ;
        lemma_tdiv_bound(acc as int, period as int, (2 * m) * (2 * m));
    }
    let variance = div_trunc(acc, period as i128);
    let root = isqrt(variance as u128);
    proof {
        assert(variance as u128 as int == variance as int);
        assert(root as int <= 2 * m) by (nonlinear_arith)
            requires
                root as int >= 0,
                (root as int) * (root as int) <= variance as int,
                variance as int <= (2 * m) * (2 * m),
                m >= 0,
        ;
    }
    root as i64
}

/// Rolling population standard deviation.
pub fn stddev(data: &Vec<i64>, period: usize) -> (r: Vec<Option<i64>>)
    requires
        data@.len() <= LEN_LIMIT,
        bounded(data@, ELEM_LIMIT as int),
    ensures
        r@.len() == data@.len(),
        opt_seq(r@) == stddev_seq(data@, period as int),
{
    let n = data.len();
    if period == 0 || n < period {
        let r = none_vec(n);
        proof {
            assert(opt_seq(r@) =~= stddev_seq(data@, period as int));
        }
        return r;
    }
    let means = sma(data, period);
    let mut r = none_vec(n);
    let mut i: usize = period - 1;
    while i < n
        invariant
            period - 1 <= i <= n,
            1 <= period <= n,
            n == data@.len(),
            n <= LEN_LIMIT,
            bounded(data@, ELEM_LIMIT as int),
            means@.len() == n,
            opt_seq(means@) == sma_seq(data@, period as int),
            r@.len() == n,
            forall|k: int| 0 <= k < i ==> opt_int(r@[k]) == stddev_seq(data@, period as int)[k],
            forall|k: int| i <= k < n ==> r@[k] is None,
        decreases n - i,
    {
        proof {
            assert(opt_seq(means@)[i as int] == opt_int(means@[i as int]));
            lemma_range_sum_bound(data@, i + 1 - period, i + 1, ELEM_LIMIT as int);
            assert((i + 1 - (i + 1 - period as int)) * (ELEM_LIMIT as int) == (ELEM_LIMIT
                as int) * (period as int)) by (nonlinear_arith);
            lemma_tdiv_bound(range_sum(data@, i + 1 - period as int, i + 1), period as int,
                ELEM_LIMIT as int);
        }
        let mean = match means[i] {
            Some(m) => m,
            None => 0,
        };
        let std = window_stddev(data, period, i, mean, Ghost(ELEM_LIMIT as int));
        r.set(i, Some(std));
        i = i + 1;
    }
    proof {
        assert(opt_seq(r@) =~= stddev_seq(data@, period as int));
    }
    r
}

/// The band half-width: `num_std` thousandths of the window standard
/// deviation.
pub open spec fn band_width_at(s: Seq<i64>, p: int, i: int, num_std_milli: int) -> int {
    tdiv(num_std_milli * stddev_at(s, p, i), 1000)
}

pub open spec fn boll_upper_seq(s: Seq<i64>, p: int, num_std_milli: int) -> Seq<Option<int>> {
    if p <= 0 || s.len() < p {
        all_none(s.len())
    } else {
        Seq::new(s.len(), |i: int| if i >= p - 1 {
            Some(sma_at(s, p, i) + band_width_at(s, p, i, num_std_milli))
        } else {
            None
        })
    }
}

pub open spec fn boll_lower_seq(s: Seq<i64>, p: int, num_std_milli: int) -> Seq<Option<int>> {
    if p <= 0 || s.len() < p {
        all_none(s.len())
    } else {
        Seq::new(s.len(), |i: int| if i >= p - 1 {
            Some(sma_at(s, p, i) - band_width_at(s, p, i, num_std_milli))
        } else {
            None
        })
    }
}

/// Bollinger bands: the rolling mean, and the mean plus and minus
/// `num_std_milli` thousandths of the rolling standard deviation.
/// The tighter element limit keeps the scaled band inside 64 bits.
pub fn bollinger(data: &Vec<i64>, period: usize, num_std_milli: i64) -> (r: (
    Vec<Option<i64>>,
    Vec<Option<i64>>,
    Vec<Option<i64>>,
))
    requires
        data@.len() <= LEN_LIMIT,
        bounded(data@, VAL_LIMIT as int),
        -1_000_000_000 <= num_std_milli <= 1_000_000_000,
    ensures
        r.0@.len() == data@.len() && r.1@.len() == data@.len() && r.2@.len() == data@.len(),
        opt_seq(r.0@) == sma_seq(data@, period as int),
        opt_seq(r.1@) == boll_upper_seq(data@, period as int, num_std_milli as int),
        opt_seq(r.2@) == boll_lower_seq(data@, period as int, num_std_milli as int),
{
    let n = data.len();
    proof {
        assert(bounded(data@, ELEM_LIMIT as int));
    }
    let middle = sma(data, period);
    if period == 0 || n < period {
        let upper = none_vec(n);
        let lower = none_vec(n);
        proof {
            assert(opt_seq(upper@) =~= boll_upper_seq(data@, period as int,
                num_std_milli as int));
            assert(opt_seq(lower@) =~= boll_lower_seq(data@, period as int,
                num_std_milli as int));
        }
        return (middle, upper, lower);
    }
    let mut upper = none_vec(n);
    let mut lower = none_vec(n);
    let mut i: usize = period - 1;
    while i < n
        invariant
            period - 1 <= i <= n,
            1 <= period <= n,
            n == data@.len(),
            n <= LEN_LIMIT,
            bounded(data@, VAL_LIMIT as int),
            bounded(data@, ELEM_LIMIT as int),
            -1_000_000_000 <= num_std_milli <= 1_000_000_000,
            middle@.len() == n,
            opt_seq(middle@) == sma_seq(data@, period as int),
            upper@.len() == n && lower@.len() == n,
            forall|k: int|
                0 <= k < i ==> opt_int(upper@[k]) == boll_upper_seq(data@, period as int,
                num_std_milli as int)[k],
            forall|k: int|
                0 <= k < i ==> opt_int(lower@[k]) == boll_lower_seq(data@, period as int,
                num_std_milli as int)[k],
            forall|k: int| i <= k < n ==> upper@[k] is None && lower@[k] is None,
        decreases n - i,
    {
        proof {
            assert(opt_seq(middle@)[i as int] == opt_int(middle@[i as int]));
            lemma_range_sum_bound(data@, i + 1 - period, i + 1, VAL_LIMIT as int);
            assert((i + 1 - (i + 1 - period as int)) * (VAL_LIMIT as int) == (VAL_LIMIT
                as int) * (period as int)) by (nonlinear_arith);
            lemma_tdiv_bound(range_sum(data@, i + 1 - period as int, i + 1), period as int,
                VAL_LIMIT as int);
        }
        let mean = match middle[i] {
            Some(m) => m,
            None => 0,
        };
        let std = window_stddev(data, period, i, mean, Ghost(VAL_LIMIT as int));
        proof {
            assert(-(2_000_000_000_000_000_000_000int) <= num_std_milli as int * (std
                as int) <= 2_000_000_000_000_000_000_000int) by (nonlinear_arith)
                requires
                    -1_000_000_000 <= num_std_milli as int <= 1_000_000_000,
                    0 <= std as int <= 2_000_000_000_000,
            ;
            lemma_tdiv_bound(num_std_milli as int * (std as int), 1000,
                2_000_000_000_000_000_000int);
        }
        let half = div_trunc(num_std_milli as i128 * std as i128, 1000);
        upper.set(i, Some(mean + half as i64));
        lower.set(i, Some(mean - half as i64));
        i = i + 1;
    }
    proof {
        assert(opt_seq(upper@) =~= boll_upper_seq(data@, period as int, num_std_milli as int));
        assert(opt_seq(lower@) =~= boll_lower_seq(data@, period as int, num_std_milli as int));
    }
    (middle, upper, lower)
}

/// The true range at `i`: the bar's own range at index 0, and from then on
/// the widest of bar range, high-to-previous-close and low-to-previous-close.
pub open spec fn tr_at(h: Seq<i64>, l: Seq<i64>, c: Seq<i64>, i: int) -> int {
    if i <= 0 {
        h[0] - l[0]
    } else {
        let hl = h[i] - l[i];
        let hc = if h[i] - c[i - 1] >= 0 {
            h[i] - c[i - 1]
        } else {
            c[i - 1] - h[i]
        };
        let lc = if l[i] - c[i - 1] >= 0 {
            l[i] - c[i - 1]
        } else {
            c[i - 1] - l[i]
        };
        if hl >= hc && hl >= lc {
            hl
        } else if hc >= lc {
            hc
        } else {
            lc
        }
    }
}

/// The true-range series, as the machine values the smoothing step reads.
pub open spec fn tr_seq(h: Seq<i64>, l: Seq<i64>, c: Seq<i64>) -> Seq<i64> {
    Seq::new(h.len(), |i: int| tr_at(h, l, c, i) as i64)
}

/// Average true range: the rolling mean of the true-range series.
pub open spec fn atr_seq(h: Seq<i64>, l: Seq<i64>, c: Seq<i64>, p: int) -> Seq<Option<int>> {
    sma_seq(tr_seq(h, l, c), p)
}

/// Average true range. The halved element limit leaves room for a true
/// range that spans two bars.
pub fn atr(high: &Vec<i64>, low: &Vec<i64>, close: &Vec<i64>, period: usize) -> (r: Vec<
    Option<i64>,
>)
    requires
        high@.len() == low@.len() && high@.len() == close@.len(),
        high@.len() <= LEN_LIMIT,
        bounded(high@, ELEM_LIMIT as int / 2),
        bounded(low@, ELEM_LIMIT as int / 2),
        bounded(close@, ELEM_LIMIT as int / 2),
    ensures
        r@.len() == high@.len(),
        opt_seq(r@) == atr_seq(high@, low@, close@, period as int),
{
    let n = high.len();
    let mut tr: Vec<i64> = Vec::new();
    let mut i: usize = 0;
    while i < n
        invariant
            i <= n,
            n == high@.len() == low@.len() == close@.len(),
            bounded(high@, ELEM_LIMIT as int / 2),
            bounded(low@, ELEM_LIMIT as int / 2),
            bounded(close@, ELEM_LIMIT as int / 2),
            tr@.len() == i,
            forall|k: int| 0 <= k < i ==> tr@[k] == tr_seq(high@, low@, close@)[k],
            bounded(tr@, ELEM_LIMIT as int),
        decreases n - i,
    {
        let v: i64 = if i == 0 {
            high[0] - low[0]
        } else {
            let hl = high[i] - low[i];
            let hc = if high[i] >= close[i - 1] {
                high[i] - close[i - 1]
            } else {
                close[i - 1] - high[i]
            };
            let lc = if low[i] >= close[i - 1] {
                low[i] - close[i - 1]
            } else {
                close[i - 1] - low[i]
            };
            if hl >= hc && hl >= lc {
                hl
            } else if hc >= lc {
                hc
            } else {
                lc
            }
        };
        proof {
            assert(v == tr_at(high@, low@, close@, i as int));
        }
        tr.push(v);
        i = i + 1;
    }
    let r = sma(&tr, period);
    proof {
        assert(tr@ =~= tr_seq(high@, low@, close@));
    }
    r
}

/// The typical price of bar `i`: the truncated mean of high, low and close.
pub open spec fn tp_at(h: Seq<i64>, l: Seq<i64>, c: Seq<i64>, i: int) -> int {
    tdiv(h[i] + l[i] + c[i], 3)
}

/// Volume-weighted sum of typical prices over `[0, i]`.
pub open spec fn tpv_sum(h: Seq<i64>, l: Seq<i64>, c: Seq<i64>, v: Seq<i64>, i: int) -> int
    decreases i + 1,
{
    if i < 0 {
        0
    } else {
        tpv_sum(h, l, c, v, i - 1) + tp_at(h, l, c, i) * v[i]
    }
}

/// The cumulative volume-weighted average price at `i`: total typical
/// price weight over total volume, or the bar's own typical price while
/// no volume has accumulated.
pub open spec fn vwap_at(h: Seq<i64>, l: Seq<i64>, c: Seq<i64>, v: Seq<i64>, i: int) -> int {
    let vol = range_sum(v, 0, i + 1);
    if vol > 0 {
        tdiv(tpv_sum(h, l, c, v, i), vol)
    } else {
        tp_at(h, l, c, i)
    }
}

/// The weighted sum is bounded by the volume total times the price bound.
proof fn lemma_tpv_sum_bound(h: Seq<i64>, l: Seq<i64>, c: Seq<i64>, v: Seq<i64>, i: int, m: int)
    requires
        m >= 0,
        i < v.len(),
        h.len() == v.len() && l.len() == v.len() && c.len() == v.len(),
        bounded(h, m),
        bounded(l, m),
        bounded(c, m),
        forall|j: int| 0 <= j < v.len() ==> 0 <= #[trigger] v[j] <= m,
    ensures
        -(range_sum(v, 0, i + 1) * m) <= tpv_sum(h, l, c, v, i) <= range_sum(v, 0, i + 1) * m,
        range_sum(v, 0, i + 1) >= 0,
    decreases i + 1,
{
    if i < 0 {
        assert(range_sum(v, 0, i + 1) == 0);
        assert(range_sum(v, 0, i + 1) * m == 0) by (nonlinear_arith)
            requires
                range_sum(v, 0, i + 1) == 0,
        ;
    } else {
        lemma_tpv_sum_bound(h, l, c, v, i - 1, m);
        lemma_range_sum_extend(v, 0, i);
        assert(-(3 * m) <= h[i] + l[i] + c[i] <= 3 * m);
        lemma_tdiv_bound(h[i] + l[i] + c[i], 3, m);
        let prior = range_sum(v, 0, i);
        assert(-((prior + v[i]) * m) <= tpv_sum(h, l, c, v, i - 1) + tp_at(h, l, c, i) * v[i]
            <= (prior + v[i]) * m) by (nonlinear_arith)
            requires
                -(prior * m) <= tpv_sum(h, l, c, v, i - 1) <= prior * m,
                -m <= tp_at(h, l, c, i) <= m,
                0 <= v[i] <= m,
                m >= 0,
        ;
    }
}

/// Cumulative volume-weighted average price.
pub fn vwap(high: &Vec<i64>, low: &Vec<i64>, close: &Vec<i64>, volume: &Vec<i64>) -> (r: Vec<
    i64,
>)
    requires
        high@.len() == low@.len() && high@.len() == close@.len() && high@.len()
            == volume@.len(),
        high@.len() <= LEN_LIMIT,
        bounded(high@, ELEM_LIMIT as int),
        bounded(low@, ELEM_LIMIT as int),
        bounded(close@, ELEM_LIMIT as int),
        forall|j: int| 0 <= j < volume@.len() ==> 0 <= #[trigger] volume@[j] <= ELEM_LIMIT,
    ensures
        r@.len() == high@.len(),
        forall|i: int| 0 <= i < r@.len() ==> r@[i] == vwap_at(high@, low@, close@, volume@, i),
{
    let n = high.len();
    let mut r: Vec<i64> = Vec::new();
    let mut cum_vol: i128 = 0;
    let mut cum_tpv: i128 = 0;
    let mut i: usize = 0;
    while i < n
        invariant
            i <= n,
            n == high@.len() == low@.len() == close@.len(),
            n == volume@.len(),
            n <= LEN_LIMIT,
            bounded(high@, ELEM_LIMIT as int),
            bounded(low@, ELEM_LIMIT as int),
            bounded(close@, ELEM_LIMIT as int),
            forall|j: int| 0 <= j < volume@.len() ==> 0 <= #[trigger] volume@[j] <= ELEM_LIMIT,
            cum_vol == range_sum(volume@, 0, i as int),
            cum_tpv == tpv_sum(high@, low@, close@, volume@, i - 1),
            r@.len() == i,
            forall|k: int|
                0 <= k < i ==> r@[k] == vwap_at(high@, low@, close@, volume@, k),
        decreases n - i,
    {
        proof {
            lemma_range_sum_bound(volume@, 0, i as int, ELEM_LIMIT as int);
            lemma_mul_le(i as int, LEN_LIMIT as int, ELEM_LIMIT as int);
            lemma_range_sum_extend(volume@, 0, i as int);
            if i > 0 {
                lemma_tpv_sum_bound(high@, low@, close@, volume@, i - 1, ELEM_LIMIT as int);
                lemma_mul_le(range_sum(volume@, 0, i as int),
                    (LEN_LIMIT as int) * (ELEM_LIMIT as int), ELEM_LIMIT as int);
            }
            assert(-(3 * ELEM_LIMIT as int) <= high@[i as int] + low@[i as int]
                + close@[i as int] <= 3 * ELEM_LIMIT as int);
            lemma_tdiv_bound(high@[i as int] + low@[i as int] + close@[i as int], 3,
                ELEM_LIMIT as int);
        }
        let tp = div_trunc(high[i] as i128 + low[i] as i128 + close[i] as i128, 3);
        cum_vol = cum_vol + volume[i] as i128;
        proof {
            assert(-((ELEM_LIMIT as int) * (ELEM_LIMIT as int)) <= (tp as int) * (volume@[
                i as int] as int) <= (ELEM_LIMIT as int) * (ELEM_LIMIT as int))
                by (nonlinear_arith)
                requires
                    -(ELEM_LIMIT as int) <= tp as int <= ELEM_LIMIT as int,
                    0 <= volume@[i as int] as int <= ELEM_LIMIT as int,
            ;
            lemma_tpv_sum_bound(high@, low@, close@, volume@, i as int, ELEM_LIMIT as int);
            lemma_mul_le(range_sum(volume@, 0, i + 1), (LEN_LIMIT as int) * (ELEM_LIMIT
                as int), ELEM_LIMIT as int);
            lemma_range_sum_bound(volume@, 0, i + 1, ELEM_LIMIT as int);
            lemma_mul_le(i + 1, LEN_LIMIT as int, ELEM_LIMIT as int);
        }
        cum_tpv = cum_tpv + tp * volume[i] as i128;
        let val: i64 = if cum_vol > 0 {
            proof {
                lemma_tpv_sum_bound(high@, low@, close@, volume@, i as int,
                    ELEM_LIMIT as int);
                assert(range_sum(volume@, 0, i + 1) * (ELEM_LIMIT as int) == (ELEM_LIMIT
                    as int) * range_sum(volume@, 0, i + 1)) by (nonlinear_arith);
                lemma_tdiv_bound(cum_tpv as int, cum_vol as int, ELEM_LIMIT as int);
            }
            div_trunc(cum_tpv, cum_vol) as i64
        } else {
            tp as i64
        };
        r.push(val);
        i = i + 1;
    }
    r
}

/// Percent change over `p` bars, in hundredths of a percent; undefined
/// while there is no bar `p` back or its value is zero.
pub open spec fn pct_change_seq(s: Seq<i64>, p: int) -> Seq<Option<int>> {
    Seq::new(s.len(), |i: int| if i >= p && s[i - p] != 0 {
        Some(tdiv_any((s[i] - s[i - p]) * 10000, s[i - p] as int))
    } else {
        None
    })
}

/// Percent change against the value `periods` bars back, in hundredths of
/// a percent (basis points). The tighter element limit keeps the scaled
/// quotient inside 64 bits.
pub fn pct_change(data: &Vec<i64>, periods: usize) -> (r: Vec<Option<i64>>)
    requires
        bounded(data@, 400_000_000_000_000),
    ensures
        r@.len() == data@.len(),
        opt_seq(r@) == pct_change_seq(data@, periods as int),
{
    let n = data.len();
    let mut r: Vec<Option<i64>> = Vec::new();
    let mut i: usize = 0;
    while i < n
        invariant
            i <= n,
            n == data@.len(),
            bounded(data@, 400_000_000_000_000),
            r@.len() == i,
            forall|k: int| 0 <= k < i ==> opt_int(r@[k]) == pct_change_seq(data@,
                periods as int)[k],
        decreases n - i,
    {
        let val: Option<i64> = if i >= periods && data[i - periods] != 0 {
            let base = data[i - periods];
            let num = (data[i] as i128 - base as i128) * 10000;
            let q = if base > 0 {
                proof {
                    crate::num::lemma_tdiv_shrinks(num as int, base as int);
                }
                div_trunc(num, base as i128)
            } else {
                proof {
                    crate::num::lemma_tdiv_shrinks(-num as int, -(base as int));
                }
                div_trunc(-num, -(base as i128))
            };
            Some(q as i64)
        } else {
            None
        };
        r.push(val);
        i = i + 1;
    }
    proof {
        assert(opt_seq(r@) =~= pct_change_seq(data@, periods as int));
    }
    r
}

/// The bar's volume against its rolling mean, in thousandths; undefined
/// where the mean is undefined or not positive.
pub open spec fn volume_ratio_seq(v: Seq<i64>, p: int) -> Seq<Option<int>> {
    Seq::new(v.len(), |i: int| match sma_seq(v, p)[i] {
        Some(a) => if a > 0 {
            Some(tdiv(v[i] * 1000, a))
        } else {
            None
        },
        None => None,
    })
}

/// Volume over average volume, in thousandths.
pub fn volume_ratio(volume: &Vec<i64>, period: usize) -> (r: Vec<Option<i64>>)
    requires
        volume@.len() <= LEN_LIMIT,
        bounded(volume@, ELEM_LIMIT as int),
    ensures
        r@.len() == volume@.len(),
        opt_seq(r@) == volume_ratio_seq(volume@, period as int),
{
    let n = volume.len();
    let avg = sma(volume, period);
    let mut r: Vec<Option<i64>> = Vec::new();
    let mut i: usize = 0;
    while i < n
        invariant
            i <= n,
            n == volume@.len(),
            bounded(volume@, ELEM_LIMIT as int),
            avg@.len() == n,
            opt_seq(avg@) == sma_seq(volume@, period as int),
            r@.len() == i,
            forall|k: int| 0 <= k < i ==> opt_int(r@[k]) == volume_ratio_seq(volume@,
                period as int)[k],
        decreases n - i,
    {
        proof {
            assert(opt_seq(avg@)[i as int] == opt_int(avg@[i as int]));
        }
        let val: Option<i64> = match avg[i] {
            Some(a) => {
                if a > 0 {
                    proof {
                        crate::num::lemma_tdiv_shrinks(volume@[i as int] * 1000, a as int);
                    }
                    Some(div_trunc(volume[i] as i128 * 1000, a as i128) as i64)
                } else {
                    None
                }
            },
            None => None,
        };
        r.push(val);
        i = i + 1;
    }
    proof {
        assert(opt_seq(r@) =~= volume_ratio_seq(volume@, period as int));
    }
    r
}

} // verus!
