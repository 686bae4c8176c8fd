//! The pattern catalog: every built-in scan maps one ticker's series and a
//! parameter bag to a boolean mask over its dates. Numeric parameters are
//! fixed-point thousandths; a missing or malformed parameter falls back to
//! the documented default rather than failing.

use vstd::prelude::*;

verus! {

use crate::data::TickerData;
use crate::indicators::{
    ema, ema_seq, macd, macd_seq, macd_signal, macd_signal_seq, obv, obv_at, rsi, rsi_seq,
    sma, sma_seq, volume_ratio, volume_ratio_seq,
};
use crate::monthly::{bar_matches, bar_ranges, build_monthly_bars, lemma_bar_ranges_from_wf,
    MonthlyBar};
use crate::num::{opt_int, opt_seq, tdiv, tdiv_any, div_trunc};
use crate::params::{list_of, num_of, period_of, text_of, list_param, num_param, period_param,
    text_param, ParamValue};
use crate::signals::{
    above, above_mask, and, and_mask, crossed_above, crossed_above_mask, crossed_below,
    crossed_below_mask, false_vec, higher_high, higher_high_mask, lower_low, lower_low_mask,
    win_max, win_min,
};
use crate::text::{eq_ignore_ascii, eq_lower, eq_str};

/// The parameter bag, as the patterns and the executor read it.
pub type Params = Vec<(String, ParamValue)>;

/// The on-balance-volume values as a machine series.
pub open spec fn obv_vals(td: TickerData) -> Seq<i64> {
    Seq::new(td.close@.len(), |i: int| obv_at(td.close@, td.volume@, i) as i64)
}

/// The series every position of which holds the same defined value.
pub open spec fn const_opt(n: nat, v: int) -> Seq<Option<int>> {
    Seq::new(n, |i: int| Some(v))
}

/// A threshold parameter given in thousandths, truncated to whole points.
pub open spec fn points_of(ps: Seq<(String, ParamValue)>, name: Seq<char>, default: int) -> int {
    tdiv(num_of(ps, name, default), 1000)
}

pub open spec fn golden_cross_mask(td: TickerData) -> Seq<bool> {
    crossed_above_mask(sma_seq(td.close@, 50), sma_seq(td.close@, 200))
}

pub open spec fn death_cross_mask(td: TickerData) -> Seq<bool> {
    crossed_below_mask(sma_seq(td.close@, 50), sma_seq(td.close@, 200))
}

pub open spec fn ema_cross_mask(td: TickerData, ps: Seq<(String, ParamValue)>) -> Seq<bool> {
    let fast = ema_seq(td.close@, period_of(ps, "fast"@, 12));
    let slow = ema_seq(td.close@, period_of(ps, "slow"@, 26));
    if text_of(ps, "direction"@, "up"@) == "up"@ {
        crossed_above_mask(fast, slow)
    } else {
        crossed_below_mask(fast, slow)
    }
}

pub open spec fn rsi_oversold_mask(td: TickerData, ps: Seq<(String, ParamValue)>) -> Seq<bool> {
    let r = rsi_seq(td.close@, period_of(ps, "period"@, 14));
    crossed_below_mask(r, const_opt(r.len(), points_of(ps, "threshold"@, 30000)))
}

pub open spec fn rsi_overbought_mask(td: TickerData, ps: Seq<(String, ParamValue)>) -> Seq<
    bool,
> {
    let r = rsi_seq(td.close@, period_of(ps, "period"@, 14));
    crossed_above_mask(r, const_opt(r.len(), points_of(ps, "threshold"@, 70000)))
}

pub open spec fn obv_breakout_mask(td: TickerData, ps: Seq<(String, ParamValue)>) -> Seq<bool> {
    higher_high_mask(obv_vals(td), period_of(ps, "lookback"@, 20))
}

pub open spec fn volume_spike_mask(td: TickerData, ps: Seq<(String, ParamValue)>) -> Seq<bool> {
    above_mask(
        volume_ratio_seq(td.volume@, period_of(ps, "period"@, 20)),
        num_of(ps, "multiplier"@, 2000),
    )
}

pub open spec fn macd_cross_up_mask(td: TickerData, ps: Seq<(String, ParamValue)>) -> Seq<
    bool,
> {
    let fast = period_of(ps, "fast"@, 12);
    let slow = period_of(ps, "slow"@, 26);
    let signal = period_of(ps, "signal"@, 9);
    crossed_above_mask(
        macd_seq(td.close@, fast, slow),
        macd_signal_seq(td.close@, fast, slow, signal),
    )
}

pub open spec fn macd_cross_down_mask(td: TickerData, ps: Seq<(String, ParamValue)>) -> Seq<
    bool,
> {
    let fast = period_of(ps, "fast"@, 12);
    let slow = period_of(ps, "slow"@, 26);
    let signal = period_of(ps, "signal"@, 9);
    crossed_below_mask(
        macd_seq(td.close@, fast, slow),
        macd_signal_seq(td.close@, fast, slow, signal),
    )
}

pub open spec fn price_breakout_mask(td: TickerData, ps: Seq<(String, ParamValue)>) -> Seq<
    bool,
> {
    higher_high_mask(td.close@, period_of(ps, "lookback"@, 252))
}

pub open spec fn bullish_divergence_mask(td: TickerData, ps: Seq<(String, ParamValue)>) -> Seq<
    bool,
> {
    let lb = period_of(ps, "lookback"@, 20);
    and_mask(lower_low_mask(td.close@, lb), higher_high_mask(obv_vals(td), lb))
}

pub open spec fn bearish_divergence_mask(td: TickerData, ps: Seq<(String, ParamValue)>) -> Seq<
    bool,
> {
    let lb = period_of(ps, "lookback"@, 20);
    and_mask(higher_high_mask(td.close@, lb), lower_low_mask(obv_vals(td), lb))
}

/// A constant defined series as a machine vector.
fn const_vec(n: usize, v: i64) -> (r: Vec<Option<i64>>)
    ensures
        r@.len() == n,
        opt_seq(r@) == const_opt(n as nat, v as int),
{
    let mut r: Vec<Option<i64>> = Vec::new();
    let mut k: usize = 0;
    while k < n
        invariant
            k <= n,
            r@.len() == k,
            forall|j: int| 0 <= j < k ==> r@[j] == Some(v),
        decreases n - k,
    {
        r.push(Some(v));
        k = k + 1;
    }
    proof {
        assert(opt_seq(r@) =~= const_opt(n as nat, v as int));
    }
    r
}

/// The on-balance-volume series of the ticker.
fn obv_series(data: &TickerData) -> (r: Vec<i64>)
    requires
        data.wf(),
    ensures
        r@ == obv_vals(*data),
{
    let r = obv(&data.close, &data.volume);
    proof {
        assert(r@ =~= obv_vals(*data));
    }
    r
}

/// Golden cross: the 50-day mean crosses above the 200-day mean.
pub fn scan_golden_cross(data: &TickerData) -> (r: Vec<bool>)
    requires
        data.wf(),
    ensures
        r@ == golden_cross_mask(*data),
{
    let sma_50 = sma(&data.close, 50);
    let sma_200 = sma(&data.close, 200);
    crossed_above(&sma_50, &sma_200)
}

/// Death cross: the 50-day mean crosses below the 200-day mean.
pub fn scan_death_cross(data: &TickerData) -> (r: Vec<bool>)
    requires
        data.wf(),
    ensures
        r@ == death_cross_mask(*data),
{
    let sma_50 = sma(&data.close, 50);
    let sma_200 = sma(&data.close, 200);
    crossed_below(&sma_50, &sma_200)
}

/// Fast exponential mean crossing the slow one, in the chosen direction.
pub fn scan_ema_cross(data: &TickerData, params: &Params) -> (r: Vec<bool>)
    requires
        data.wf(),
    ensures
        r@ == ema_cross_mask(*data, params@),
{
    let fast = period_param(params, "fast", 12);
    let slow = period_param(params, "slow", 26);
    let direction = text_param(params, "direction", "up");
    let ema_fast = ema(&data.close, fast);
    let ema_slow = ema(&data.close, slow);
    if eq_str(direction.as_str(), "up") {
        crossed_above(&ema_fast, &ema_slow)
    } else {
        crossed_below(&ema_fast, &ema_slow)
    }
}

/// RSI crossing down through the oversold threshold.
pub fn scan_rsi_oversold(data: &TickerData, params: &Params) -> (r: Vec<bool>)
    requires
        data.wf(),
    ensures
        r@ == rsi_oversold_mask(*data, params@),
{
    let period = period_param(params, "period", 14);
    let thr_milli = num_param(params, "threshold", 30000);
    let threshold = div_trunc(thr_milli as i128, 1000) as i64;
    proof {
        crate::num::lemma_tdiv_shrinks(thr_milli as int, 1000);
    }
    let rsi_vals = rsi(&data.close, period);
    let thresh = const_vec(rsi_vals.len(), threshold);
    crossed_below(&rsi_vals, &thresh)
}

/// RSI crossing up through the overbought threshold.
pub fn scan_rsi_overbought(data: &TickerData, params: &Params) -> (r: Vec<bool>)
    requires
        data.wf(),
    ensures
        r@ == rsi_overbought_mask(*data, params@),
{
    let period = period_param(params, "period", 14);
    let thr_milli = num_param(params, "threshold", 70000);
    let threshold = div_trunc(thr_milli as i128, 1000) as i64;
    proof {
        crate::num::lemma_tdiv_shrinks(thr_milli as int, 1000);
    }
    let rsi_vals = rsi(&data.close, period);
    let thresh = const_vec(rsi_vals.len(), threshold);
    crossed_above(&rsi_vals, &thresh)
}

/// On-balance volume making a fresh high over the lookback window.
pub fn scan_obv_breakout(data: &TickerData, params: &Params) -> (r: Vec<bool>)
    requires
        data.wf(),
    ensures
        r@ == obv_breakout_mask(*data, params@),
{
    let lookback = period_param(params, "lookback", 20);
    let vals = obv_series(data);
    higher_high(&vals, lookback)
}

/// Volume running past its rolling mean by the given multiplier.
pub fn scan_volume_spike(data: &TickerData, params: &Params) -> (r: Vec<bool>)
    requires
        data.wf(),
    ensures
        r@ == volume_spike_mask(*data, params@),
{
    let period = period_param(params, "period", 20);
    let multiplier = num_param(params, "multiplier", 2000);
    let ratio = volume_ratio(&data.volume, period);
    above(&ratio, multiplier)
}

/// MACD line crossing above its signal line.
pub fn scan_macd_cross_up(data: &TickerData, params: &Params) -> (r: Vec<bool>)
    requires
        data.wf(),
    ensures
        r@ == macd_cross_up_mask(*data, params@),
{
    let fast = period_param(params, "fast", 12);
    let slow = period_param(params, "slow", 26);
    let signal = period_param(params, "signal", 9);
    let line = macd(&data.close, fast, slow);
    let sig = macd_signal(&data.close, fast, slow, signal);
    crossed_above(&line, &sig)
}

/// MACD line crossing below its signal line.
pub fn scan_macd_cross_down(data: &TickerData, params: &Params) -> (r: Vec<bool>)
    requires
        data.wf(),
    ensures
        r@ == macd_cross_down_mask(*data, params@),
{
    let fast = period_param(params, "fast", 12);
    let slow = period_param(params, "slow", 26);
    let signal = period_param(params, "signal", 9);
    let line = macd(&data.close, fast, slow);
    let sig = macd_signal(&data.close, fast, slow, signal);
    crossed_below(&line, &sig)
}

/// Close breaking above its rolling high.
pub fn scan_price_breakout(data: &TickerData, params: &Params) -> (r: Vec<bool>)
    requires
        data.wf(),
    ensures
        r@ == price_breakout_mask(*data, params@),
{
    let lookback = period_param(params, "lookback", 252);
    higher_high(&data.close, lookback)
}

/// Price making a lower low while on-balance volume makes a higher high.
pub fn scan_bullish_divergence(data: &TickerData, params: &Params) -> (r: Vec<bool>)
    requires
        data.wf(),
    ensures
        r@ == bullish_divergence_mask(*data, params@),
{
    let lookback = period_param(params, "lookback", 20);
    let vals = obv_series(data);
    let price_ll = lower_low(&data.close, lookback);
    let obv_hh = higher_high(&vals, lookback);
    and(&price_ll, &obv_hh)
}

/// Price making a higher high while on-balance volume makes a lower low.
pub fn scan_bearish_divergence(data: &TickerData, params: &Params) -> (r: Vec<bool>)
    requires
        data.wf(),
    ensures
        r@ == bearish_divergence_mask(*data, params@),
{
    let lookback = period_param(params, "lookback", 20);
    let vals = obv_series(data);
    let price_hh = higher_high(&data.close, lookback);
    let obv_ll = lower_low(&vals, lookback);
    and(&price_hh, &obv_ll)
}

/// Band squeeze at `i`: all three band values at hand, a nonzero middle,
/// and the band width as a share of the middle under the threshold (in
/// hundredths of a percent).
pub open spec fn squeeze_at(
    mid: Seq<Option<int>>,
    up: Seq<Option<int>>,
    lo: Seq<Option<int>>,
    bp: int,
    i: int,
) -> bool {
    &&& mid[i] is Some
    &&& up[i] is Some
    &&& lo[i] is Some
    &&& mid[i]->0 != 0
    &&& tdiv_any((up[i]->0 - lo[i]->0) * 10000, mid[i]->0) < bp
}

pub open spec fn bollinger_squeeze_mask(td: TickerData, ps: Seq<(String, ParamValue)>) -> Seq<
    bool,
> {
    let p = period_of(ps, "period"@, 20);
    let nsm = num_of(ps, "std"@, 2000);
    let bp = tdiv_any(num_of(ps, "squeeze_pct"@, 5000), 10);
    let mid = sma_seq(td.close@, p);
    let up = crate::indicators::boll_upper_seq(td.close@, p, nsm);
    let lo = crate::indicators::boll_lower_seq(td.close@, p, nsm);
    Seq::new(td.close@.len(), |i: int| squeeze_at(mid, up, lo, bp, i))
}

/// Bollinger bands narrowing to under the squeeze threshold.
pub fn scan_bollinger_squeeze(data: &TickerData, params: &Params) -> (r: Vec<bool>)
    requires
        data.wf(),
    ensures
        r@ == bollinger_squeeze_mask(*data, params@),
{
    let period = period_param(params, "period", 20);
    let std_mult = num_param(params, "std", 2000);
    let squeeze_milli = num_param(params, "squeeze_pct", 5000);
    let squeeze_bp: i64 = if squeeze_milli >= 0 {
        div_trunc(squeeze_milli as i128, 10) as i64
    } else {
        -(div_trunc(-(squeeze_milli as i128), 10) as i64)
    };
    proof {
        crate::num::lemma_tdiv_shrinks(squeeze_milli as int, 10);
        crate::num::lemma_tdiv_shrinks(-(squeeze_milli as int), 10);
    }
    let bands = crate::indicators::bollinger(&data.close, period, std_mult);
    let (middle, upper, lower) = bands;
    let n = data.close.len();
    let mut r: Vec<bool> = Vec::new();
    let mut i: usize = 0;
    let ghost mid_s = sma_seq(data.close@, period as int);
    let ghost up_s = crate::indicators::boll_upper_seq(data.close@, period as int,
        std_mult as int);
    let ghost lo_s = crate::indicators::boll_lower_seq(data.close@, period as int,
        std_mult as int);
    let ghost bp = tdiv_any(num_of(params@, "squeeze_pct"@, 5000), 10);
    while i < n
        invariant
            i <= n,
            n == data.close@.len(),
            middle@.len() == n && upper@.len() == n && lower@.len() == n,
            opt_seq(middle@) == mid_s,
            opt_seq(upper@) == up_s,
            opt_seq(lower@) == lo_s,
            squeeze_bp == bp,
            r@.len() == i,
            forall|k: int| 0 <= k < i ==> r@[k] == squeeze_at(mid_s, up_s, lo_s, bp, k),
        decreases n - i,
    {
        proof {
            assert(opt_seq(middle@)[i as int] == opt_int(middle@[i as int]));
            assert(opt_seq(upper@)[i as int] == opt_int(upper@[i as int]));
            assert(opt_seq(lower@)[i as int] == opt_int(lower@[i as int]));
        }
        let fire = match (middle[i], upper[i], lower[i]) {
            (Some(m), Some(u), Some(l)) => {
                if m != 0 {
                    let num = (u as i128 - l as i128) * 10000;
                    let q = if m > 0 {
                        div_trunc(num, m as i128)
                    } else {
                        div_trunc(-num, -(m as i128))
                    };
                    q < squeeze_bp as i128
                } else {
                    false
                }
            },
            _ => false,
        };
        r.push(fire);
        i = i + 1;
    }
    proof {
        assert(r@ =~= bollinger_squeeze_mask(*data, params@));
    }
    r
}

/// Consolidation breakout at `i`: the prior window held a tight range and
/// today's close breaks its high on a volume spike.
pub open spec fn consolidation_at(
    td: TickerData,
    ratio: Seq<Option<int>>,
    p: int,
    range_bp: int,
    vol_mult: int,
    i: int,
) -> bool {
    &&& p >= 1
    &&& i >= p
    &&& i < td.close@.len()
    &&& ({
        let mx = win_max(td.close@, i - p, i);
        let mn = win_min(td.close@, i - p, i);
        &&& mn != 0
        &&& tdiv_any((mx - mn) * 10000, mn) < range_bp
        &&& td.close@[i] > mx
        &&& ratio[i] is Some
        &&& ratio[i]->0 > vol_mult
    })
}

pub open spec fn consolidation_breakout_mask(td: TickerData, ps: Seq<(String, ParamValue)>)
    -> Seq<bool> {
    let p = period_of(ps, "period"@, 30);
    let range_bp = tdiv_any(num_of(ps, "range_pct"@, 5000), 10);
    let vol_mult = num_of(ps, "volume_multiplier"@, 1500);
    let ratio = volume_ratio_seq(td.volume@, 20);
    Seq::new(td.close@.len(), |i: int| consolidation_at(td, ratio, p, range_bp, vol_mult, i))
}

/// A tight trailing range broken with a confirming volume spike.
pub fn scan_consolidation_breakout(data: &TickerData, params: &Params) -> (r: Vec<bool>)
    requires
        data.wf(),
    ensures
        r@ == consolidation_breakout_mask(*data, params@),
{
    let period = period_param(params, "period", 30);
    let range_milli = num_param(params, "range_pct", 5000);
    let range_bp: i64 = if range_milli >= 0 {
        div_trunc(range_milli as i128, 10) as i64
    } else {
        -(div_trunc(-(range_milli as i128), 10) as i64)
    };
    proof {
        crate::num::lemma_tdiv_shrinks(range_milli as int, 10);
        crate::num::lemma_tdiv_shrinks(-(range_milli as int), 10);
    }
    let vol_mult = num_param(params, "volume_multiplier", 1500);
    let ratio = volume_ratio(&data.volume, 20);
    let n = data.close.len();
    let ghost ratio_s = volume_ratio_seq(data.volume@, 20);
    let ghost range_bp_s = tdiv_any(num_of(params@, "range_pct"@, 5000), 10);
    let mut r: Vec<bool> = Vec::new();
    let mut i: usize = 0;
    while i < n
        invariant
            i <= n,
            n == data.close@.len(),
            data.wf(),
            ratio@.len() == n,
            opt_seq(ratio@) == ratio_s,
            range_bp == range_bp_s,
            vol_mult == num_of(params@, "volume_multiplier"@, 1500),
            period == period_of(params@, "period"@, 30),
            r@.len() == i,
            forall|k: int| 0 <= k < i ==> r@[k] == consolidation_at(*data, ratio_s,
                period_of(params@, "period"@, 30), range_bp_s, num_of(params@,
                "volume_multiplier"@, 1500), k),
        decreases n - i,
    {
        proof {
            assert(opt_seq(ratio@)[i as int] == opt_int(ratio@[i as int]));
        }
        let fire = if period >= 1 && i >= period {
            let lo = i - period;
            let mut mx: i64 = data.close[lo];
            let mut mn: i64 = data.close[lo];
            let mut j: usize = lo + 1;
            while j < i
                invariant
                    lo + 1 <= j <= i,
                    lo == i - period,
                    i < n,
                    n == data.close@.len(),
                    mx == win_max(data.close@, lo as int, j as int),
                    mn == win_min(data.close@, lo as int, j as int),
                decreases i - j,
            {
                if data.close[j] > mx {
                    mx = data.close[j];
                }
                if data.close[j] < mn {
                    mn = data.close[j];
                }
                j = j + 1;
            }
            if mn != 0 {
                let num = (mx as i128 - mn as i128) * 10000;
                let q = if mn > 0 {
                    div_trunc(num, mn as i128)
                } else {
                    div_trunc(-num, -(mn as i128))
                };
                if q < range_bp as i128 && data.close[i] > mx {
                    match ratio[i] {
                        Some(v) => v > vol_mult,
                        None => false,
                    }
                } else {
                    false
                }
            } else {
                false
            }
        } else {
            false
        };
        r.push(fire);
        i = i + 1;
    }
    proof {
        assert(r@ =~= consolidation_breakout_mask(*data, params@));
    }
    r
}

/// The RSI dipped under the threshold somewhere in the window before `i`.
pub open spec fn rsi_was_oversold(rsi_s: Seq<Option<int>>, i: int, lb: int, thr: int) -> bool {
    exists|j: int|
        (if i > lb {
            i - lb
        } else {
            0
        }) <= j < i && (#[trigger] rsi_s[j]) is Some && rsi_s[j]->0 < thr
}

/// Bullish engulfing after an oversold dip: a red bar, then a green bar
/// whose body swallows it, with the RSI recently under the threshold.
pub open spec fn engulfing_at(
    td: TickerData,
    rsi_s: Seq<Option<int>>,
    lb: int,
    thr: int,
    i: int,
) -> bool {
    &&& 1 <= i < td.close@.len()
    &&& td.close@[i - 1] < td.open@[i - 1]
    &&& td.close@[i] > td.open@[i]
    &&& td.open@[i] <= td.close@[i - 1]
    &&& td.close@[i] >= td.open@[i - 1]
    &&& rsi_was_oversold(rsi_s, i, lb, thr)
}

pub open spec fn bullish_engulfing_oversold_mask(td: TickerData, ps: Seq<(String, ParamValue)>)
    -> Seq<bool> {
    let rsi_s = rsi_seq(td.close@, period_of(ps, "rsi_period"@, 14));
    let thr = points_of(ps, "rsi_threshold"@, 30000);
    let lb = period_of(ps, "lookback"@, 5);
    Seq::new(td.close@.len(), |i: int| engulfing_at(td, rsi_s, lb, thr, i))
}

/// A bullish engulfing candle following a recent oversold RSI reading.
pub fn scan_bullish_engulfing_oversold(data: &TickerData, params: &Params) -> (r: Vec<bool>)
    requires
        data.wf(),
    ensures
        r@ == bullish_engulfing_oversold_mask(*data, params@),
{
    let rsi_period = period_param(params, "rsi_period", 14);
    let thr_milli = num_param(params, "rsi_threshold", 30000);
    let threshold = div_trunc(thr_milli as i128, 1000) as i64;
    proof {
        crate::num::lemma_tdiv_shrinks(thr_milli as int, 1000);
    }
    let lookback = period_param(params, "lookback", 5);
    let rsi_vals = rsi(&data.close, rsi_period);
    let n = data.close.len();
    let ghost rsi_s = rsi_seq(data.close@, rsi_period as int);
    let ghost thr = points_of(params@, "rsi_threshold"@, 30000);
    let ghost lb = period_of(params@, "lookback"@, 5);
    let mut r: Vec<bool> = Vec::new();
    let mut i: usize = 0;
    while i < n
        invariant
            i <= n,
            n == data.close@.len(),
            data.wf(),
            rsi_vals@.len() == n,
            opt_seq(rsi_vals@) == rsi_s,
            threshold == thr,
            lookback == lb,
            r@.len() == i,
            forall|k: int| 0 <= k < i ==> r@[k] == engulfing_at(*data, rsi_s, lb, thr, k),
        decreases n - i,
    {
        let fire = if i >= 1 {
            let prev_red = data.close[i - 1] < data.open[i - 1];
            let curr_green = data.close[i] > data.open[i];
            let engulfs = data.open[i] <= data.close[i - 1] && data.close[i] >= data.open[i
                - 1];
            if prev_red && curr_green && engulfs {
                let start = if i > lookback {
                    i - lookback
                } else {
                    0
                };
                let mut found = false;
                let mut j: usize = start;
                while j < i
                    invariant
                        start <= j <= i,
                        i < n,
                        n == data.close@.len(),
                        rsi_vals@.len() == n,
                        opt_seq(rsi_vals@) == rsi_s,
                        threshold == thr,
                        start == (if i as int > lb {
                            i - lb
                        } else {
                            0
                        }),
                        found == exists|l: int|
                            start <= l < j && (#[trigger] rsi_s[l]) is Some && rsi_s[l]->0
                                < thr,
                    decreases i - j,
                {
                    proof {
                        assert(opt_seq(rsi_vals@)[j as int] == opt_int(rsi_vals@[j as int]));
                    }
                    match rsi_vals[j] {
                        Some(v) => {
                            if v < threshold {
                                found = true;
                            }
                        },
                        None => {},
                    }
                    j = j + 1;
                }
                found
            } else {
                false
            }
        } else {
            false
        };
        r.push(fire);
        i = i + 1;
    }
    proof {
        assert(r@ =~= bullish_engulfing_oversold_mask(*data, params@));
    }
    r
}

/// The gap-drop condition between consecutive monthly bars `k - 1` and
/// `k`: the prior month closed nonzero, the new month opened at least
/// `gap_bp` hundredths of a percent below that close, and the new month's
/// candle matches the filter keyword.
pub open spec fn gap_cond(
    td: TickerData,
    ranges: Seq<(int, int)>,
    k: int,
    gap_bp: int,
    candle: Seq<char>,
) -> bool {
    let prev_close = td.close@[ranges[k - 1].1];
    let curr_open = td.open@[ranges[k].0];
    let curr_close = td.close@[ranges[k].1];
    &&& prev_close != 0
    &&& tdiv_any((curr_open - prev_close) * 10000, prev_close as int) <= -gap_bp
    &&& (if eq_lower(candle, "bullish"@) {
        curr_close > curr_open
    } else if eq_lower(candle, "bearish"@) {
        curr_close < curr_open
    } else {
        true
    })
}

/// The date the event is reported on: the month's first or last trading
/// day.
pub open spec fn gap_event_idx(ranges: Seq<(int, int)>, k: int, event_end: bool) -> int {
    if event_end {
        ranges[k].1
    } else {
        ranges[k].0
    }
}

pub open spec fn monthly_gap_drop_mask(td: TickerData, ps: Seq<(String, ParamValue)>) -> Seq<
    bool,
> {
    let g = num_of(ps, "gap_pct"@, 5000);
    let gap_bp = tdiv(
        if g >= 0 {
            g
        } else {
            -g
        },
        10,
    );
    let candle = text_of(ps, "candle"@, "any"@);
    let ev = text_of(ps, "event_on"@, "start"@);
    let event_end = eq_lower(ev, "end"@) || eq_lower(ev, "close"@);
    let ranges = bar_ranges(td.dates());
    Seq::new(td.close@.len(), |i: int|
        exists|k: int|
            1 <= k < ranges.len() && gap_event_idx(ranges, k, event_end) == i
                && #[trigger] gap_cond(td, ranges, k, gap_bp, candle))
}

/// A month opening under the prior month's close by more than the
/// threshold, with an optional candle-colour filter, reported on the
/// month's first or last trading date.
pub fn scan_monthly_gap_drop(data: &TickerData, params: &Params) -> (r: Vec<bool>)
    requires
        data.wf(),
    ensures
        r@ == monthly_gap_drop_mask(*data, params@),
{
    let g_milli = num_param(params, "gap_pct", 5000);
    let g_abs: i64 = if g_milli >= 0 {
        g_milli
    } else {
        -g_milli
    };
    let gap_bp = div_trunc(g_abs as i128, 10) as i64;
    proof {
        crate::num::lemma_tdiv_shrinks(g_abs as int, 10);
    }
    let candle = text_param(params, "candle", "any");
    let ev = text_param(params, "event_on", "start");
    let event_end = eq_ignore_ascii(ev.as_str(), "end") || eq_ignore_ascii(ev.as_str(),
        "close");
    let is_bull = eq_ignore_ascii(candle.as_str(), "bullish");
    let is_bear = eq_ignore_ascii(candle.as_str(), "bearish");
    let n = data.close.len();
    let bars = build_monthly_bars(data);
    let mut r = false_vec(n);
    let ghost ranges = bar_ranges(data.dates());
    let ghost gap_bp_s = gap_bp as int;
    let ghost candle_s = text_of(params@, "candle"@, "any"@);
    let ghost ev_end_s = event_end;
    proof {
        lemma_bar_ranges_from_wf(data.dates(), 0);
    }
    let nb = bars.len();
    if nb < 2 {
        proof {
            assert(r@ =~= monthly_gap_drop_mask(*data, params@));
        }
        return r;
    }
    let mut b: usize = 1;
    while b < nb
        invariant
            1 <= b <= nb,
            n == data.close@.len(),
            data.wf(),
            ranges == bar_ranges(data.dates()),
            nb == bars@.len(),
            nb == ranges.len(),
            forall|k: int| 0 <= k < nb ==> bar_matches(*data, (#[trigger] ranges[k]).0,
                ranges[k].1, bars@[k]),
            forall|k: int| 0 <= k < ranges.len() ==> 0 <= (#[trigger] ranges[k]).0 <= ranges[
                k].1 < n,
            gap_bp_s == gap_bp as int,
            -1_000_000_000 <= gap_bp <= 1_000_000_000,
            is_bull == eq_lower(candle_s, "bullish"@),
            is_bear == eq_lower(candle_s, "bearish"@),
            ev_end_s == event_end,
            r@.len() == n,
            forall|idx: int| 0 <= idx < n ==> r@[idx] == exists|k: int|
                1 <= k < b && gap_event_idx(ranges, k, ev_end_s) == idx && #[trigger] gap_cond(
                *data, ranges, k, gap_bp_s, candle_s),
        decreases nb - b,
    {
        let prev = bars[b - 1];
        let curr = bars[b];
        let fire = if prev.close != 0 {
            let num = (curr.open as i128 - prev.close as i128) * 10000;
            let q = if prev.close > 0 {
                div_trunc(num, prev.close as i128)
            } else {
                div_trunc(-num, -(prev.close as i128))
            };
            if q <= -(gap_bp as i128) {
                if is_bull {
                    curr.close > curr.open
                } else if is_bear {
                    curr.close < curr.open
                } else {
                    true
                }
            } else {
                false
            }
        } else {
            false
        };
        proof {
            assert(bar_matches(*data, ranges[b - 1].0, ranges[b - 1].1, bars@[b - 1]));
            assert(bar_matches(*data, ranges[b as int].0, ranges[b as int].1, bars@[b as int]));
            assert(0 <= ranges[b as int].0 <= ranges[b as int].1 < n);
            assert(fire == gap_cond(*data, ranges, b as int, gap_bp_s, candle_s));
        }
        if fire {
            let idx = if event_end {
                curr.end_idx
            } else {
                curr.start_idx
            };
            proof {
                assert(idx == gap_event_idx(ranges, b as int, ev_end_s));
                assert(idx < n);
            }
            let ghost old_r = r@;
            r.set(idx, true);
            proof {
                assert forall|p: int| 0 <= p < n implies r@[p] == exists|k: int|
                    1 <= k < b + 1 && gap_event_idx(ranges, k, ev_end_s) == p
                        && #[trigger] gap_cond(*data, ranges, k, gap_bp_s, candle_s) by {
                    if p == idx {
                        assert(gap_cond(*data, ranges, b as int, gap_bp_s, candle_s));
                    } else {
                        assert(r@[p] == old_r[p]);
                    }
                }
            }
        } else {
            proof {
                assert forall|p: int| 0 <= p < n implies r@[p] == exists|k: int|
                    1 <= k < b + 1 && gap_event_idx(ranges, k, ev_end_s) == p
                        && #[trigger] gap_cond(*data, ranges, k, gap_bp_s, candle_s) by {
                }
            }
        }
        b = b + 1;
    }
    proof {
        assert(r@ =~= monthly_gap_drop_mask(*data, params@));
    }
    r
}

/// The mask of one recognized composite condition name; the composite
/// accepts the six names it documents and skips anything else.
pub open spec fn cond_mask(td: TickerData, ps: Seq<(String, ParamValue)>, name: Seq<char>)
    -> Option<Seq<bool>> {
    if name == "golden_cross"@ {
        Some(golden_cross_mask(td))
    } else if name == "death_cross"@ {
        Some(death_cross_mask(td))
    } else if name == "rsi_oversold"@ {
        Some(rsi_oversold_mask(td, ps))
    } else if name == "rsi_overbought"@ {
        Some(rsi_overbought_mask(td, ps))
    } else if name == "volume_spike"@ {
        Some(volume_spike_mask(td, ps))
    } else if name == "price_breakout"@ {
        Some(price_breakout_mask(td, ps))
    } else {
        None
    }
}

/// Folding the recognized condition masks of `conds[i..]` onto `acc` with
/// pointwise conjunction.
pub open spec fn custom_fold(
    td: TickerData,
    ps: Seq<(String, ParamValue)>,
    conds: Seq<Seq<char>>,
    i: int,
    acc: Option<Seq<bool>>,
) -> Option<Seq<bool>>
    decreases conds.len() - i,
{
    if i < 0 || i >= conds.len() {
        acc
    } else {
        match cond_mask(td, ps, conds[i]) {
            Some(m) => custom_fold(td, ps, conds, i + 1, Some(
                match acc {
                    Some(a) => and_mask(a, m),
                    None => m,
                },
            )),
            None => custom_fold(td, ps, conds, i + 1, acc),
        }
    }
}

/// The composite pattern: the conjunction of the recognized condition
/// masks named by the `conditions` list; all-false when none is named.
pub open spec fn custom_mask(td: TickerData, ps: Seq<(String, ParamValue)>) -> Seq<bool> {
    match custom_fold(td, ps, list_of(ps, "conditions"@), 0, None) {
        Some(m) => m,
        None => Seq::new(td.close@.len(), |i: int| false),
    }
}

/// Composite scan: AND together the masks of the named conditions.
pub fn scan_custom(data: &TickerData, params: &Params) -> (r: Vec<bool>)
    requires
        data.wf(),
    ensures
        r@ == custom_mask(*data, params@),
        r@.len() == data.close@.len(),
{
    let conds = list_param(params, "conditions");
    let n = data.close.len();
    let nc = conds.len();
    let ghost conds_s = list_of(params@, "conditions"@);
    let mut acc: Option<Vec<bool>> = None;
    let mut i: usize = 0;
    while i < nc
        invariant
            i <= nc,
            n == data.close@.len(),
            data.wf(),
            nc == conds@.len(),
            conds_s.len() == nc,
            forall|j: int| 0 <= j < nc ==> conds@[j]@ == conds_s[j],
            custom_fold(*data, params@, conds_s, 0, None) == custom_fold(*data, params@,
                conds_s, i as int, match acc {
                    Some(v) => Some(v@),
                    None => None,
                },
            ),
            acc matches Some(v) ==> v@.len() == n,
        decreases nc - i,
    {
        let name = &conds[i];
        let m: Option<Vec<bool>> = if eq_str(name.as_str(), "golden_cross") {
            Some(scan_golden_cross(data))
        } else if eq_str(name.as_str(), "death_cross") {
            Some(scan_death_cross(data))
        } else if eq_str(name.as_str(), "rsi_oversold") {
            Some(scan_rsi_oversold(data, params))
        } else if eq_str(name.as_str(), "rsi_overbought") {
            Some(scan_rsi_overbought(data, params))
        } else if eq_str(name.as_str(), "volume_spike") {
            Some(scan_volume_spike(data, params))
        } else if eq_str(name.as_str(), "price_breakout") {
            Some(scan_price_breakout(data, params))
        } else {
            None
        };
        match m {
            Some(mask) => {
                proof {
                    assert(cond_mask(*data, params@, conds_s[i as int]) == Some(mask@));
                }
                acc = match acc {
                    Some(a) => Some(and(&a, &mask)),
                    None => Some(mask),
                };
            },
            None => {
                proof {
                    assert(cond_mask(*data, params@, conds_s[i as int]) is None);
                }
            },
        }
        i = i + 1;
    }
    match acc {
        Some(v) => v,
        None => {
            let r = false_vec(n);
            proof {
                assert(r@ =~= custom_mask(*data, params@));
            }
            r
        },
    }
}

/// The catalog: the mask of a built-in pattern name, or nothing for a
/// name the catalog does not know.
pub open spec fn pattern_mask(td: TickerData, ps: Seq<(String, ParamValue)>, name: Seq<char>)
    -> Option<Seq<bool>> {
    if name == "golden_cross"@ {
        Some(golden_cross_mask(td))
    } else if name == "death_cross"@ {
        Some(death_cross_mask(td))
    } else if name == "ema_cross"@ {
        Some(ema_cross_mask(td, ps))
    } else if name == "rsi_oversold"@ {
        Some(rsi_oversold_mask(td, ps))
    } else if name == "rsi_overbought"@ {
        Some(rsi_overbought_mask(td, ps))
    } else if name == "obv_breakout"@ {
        Some(obv_breakout_mask(td, ps))
    } else if name == "volume_spike"@ {
        Some(volume_spike_mask(td, ps))
    } else if name == "bollinger_squeeze"@ {
        Some(bollinger_squeeze_mask(td, ps))
    } else if name == "macd_cross_up"@ {
        Some(macd_cross_up_mask(td, ps))
    } else if name == "macd_cross_down"@ {
        Some(macd_cross_down_mask(td, ps))
    } else if name == "price_breakout"@ {
        Some(price_breakout_mask(td, ps))
    } else if name == "bullish_divergence"@ {
        Some(bullish_divergence_mask(td, ps))
    } else if name == "bearish_divergence"@ {
        Some(bearish_divergence_mask(td, ps))
    } else if name == "consolidation_breakout"@ {
        Some(consolidation_breakout_mask(td, ps))
    } else if name == "bullish_engulfing_oversold"@ {
        Some(bullish_engulfing_oversold_mask(td, ps))
    } else if name == "monthly_gap_drop"@ {
        Some(monthly_gap_drop_mask(td, ps))
    } else if name == "custom"@ {
        Some(custom_mask(td, ps))
    } else {
        None
    }
}

/// The catalog answers for this name.
pub open spec fn known_pattern(td: TickerData, ps: Seq<(String, ParamValue)>, name: Seq<char>)
    -> bool {
    pattern_mask(td, ps, name) is Some
}

/// Evaluate a pattern by name; `None` means the catalog does not know the
/// name (the dynamic-registry seam of the surrounding system).
pub fn evaluate_pattern(name: &str, data: &TickerData, params: &Params) -> (r: Option<Vec<
    bool,
>>)
    requires
        data.wf(),
    ensures
        match r {
            Some(v) => pattern_mask(*data, params@, name@) == Some(v@) && v@.len()
                == data.close@.len(),
            None => pattern_mask(*data, params@, name@) is None,
        },
{
    let r: Option<Vec<bool>> = if eq_str(name, "golden_cross") {
        Some(scan_golden_cross(data))
    } else if eq_str(name, "death_cross") {
        Some(scan_death_cross(data))
    } else if eq_str(name, "ema_cross") {
        Some(scan_ema_cross(data, params))
    } else if eq_str(name, "rsi_oversold") {
        Some(scan_rsi_oversold(data, params))
    } else if eq_str(name, "rsi_overbought") {
        Some(scan_rsi_overbought(data, params))
    } else if eq_str(name, "obv_breakout") {
        Some(scan_obv_breakout(data, params))
    } else if eq_str(name, "volume_spike") {
        Some(scan_volume_spike(data, params))
    } else if eq_str(name, "bollinger_squeeze") {
        Some(scan_bollinger_squeeze(data, params))
    } else if eq_str(name, "macd_cross_up") {
        Some(scan_macd_cross_up(data, params))
    } else if eq_str(name, "macd_cross_down") {
        Some(scan_macd_cross_down(data, params))
    } else if eq_str(name, "price_breakout") {
        Some(scan_price_breakout(data, params))
    } else if eq_str(name, "bullish_divergence") {
        Some(scan_bullish_divergence(data, params))
    } else if eq_str(name, "bearish_divergence") {
        Some(scan_bearish_divergence(data, params))
    } else if eq_str(name, "consolidation_breakout") {
        Some(scan_consolidation_breakout(data, params))
    } else if eq_str(name, "bullish_engulfing_oversold") {
        Some(scan_bullish_engulfing_oversold(data, params))
    } else if eq_str(name, "monthly_gap_drop") {
        Some(scan_monthly_gap_drop(data, params))
    } else if eq_str(name, "custom") {
        Some(scan_custom(data, params))
    } else {
        None
    };
    r
}

} // verus!
