//! Exact-value checks for the series transforms.

use stockscan::indicators::{
    atr, bollinger, ema, macd, macd_histogram, macd_signal, obv, pct_change, rolling_max,
    rolling_min, rsi, sma, stddev, volume_ratio, vwap,
};
use stockscan::signals::{above, and, below, crossed_above, crossed_below, higher_high, lower_low, or};

#[test]
fn test_sma() {
    let data = vec![1, 2, 3, 4, 5];
    let result = sma(&data, 3);
    assert_eq!(result[2], Some(2));
    assert_eq!(result[4], Some(4));
}

#[test]
fn test_crossed_above() {
    let a = vec![Some(1), Some(2), Some(3), Some(4)];
    let b = vec![Some(2), Some(2), Some(2), Some(2)];
    let result = crossed_above(&a, &b);
    assert!(!result[0]);
    assert!(!result[1]);
    assert!(result[2]);
    assert!(!result[3]);
}

#[test]
fn sma_full_series() {
    let data = vec![1, 2, 3, 4, 5];
    let result = sma(&data, 3);
    assert_eq!(result, vec![None, None, Some(2), Some(3), Some(4)]);
}

#[test]
fn sma_period_zero_or_too_long() {
    let data = vec![1, 2, 3];
    assert_eq!(sma(&data, 0), vec![None, None, None]);
    assert_eq!(sma(&data, 4), vec![None, None, None]);
}

#[test]
fn sma_truncates_toward_zero() {
    let data = vec![-1, -2];
    let result = sma(&data, 2);
    // (-1 + -2) / 2 rounds toward zero.
    assert_eq!(result[1], Some(-1));
}

#[test]
fn ema_seed_equals_sma_seed() {
    let data = vec![1, 2, 3, 4, 5];
    let s = sma(&data, 3);
    let e = ema(&data, 3);
    assert_eq!(e[2], s[2]);
    assert_eq!(e, vec![None, None, Some(2), Some(3), Some(4)]);
}

#[test]
fn rsi_constant_series_reads_100() {
    let data = vec![5, 5, 5, 5, 5];
    let result = rsi(&data, 2);
    assert_eq!(result, vec![None, None, Some(100), Some(100), Some(100)]);
}

#[test]
fn rsi_mixed_series_exact() {
    let data = vec![10, 20, 10, 20];
    let result = rsi(&data, 2);
    // seed at index 2: avg gain (10 + 0) / 2 = 5, avg loss (0 + 10) / 2 = 5.
    assert_eq!(result[2], Some(50));
    assert_eq!(result[0], None);
    assert_eq!(result[1], None);
}

#[test]
fn rsi_falling_series_reads_zero() {
    let data = vec![50, 40, 30, 20];
    let result = rsi(&data, 2);
    assert_eq!(result[2], Some(0));
    assert_eq!(result[3], Some(0));
}

#[test]
fn obv_accumulates_signed_volume() {
    let close = vec![2, 3, 2, 2];
    let volume = vec![5, 6, 7, 8];
    assert_eq!(obv(&close, &volume), vec![0, 6, -1, -1]);
}

#[test]
fn macd_line_and_poisoned_signal() {
    let data = vec![2, 4, 6];
    let line = macd(&data, 1, 2);
    // fast EMA is the series itself; slow EMA is [None, 3, 5].
    assert_eq!(line, vec![None, Some(1), Some(1)]);
    // The signal seed window holds an undefined value, so the whole
    // signal line, and with it the histogram, stays undefined.
    assert_eq!(macd_signal(&data, 1, 2, 1), vec![None, None, None]);
    assert_eq!(macd_histogram(&data, 1, 2, 1), vec![None, None, None]);
}

#[test]
fn macd_equal_periods_is_zero() {
    let data = vec![3, 1, 4, 1, 5];
    let line = macd(&data, 1, 1);
    assert_eq!(line, vec![Some(0); 5]);
    let sig = macd_signal(&data, 1, 1, 1);
    assert_eq!(sig, vec![Some(0); 5]);
}

#[test]
fn atr_takes_widest_range() {
    let high = vec![10, 12];
    let low = vec![8, 9];
    let close = vec![9, 11];
    let result = atr(&high, &low, &close, 1);
    assert_eq!(result, vec![Some(2), Some(3)]);
}

#[test]
fn bollinger_bands_exact() {
    let data = vec![1, 3];
    let (middle, upper, lower) = bollinger(&data, 2, 2000);
    assert_eq!(middle, vec![None, Some(2)]);
    // population variance of [1, 3] is 1, so one standard deviation is 1.
    assert_eq!(upper, vec![None, Some(4)]);
    assert_eq!(lower, vec![None, Some(0)]);
}

#[test]
fn stddev_exact() {
    let data = vec![1, 3, 5];
    let result = stddev(&data, 2);
    assert_eq!(result, vec![None, Some(1), Some(1)]);
}

#[test]
fn rolling_extremes() {
    let data = vec![1, 3, 2];
    assert_eq!(rolling_max(&data, 2), vec![None, Some(3), Some(3)]);
    assert_eq!(rolling_min(&data, 2), vec![None, Some(1), Some(2)]);
}

#[test]
fn vwap_weights_by_volume() {
    // typical prices 3 and 6, volumes 1 and 2.
    let high = vec![4, 7];
    let low = vec![2, 5];
    let close = vec![3, 6];
    let volume = vec![1, 2];
    assert_eq!(vwap(&high, &low, &close, &volume), vec![3, 5]);
}

#[test]
fn vwap_zero_volume_falls_back_to_typical_price() {
    let high = vec![4];
    let low = vec![2];
    let close = vec![3];
    let volume = vec![0];
    assert_eq!(vwap(&high, &low, &close, &volume), vec![3]);
}

#[test]
fn pct_change_in_basis_points() {
    let data = vec![100, 90];
    let result = pct_change(&data, 1);
    assert_eq!(result, vec![None, Some(-1000)]);
}

#[test]
fn pct_change_zero_base_undefined() {
    let data = vec![0, 10];
    assert_eq!(pct_change(&data, 1), vec![None, None]);
}

#[test]
fn volume_ratio_in_thousandths() {
    let volume = vec![2, 4];
    let result = volume_ratio(&volume, 1);
    assert_eq!(result, vec![Some(1000), Some(1000)]);
    let result2 = volume_ratio(&volume, 2);
    // average over [2, 4] is 3; 4 * 1000 / 3 truncates to 1333.
    assert_eq!(result2, vec![None, Some(1333)]);
}

#[test]
fn crossed_below_mirrors_crossed_above() {
    let a = vec![Some(4), Some(3), Some(2), Some(1)];
    let b = vec![Some(2), Some(2), Some(2), Some(2)];
    let result = crossed_below(&a, &b);
    // At index 2 the series only touches the level; it drops strictly
    // below it at index 3.
    assert_eq!(result, vec![false, false, false, true]);
}

#[test]
fn crossings_ignore_undefined_bars() {
    let a = vec![None, Some(3)];
    let b = vec![Some(2), Some(2)];
    assert_eq!(crossed_above(&a, &b), vec![false, false]);
    assert_eq!(crossed_below(&a, &b), vec![false, false]);
}

#[test]
fn higher_high_and_lower_low() {
    let data = vec![1, 2, 3];
    assert_eq!(higher_high(&data, 1), vec![false, true, true]);
    assert_eq!(lower_low(&data, 1), vec![false, false, false]);
    let falling = vec![3, 2, 1];
    assert_eq!(lower_low(&falling, 1), vec![false, true, true]);
}

#[test]
fn threshold_and_mask_combinators() {
    let series = vec![Some(5), None, Some(1)];
    assert_eq!(above(&series, 2), vec![true, false, false]);
    assert_eq!(below(&series, 2), vec![false, false, true]);
    let a = vec![true, true, false];
    let b = vec![true, false, false];
    assert_eq!(and(&a, &b), vec![true, false, false]);
    assert_eq!(or(&a, &b), vec![true, true, false]);
}
