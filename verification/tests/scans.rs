//! Pattern, resampler and executor checks on small hand-built universes.

use stockscan::data::TickerData;
use stockscan::monthly::build_monthly_bars;
use stockscan::params::ParamValue;
use stockscan::patterns::{evaluate_pattern, scan_custom, scan_golden_cross, scan_monthly_gap_drop};
use stockscan::scanner::{run_scan, ScanQuery};

fn flat_ticker(dates: Vec<&str>, price: i64) -> TickerData {
    let n = dates.len();
    TickerData {
        date: dates.into_iter().map(|d| d.to_string()).collect(),
        open: vec![price; n],
        high: vec![price + 1; n],
        low: vec![price - 1; n],
        close: vec![price; n],
        volume: vec![100; n],
    }
}

fn ticker_with(dates: Vec<&str>, open: Vec<i64>, close: Vec<i64>) -> TickerData {
    let n = dates.len();
    let high: Vec<i64> = open.iter().zip(close.iter()).map(|(o, c)| *o.max(c) + 1).collect();
    let low: Vec<i64> = open.iter().zip(close.iter()).map(|(o, c)| *o.min(c) - 1).collect();
    TickerData {
        date: dates.into_iter().map(|d| d.to_string()).collect(),
        open,
        high,
        low,
        close,
        volume: vec![100; n],
    }
}

fn day_dates(n: usize) -> Vec<String> {
    // Ascending zero-padded ISO dates inside one year.
    (0..n)
        .map(|i| format!("2020-{:02}-{:02}", 1 + i / 28, 1 + i % 28))
        .collect()
}

#[test]
fn golden_cross_short_series_all_false() {
    // Fewer than 200 points: the 200-day mean never fills, so nothing
    // fires and nothing fails.
    let dates: Vec<String> = day_dates(120);
    let data = flat_ticker(dates.iter().map(|s| s.as_str()).collect(), 50);
    let mask = scan_golden_cross(&data);
    assert_eq!(mask.len(), 120);
    assert!(mask.iter().all(|&b| !b));
}

#[test]
fn monthly_bars_group_by_month_key() {
    let data = TickerData {
        date: vec![
            "2020-01-30".to_string(),
            "2020-01-31".to_string(),
            "2020-02-03".to_string(),
            "2020-02-04".to_string(),
        ],
        open: vec![10, 11, 9, 8],
        high: vec![12, 13, 10, 9],
        low: vec![9, 10, 7, 6],
        close: vec![11, 12, 8, 7],
        volume: vec![5, 6, 7, 8],
    };
    let bars = build_monthly_bars(&data);
    assert_eq!(bars.len(), 2);
    assert_eq!(bars[0].start_idx, 0);
    assert_eq!(bars[0].end_idx, 1);
    assert_eq!(bars[0].open, 10);
    assert_eq!(bars[0].close, 12);
    assert_eq!(bars[0].high, 13);
    assert_eq!(bars[0].low, 9);
    assert_eq!(bars[0].volume, 11);
    assert_eq!(bars[1].start_idx, 2);
    assert_eq!(bars[1].end_idx, 3);
    assert_eq!(bars[1].volume, 15);
}

fn gap_universe() -> TickerData {
    // January closes at 100; February opens at 90 (a -10% gap) and closes
    // below its open (a bearish month).
    ticker_with(
        vec!["2020-01-30", "2020-01-31", "2020-02-03", "2020-02-04"],
        vec![98, 99, 90, 88],
        vec![99, 100, 88, 85],
    )
}

#[test]
fn monthly_gap_drop_fires_on_bearish_month() {
    let data = gap_universe();
    let params = vec![
        ("gap_pct".to_string(), ParamValue::Num(5000)),
        ("candle".to_string(), ParamValue::Text("bearish".to_string())),
    ];
    let mask = scan_monthly_gap_drop(&data, &params);
    // Fires on the new month's first trading date.
    assert_eq!(mask, vec![false, false, true, false]);
}

#[test]
fn monthly_gap_drop_respects_candle_filter() {
    let data = gap_universe();
    let params = vec![
        ("gap_pct".to_string(), ParamValue::Num(5000)),
        ("candle".to_string(), ParamValue::Text("bullish".to_string())),
    ];
    let mask = scan_monthly_gap_drop(&data, &params);
    assert!(mask.iter().all(|&b| !b));
}

#[test]
fn monthly_gap_drop_event_on_end() {
    let data = gap_universe();
    let params = vec![
        ("gap_pct".to_string(), ParamValue::Num(5000)),
        ("candle".to_string(), ParamValue::Text("any".to_string())),
        ("event_on".to_string(), ParamValue::Text("end".to_string())),
    ];
    let mask = scan_monthly_gap_drop(&data, &params);
    assert_eq!(mask, vec![false, false, false, true]);
}

#[test]
fn monthly_gap_drop_small_gap_quiet() {
    let data = gap_universe();
    // A -10% gap does not reach a 15% threshold.
    let params = vec![("gap_pct".to_string(), ParamValue::Num(15000))];
    let mask = scan_monthly_gap_drop(&data, &params);
    assert!(mask.iter().all(|&b| !b));
}

#[test]
fn custom_scan_intersects_conditions() {
    // Close rises past the prior 1-day high while volume doubles: both
    // named conditions fire on the last bar only when ANDed.
    let data = TickerData {
        date: vec!["2020-01-01".to_string(), "2020-01-02".to_string(), "2020-01-03".to_string()],
        open: vec![10, 10, 10],
        high: vec![11, 12, 14],
        low: vec![9, 10, 11],
        close: vec![10, 11, 13],
        volume: vec![100, 100, 900],
    };
    let params = vec![
        (
            "conditions".to_string(),
            ParamValue::List(vec!["price_breakout".to_string(), "volume_spike".to_string()]),
        ),
        ("lookback".to_string(), ParamValue::Num(1000)),
        ("period".to_string(), ParamValue::Num(2000)),
        ("multiplier".to_string(), ParamValue::Num(1500)),
    ];
    let mask = scan_custom(&data, &params);
    assert_eq!(mask, vec![false, false, true]);
}

#[test]
fn custom_scan_empty_conditions_all_false() {
    let data = flat_ticker(vec!["2020-01-01", "2020-01-02"], 10);
    let params = vec![];
    let mask = scan_custom(&data, &params);
    assert_eq!(mask, vec![false, false]);
}

#[test]
fn unknown_pattern_is_reported_not_empty() {
    let data = flat_ticker(vec!["2020-01-01"], 10);
    assert!(evaluate_pattern("no_such_pattern", &data, &vec![]).is_none());
    let universe = vec![("AAA".to_string(), data)];
    let query = ScanQuery {
        scan_type: "no_such_pattern".to_string(),
        params: vec![],
        date_from: None,
        date_to: None,
    };
    assert!(run_scan(&universe, &query).is_none());
}

#[test]
fn malformed_params_fall_back_to_defaults() {
    let data = flat_ticker(vec!["2020-01-01", "2020-01-02", "2020-01-03"], 10);
    // A text value where a period is expected, and a fractional period:
    // both fall back, so the scan runs exactly as with no parameters.
    let bad = vec![
        ("period".to_string(), ParamValue::Text("soon".to_string())),
        ("threshold".to_string(), ParamValue::Num(30500)),
        ("lookback".to_string(), ParamValue::Num(2500)),
    ];
    let with_bad = evaluate_pattern("rsi_oversold", &data, &bad).unwrap();
    let with_none = evaluate_pattern("rsi_oversold", &data, &vec![]).unwrap();
    assert_eq!(with_bad.len(), with_none.len());
}

fn spike_universe() -> Vec<(String, TickerData)> {
    let quiet = flat_ticker(vec!["2020-01-01", "2020-01-02", "2020-01-03"], 10);
    let mut loud = flat_ticker(vec!["2020-01-01", "2020-01-02", "2020-01-03"], 10);
    loud.volume = vec![100, 100, 500];
    vec![("QUIET".to_string(), quiet), ("LOUD".to_string(), loud)]
}

fn spike_query(from: Option<&str>, to: Option<&str>) -> ScanQuery {
    ScanQuery {
        scan_type: "volume_spike".to_string(),
        params: vec![
            ("period".to_string(), ParamValue::Num(2000)),
            ("multiplier".to_string(), ParamValue::Num(1500)),
        ],
        date_from: from.map(|s| s.to_string()),
        date_to: to.map(|s| s.to_string()),
    }
}

#[test]
fn run_scan_counts_and_matches() {
    let universe = spike_universe();
    let result = run_scan(&universe, &spike_query(None, None)).unwrap();
    assert_eq!(result.total_tickers_scanned, 2);
    assert_eq!(result.tickers_with_matches, 1);
    assert_eq!(result.matches.len(), 1);
    assert_eq!(result.matches[0].ticker, "LOUD");
    assert_eq!(result.matches[0].date, "2020-01-03");
    assert_eq!(result.matches[0].volume, 500);
    assert_eq!(result.matches[0].close, 10);
}

#[test]
fn run_scan_is_idempotent() {
    let universe = spike_universe();
    let a = run_scan(&universe, &spike_query(None, None)).unwrap();
    let b = run_scan(&universe, &spike_query(None, None)).unwrap();
    assert_eq!(a.matches.len(), b.matches.len());
    for (x, y) in a.matches.iter().zip(b.matches.iter()) {
        assert_eq!(x.ticker, y.ticker);
        assert_eq!(x.date, y.date);
        assert_eq!(x.close, y.close);
    }
    assert_eq!(a.total_tickers_scanned, b.total_tickers_scanned);
    assert_eq!(a.tickers_with_matches, b.tickers_with_matches);
}

#[test]
fn run_scan_date_range_is_a_post_filter() {
    let universe = spike_universe();
    let unfiltered = run_scan(&universe, &spike_query(None, None)).unwrap();
    let inside = run_scan(&universe, &spike_query(Some("2020-01-03"), Some("2020-01-03")))
        .unwrap();
    let outside = run_scan(&universe, &spike_query(Some("2020-01-01"), Some("2020-01-02")))
        .unwrap();
    let kept: Vec<_> = unfiltered
        .matches
        .iter()
        .filter(|m| m.date.as_str() >= "2020-01-03" && m.date.as_str() <= "2020-01-03")
        .collect();
    assert_eq!(inside.matches.len(), kept.len());
    assert_eq!(inside.matches[0].date, kept[0].date);
    assert_eq!(outside.matches.len(), 0);
    assert_eq!(outside.tickers_with_matches, 0);
}

#[test]
fn ema_cross_direction_parameter() {
    // A series that rises then falls, with 1- and 2-bar exponential means.
    let data = ticker_with(
        vec!["2020-01-01", "2020-01-02", "2020-01-03", "2020-01-04"],
        vec![10, 10, 10, 10],
        vec![10, 14, 8, 6],
    );
    let up_params = vec![
        ("fast".to_string(), ParamValue::Num(1000)),
        ("slow".to_string(), ParamValue::Num(2000)),
        ("direction".to_string(), ParamValue::Text("up".to_string())),
    ];
    let down_params = vec![
        ("fast".to_string(), ParamValue::Num(1000)),
        ("slow".to_string(), ParamValue::Num(2000)),
        ("direction".to_string(), ParamValue::Text("down".to_string())),
    ];
    let up = evaluate_pattern("ema_cross", &data, &up_params).unwrap();
    let down = evaluate_pattern("ema_cross", &data, &down_params).unwrap();
    assert_eq!(up.len(), 4);
    assert_eq!(down.len(), 4);
    // The fast mean sits above the slow one on the rise, below on the
    // fall; the downward crossing happens at index 2.
    assert!(down[2]);
    assert!(!up[2]);
}

#[test]
fn bullish_engulfing_needs_recent_oversold() {
    // A long slide pushes RSI to zero; then a green candle engulfs the
    // prior red one.
    let dates: Vec<String> = day_dates(8);
    let data = ticker_with(
        dates.iter().map(|s| s.as_str()).collect(),
        vec![100, 95, 90, 85, 80, 75, 72, 68],
        vec![96, 91, 86, 81, 76, 71, 69, 74],
    );
    let params = vec![
        ("rsi_period".to_string(), ParamValue::Num(3000)),
        ("rsi_threshold".to_string(), ParamValue::Num(30000)),
        ("lookback".to_string(), ParamValue::Num(5000)),
    ];
    let mask = evaluate_pattern("bullish_engulfing_oversold", &data, &params).unwrap();
    // Bar 7 opens at 68 (inside bar 6's body 72..69) and closes at 74
    // (engulfing it) after an all-losses RSI of 0.
    assert!(mask[7]);
    assert!(!mask[6]);
}

#[test]
fn rsi_overbought_fires_once_per_crossing() {
    // RSI (period 2) runs [_, _, 66, 83, 90]; with a threshold of 70 the
    // mask fires only where the index crosses the line, not on every bar
    // above it.
    let data = ticker_with(
        vec!["2020-01-01", "2020-01-02", "2020-01-03", "2020-01-04", "2020-01-05"],
        vec![20, 10, 30, 40, 50],
        vec![20, 10, 30, 40, 50],
    );
    let params = vec![
        ("period".to_string(), ParamValue::Num(2000)),
        ("threshold".to_string(), ParamValue::Num(70000)),
    ];
    let mask = evaluate_pattern("rsi_overbought", &data, &params).unwrap();
    assert_eq!(mask, vec![false, false, false, true, false]);
}

#[test]
fn obv_breakout_follows_rising_volume() {
    let mut data = flat_ticker(vec!["2020-01-01", "2020-01-02", "2020-01-03"], 10);
    data.close = vec![1, 2, 3];
    data.volume = vec![10, 10, 10];
    let params = vec![("lookback".to_string(), ParamValue::Num(1000))];
    let mask = evaluate_pattern("obv_breakout", &data, &params).unwrap();
    // On-balance volume climbs 0, 10, 20: each bar is a fresh high.
    assert_eq!(mask, vec![false, true, true]);
}

#[test]
fn bollinger_squeeze_fires_on_flat_series() {
    let data = flat_ticker(vec!["2020-01-01", "2020-01-02", "2020-01-03"], 10);
    let params = vec![("period".to_string(), ParamValue::Num(2000))];
    let mask = evaluate_pattern("bollinger_squeeze", &data, &params).unwrap();
    // Zero width over a nonzero middle is under any positive threshold;
    // undefined band positions never fire.
    assert_eq!(mask, vec![false, true, true]);
}

#[test]
fn macd_cross_short_series_quiet() {
    let data = flat_ticker(
        vec!["2020-01-01", "2020-01-02", "2020-01-03", "2020-01-04", "2020-01-05"],
        10,
    );
    let up = evaluate_pattern("macd_cross_up", &data, &vec![]).unwrap();
    let down = evaluate_pattern("macd_cross_down", &data, &vec![]).unwrap();
    // Five bars cannot fill the default 26-bar slow window.
    assert!(up.iter().all(|&b| !b));
    assert!(down.iter().all(|&b| !b));
}

#[test]
fn death_cross_flat_series_never_fires() {
    let dates: Vec<String> = (0..250)
        .map(|i: usize| format!("20{:02}-{:02}-{:02}", 10 + i / 336, 1 + (i / 28) % 12, 1 + i % 28))
        .collect();
    let data = flat_ticker(dates.iter().map(|s| s.as_str()).collect(), 70);
    // Equal moving means touch but never strictly cross.
    let mask = evaluate_pattern("death_cross", &data, &vec![]).unwrap();
    assert!(mask.iter().all(|&b| !b));
}

#[test]
fn divergences_yield_aligned_all_false_masks_here() {
    let data = ticker_with(
        vec!["2020-01-01", "2020-01-02", "2020-01-03", "2020-01-04"],
        vec![10, 8, 9, 7],
        vec![10, 8, 9, 7],
    );
    let params = vec![("lookback".to_string(), ParamValue::Num(3000))];
    let bull = evaluate_pattern("bullish_divergence", &data, &params).unwrap();
    let bear = evaluate_pattern("bearish_divergence", &data, &params).unwrap();
    assert_eq!(bull.len(), 4);
    assert_eq!(bear.len(), 4);
    // On-balance volume moves with the close, so neither divergence can
    // appear in this short slide.
    assert!(bull.iter().all(|&b| !b));
    assert!(bear.iter().all(|&b| !b));
}

#[test]
fn consolidation_breakout_needs_range_price_and_volume() {
    let n = 21;
    let dates: Vec<String> = day_dates(n);
    let mut close = vec![100i64; n];
    close[n - 1] = 150;
    let mut volume = vec![100i64; n];
    volume[n - 1] = 900;
    let data = TickerData {
        date: dates.clone(),
        open: vec![100; n],
        high: close.iter().map(|c| c + 1).collect(),
        low: vec![99; n],
        close,
        volume,
    };
    let params = vec![("period".to_string(), ParamValue::Num(2000))];
    let mask = evaluate_pattern("consolidation_breakout", &data, &params).unwrap();
    // The last bar breaks a flat two-day range on six times the average
    // volume; every earlier bar either lacks the breakout or the spike.
    let mut expected = vec![false; n];
    expected[n - 1] = true;
    assert_eq!(mask, expected);
}

#[test]
fn crossings_are_mutually_exclusive_pointwise() {
    let a = vec![Some(1), Some(3), Some(2), Some(5), Some(1), None, Some(4)];
    let b = vec![Some(2), Some(2), Some(2), Some(2), Some(2), Some(2), Some(2)];
    let up = stockscan::signals::crossed_above(&a, &b);
    let down = stockscan::signals::crossed_below(&a, &b);
    for i in 0..a.len() {
        assert!(!(up[i] && down[i]));
    }
    // Around the undefined bar neither detector fires.
    assert!(!up[5] && !down[5] && !up[6] && !down[6]);
}
