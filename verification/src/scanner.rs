//! The scan executor: apply one named pattern to every ticker of a
//! universe, keep the mask hits that fall inside the requested date range,
//! and aggregate the matches with summary counts. Evaluation order cannot
//! influence the result: every per-ticker outcome is a pure function of
//! that ticker's series, the pattern and the parameters.

use vstd::prelude::*;

verus! {

use crate::data::TickerData;
use crate::params::ParamValue;
use crate::patterns::{evaluate_pattern, pattern_mask, Params};
use crate::text::{lex_le, str_le};

/// One mask hit that passed the date filter: the ticker, the date, and the
/// bar's values.
pub struct ScanMatch {
    pub ticker: String,
    pub date: String,
    pub close: i64,
    pub volume: i64,
    pub open: i64,
    pub high: i64,
    pub low: i64,
}

/// The mathematical content of one match record.
pub ghost struct MatchView {
    pub ticker: Seq<char>,
    pub date: Seq<char>,
    pub close: i64,
    pub volume: i64,
    pub open: i64,
    pub high: i64,
    pub low: i64,
}

impl View for ScanMatch {
    type V = MatchView;

    open spec fn view(&self) -> MatchView {
        MatchView {
            ticker: self.ticker@,
            date: self.date@,
            close: self.close,
            volume: self.volume,
            open: self.open,
            high: self.high,
            low: self.low,
        }
    }
}

/// One scan request: the pattern name, its parameters, and an optional
/// inclusive date range.
pub struct ScanQuery {
    pub scan_type: String,
    pub params: Params,
    pub date_from: Option<String>,
    pub date_to: Option<String>,
}

/// The outcome of one scan: all matches, how many tickers were scanned,
/// how many contributed at least one match, and the wall-clock time spent.
pub struct ScanResult {
    pub matches: Vec<ScanMatch>,
    pub total_tickers_scanned: usize,
    pub tickers_with_matches: usize,
    pub scan_time_ms: u64,
}

/// The date lies inside the inclusive range; a missing bound does not
/// constrain.
pub open spec fn in_range(date: Seq<char>, from: Option<Seq<char>>, to: Option<Seq<char>>)
    -> bool {
    &&& match from {
        Some(f) => lex_le(f, date),
        None => true,
    }
    &&& match to {
        Some(t) => lex_le(date, t),
        None => true,
    }
}

pub open spec fn from_view(q: ScanQuery) -> Option<Seq<char>> {
    match q.date_from {
        Some(s) => Some(s@),
        None => None,
    }
}

pub open spec fn to_view(q: ScanQuery) -> Option<Seq<char>> {
    match q.date_to {
        Some(s) => Some(s@),
        None => None,
    }
}

/// The record emitted when the mask fires at index `i` of this ticker.
pub open spec fn row(t: Seq<char>, td: TickerData, i: int) -> MatchView {
    MatchView {
        ticker: t,
        date: td.date@[i]@,
        close: td.close@[i],
        volume: td.volume@[i],
        open: td.open@[i],
        high: td.high@[i],
        low: td.low@[i],
    }
}

/// The records of one ticker for the first `n` mask positions, in date
/// order.
pub open spec fn rows_upto(
    t: Seq<char>,
    td: TickerData,
    mask: Seq<bool>,
    from: Option<Seq<char>>,
    to: Option<Seq<char>>,
    n: int,
) -> Seq<MatchView>
    decreases n,
{
    if n <= 0 {
        Seq::empty()
    } else {
        rows_upto(t, td, mask, from, to, n - 1) + (if mask[n - 1] && in_range(
            td.date@[n - 1]@,
            from,
            to,
        ) {
            seq![row(t, td, n - 1)]
        } else {
            Seq::empty()
        })
    }
}

/// All records of one ticker under its pattern mask and the date range.
pub open spec fn ticker_rows(
    t: Seq<char>,
    td: TickerData,
    mask: Seq<bool>,
    from: Option<Seq<char>>,
    to: Option<Seq<char>>,
) -> Seq<MatchView> {
    rows_upto(t, td, mask, from, to, mask.len() as int)
}

/// The records one universe entry contributes to the scan.
pub open spec fn entry_rows(entry: (String, TickerData), q: ScanQuery) -> Seq<MatchView> {
    match pattern_mask(entry.1, q.params@, q.scan_type@) {
        Some(mask) => ticker_rows(entry.0@, entry.1, mask, from_view(q), to_view(q)),
        None => Seq::empty(),
    }
}

/// The concatenated records of the first `n` universe entries.
pub open spec fn scan_rows_upto(entries: Seq<(String, TickerData)>, q: ScanQuery, n: int)
    -> Seq<MatchView>
    decreases n,
{
    if n <= 0 {
        Seq::empty()
    } else {
        scan_rows_upto(entries, q, n - 1) + entry_rows(entries[n - 1], q)
    }
}

/// Every record of the scan, grouped by universe order.
pub open spec fn scan_rows(entries: Seq<(String, TickerData)>, q: ScanQuery) -> Seq<MatchView> {
    scan_rows_upto(entries, q, entries.len() as int)
}

/// How many of the first `n` entries contribute at least one record.
pub open spec fn hits_upto(entries: Seq<(String, TickerData)>, q: ScanQuery, n: int) -> int
    decreases n,
{
    if n <= 0 {
        0
    } else {
        hits_upto(entries, q, n - 1) + (if entry_rows(entries[n - 1], q).len() > 0 {
            1int
        } else {
            0int
        })
    }
}

pub open spec fn tickers_hit(entries: Seq<(String, TickerData)>, q: ScanQuery) -> int {
    hits_upto(entries, q, entries.len() as int)
}

/// The catalog knows this pattern name.
pub open spec fn known_name(name: Seq<char>) -> bool {
    ||| name == "golden_cross"@
    ||| name == "death_cross"@
    ||| name == "ema_cross"@
    ||| name == "rsi_oversold"@
    ||| name == "rsi_overbought"@
    ||| name == "obv_breakout"@
    ||| name == "volume_spike"@
    ||| name == "bollinger_squeeze"@
    ||| name == "macd_cross_up"@
    ||| name == "macd_cross_down"@
    ||| name == "price_breakout"@
    ||| name == "bullish_divergence"@
    ||| name == "bearish_divergence"@
    ||| name == "consolidation_breakout"@
    ||| name == "bullish_engulfing_oversold"@
    ||| name == "monthly_gap_drop"@
    ||| name == "custom"@
}

/// The catalog answers a name exactly when it is one of the built-in
/// seventeen.
pub proof fn lemma_pattern_known(td: TickerData, ps: Seq<(String, ParamValue)>, name: Seq<
    char,
>)
    ensures
        (pattern_mask(td, ps, name) is Some) == known_name(name),
{
}

/// The result of a completed scan is pinned to its inputs: the matches,
/// in universe order, and both counts. The wall-clock field alone is
/// free.
pub open spec fn scan_result_ok(
    entries: Seq<(String, TickerData)>,
    q: ScanQuery,
    res: ScanResult,
) -> bool {
    &&& res.matches@.len() == scan_rows(entries, q).len()
    &&& forall|i: int| 0 <= i < res.matches@.len() ==> (#[trigger] res.matches@[i])@
        == scan_rows(entries, q)[i]
    &&& res.total_tickers_scanned == entries.len()
    &&& res.tickers_with_matches == tickers_hit(entries, q)
}

/// The catalog knows this pattern name.
pub fn is_known_pattern(name: &str) -> (r: bool)
    ensures
        r == known_name(name@),
{
    crate::text::eq_str(name, "golden_cross") || crate::text::eq_str(name, "death_cross")
        || crate::text::eq_str(name, "ema_cross") || crate::text::eq_str(name, "rsi_oversold")
        || crate::text::eq_str(name, "rsi_overbought") || crate::text::eq_str(name,
        "obv_breakout") || crate::text::eq_str(name, "volume_spike") || crate::text::eq_str(
        name, "bollinger_squeeze") || crate::text::eq_str(name, "macd_cross_up")
        || crate::text::eq_str(name, "macd_cross_down") || crate::text::eq_str(name,
        "price_breakout") || crate::text::eq_str(name, "bullish_divergence")
        || crate::text::eq_str(name, "bearish_divergence") || crate::text::eq_str(name,
        "consolidation_breakout") || crate::text::eq_str(name, "bullish_engulfing_oversold")
        || crate::text::eq_str(name, "monthly_gap_drop") || crate::text::eq_str(name, "custom")
}

/// The date passes the query's inclusive range.
fn date_in_range(date: &str, from: &Option<String>, to: &Option<String>) -> (r: bool)
    ensures
        r == in_range(
            date@,
            match from {
                Some(f) => Some(f@),
                None => None,
            },
            match to {
                Some(t) => Some(t@),
                None => None,
            },
        ),
{
    let from_ok = match from {
        Some(f) => str_le(f.as_str(), date),
        None => true,
    };
    let to_ok = match to {
        Some(t) => str_le(date, t.as_str()),
        None => true,
    };
    from_ok && to_ok
}

/// Evaluate the pattern on one ticker and keep the mask hits inside the
/// date range; `None` when nothing qualified or the pattern is unknown,
/// so the caller can skip the ticker entirely.
pub fn scan_single_ticker(ticker: &str, data: &TickerData, query: &ScanQuery) -> (r: Option<
    Vec<ScanMatch>,
>)
    requires
        data.wf(),
    ensures
        ({
            let rows = match pattern_mask(*data, query.params@, query.scan_type@) {
                Some(mask) => ticker_rows(ticker@, *data, mask, from_view(*query), to_view(
                    *query,
                )),
                None => Seq::<MatchView>::empty(),
            };
            match r {
                Some(v) => rows.len() > 0 && v@.len() == rows.len() && forall|i: int|
                    0 <= i < v@.len() ==> (#[trigger] v@[i])@ == rows[i],
                None => rows.len() == 0,
            }
        }),
{
    let mask = match evaluate_pattern(query.scan_type.as_str(), data, &query.params) {
        Some(m) => m,
        None => {
            return None;
        },
    };
    let ghost mask_s = mask@;
    let n = mask.len();
    let ghost rows = ticker_rows(ticker@, *data, mask_s, from_view(*query), to_view(*query));
    let mut out: Vec<ScanMatch> = Vec::new();
    let mut i: usize = 0;
    while i < n
        invariant
            i <= n,
            n == mask_s.len(),
            mask@ == mask_s,
            n == data.close@.len(),
            data.wf(),
            out@.len() == rows_upto(ticker@, *data, mask_s, from_view(*query), to_view(
                *query,
            ), i as int).len(),
            forall|k: int| 0 <= k < out@.len() ==> (#[trigger] out@[k])@ == rows_upto(
                ticker@, *data, mask_s, from_view(*query), to_view(*query), i as int)[k],
        decreases n - i,
    {
        if mask[i] {
            if date_in_range(data.date[i].as_str(), &query.date_from, &query.date_to) {
                out.push(ScanMatch {
                    ticker: String::from_str(ticker),
                    date: data.date[i].clone(),
                    close: data.close[i],
                    volume: data.volume[i],
                    open: data.open[i],
                    high: data.high[i],
                    low: data.low[i],
                });
            }
        }
        i = i + 1;
    }
    if out.len() == 0 {
        None
    } else {
        Some(out)
    }
}

/// Run a scan across the whole universe: evaluate the pattern per ticker,
/// filter by date, and aggregate. `None` reports an unknown pattern name,
/// as distinct from a scan that matched nothing. Tickers are evaluated in
/// universe order; since every per-ticker result is a pure function of
/// its inputs, no other order could produce a different match set.
pub fn run_scan(universe: &Vec<(String, TickerData)>, query: &ScanQuery) -> (r: Option<
    ScanResult,
>)
    requires
        forall|j: int| 0 <= j < universe@.len() ==> (#[trigger] universe@[j]).1.wf(),
    ensures
        match r {
            Some(res) => known_name(query.scan_type@) && scan_result_ok(universe@, *query,
                res),
            None => !known_name(query.scan_type@),
        },
{
    let start = crate::clock::clock_now();
    if !is_known_pattern(query.scan_type.as_str()) {
        return None;
    }
    let total = universe.len();
    let mut matches: Vec<ScanMatch> = Vec::new();
    let mut hit: usize = 0;
    let mut t: usize = 0;
    while t < total
        invariant
            t <= total,
            total == universe@.len(),
            forall|j: int| 0 <= j < universe@.len() ==> (#[trigger] universe@[j]).1.wf(),
            matches@.len() == scan_rows_upto(universe@, *query, t as int).len(),
            forall|k: int| 0 <= k < matches@.len() ==> (#[trigger] matches@[k])@
                == scan_rows_upto(universe@, *query, t as int)[k],
            hit == hits_upto(universe@, *query, t as int),
            hit <= t,
        decreases total - t,
    {
        let entry = &universe[t];
        let ghost erows = entry_rows(universe@[t as int], *query);
        proof {
            lemma_pattern_known(universe@[t as int].1, query.params@, query.scan_type@);
        }
        match scan_single_ticker(entry.0.as_str(), &entry.1, query) {
            Some(mut rows) => {
                proof {
                    assert(erows.len() > 0);
                }
                hit = hit + 1;
                matches.append(&mut rows);
            },
            None => {
                proof {
                    assert(erows.len() == 0);
                }
            },
        }
        t = t + 1;
    }
    let elapsed = crate::clock::elapsed_ms(&start);
    Some(ScanResult {
        matches,
        total_tickers_scanned: total,
        tickers_with_matches: hit,
        scan_time_ms: elapsed,
    })
}

} // verus!
