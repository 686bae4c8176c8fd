//! The crate-level laws: properties that tie several functions together,
//! stated over the same spec functions the functions' own contracts use.

use vstd::prelude::*;

verus! {

use crate::data::TickerData;
use crate::indicators::{
    avg_loss, ema_at, ema_seq, loss_at, loss_sum, rsi_seq, sma_at, sma_seq,
};
use crate::num::{bounded, range_sum, tdiv, ELEM_LIMIT};
use crate::scanner::{
    entry_rows, from_view, in_range, rows_upto, scan_rows, scan_rows_upto, scan_result_ok,
    to_view, MatchView, ScanQuery, ScanResult,
};
use crate::signals::{crossed_above_at, crossed_below_at};

/// The simple moving average is the truncated mean of its window: defined
/// at every index with a full window behind it, undefined before.
pub proof fn lemma_sma_window_mean(s: Seq<i64>, p: int, i: int)
    requires
        1 <= p <= s.len(),
        0 <= i < s.len(),
    ensures
        i >= p - 1 ==> sma_seq(s, p)[i] == Some(tdiv(range_sum(s, i + 1 - p, i + 1), p)),
        i < p - 1 ==> sma_seq(s, p)[i] is None,
{
}

/// The exponential and the simple moving average agree exactly at the
/// seed index `p - 1`.
pub proof fn lemma_ema_sma_agree_at_seed(s: Seq<i64>, p: int)
    requires
        1 <= p <= s.len(),
    ensures
        ema_seq(s, p)[p - 1] == sma_seq(s, p)[p - 1],
{
    assert(ema_at(s, p, p - 1) == tdiv(range_sum(s, 0, p), p));
    assert(sma_at(s, p, p - 1) == tdiv(range_sum(s, (p - 1) + 1 - p, (p - 1) + 1), p));
    assert(range_sum(s, (p - 1) + 1 - p, (p - 1) + 1) == range_sum(s, 0, p));
}

/// Wherever the relative strength index is defined it lies in `[0, 100]`.
pub proof fn lemma_rsi_in_range(s: Seq<i64>, p: int, i: int)
    requires
        1 <= p,
        p + 1 <= s.len(),
        s.len() <= crate::num::LEN_LIMIT,
        bounded(s, ELEM_LIMIT as int),
        0 <= i < s.len(),
    ensures
        rsi_seq(s, p)[i] matches Some(v) ==> 0 <= v <= 100,
{
    if i >= p {
        crate::indicators::lemma_rsi_at_range(s, p, i, ELEM_LIMIT as int);
    }
}

/// The smoothed average loss of a constant series stays exactly zero.
proof fn lemma_avg_loss_zero(s: Seq<i64>, p: int, i: int)
    requires
        1 <= p,
        p + 1 <= s.len(),
        p <= i < s.len(),
        forall|j: int| 1 <= j < s.len() ==> #[trigger] s[j] == s[j - 1],
    ensures
        avg_loss(s, p, i) == 0,
    decreases i,
{
    if i <= p {
        lemma_loss_sum_zero(s, 1, p + 1);
        vstd::arithmetic::div_mod::lemma_div_pos_is_pos(0, p);
        vstd::arithmetic::div_mod::lemma_div_nonincreasing(0, p);
    } else {
        lemma_avg_loss_zero(s, p, i - 1);
        assert(loss_at(s, i) == 0);
        vstd::arithmetic::div_mod::lemma_div_pos_is_pos(0, p);
        vstd::arithmetic::div_mod::lemma_div_nonincreasing(0, p);
    }
}

/// No bar of a constant series loses ground.
proof fn lemma_loss_sum_zero(s: Seq<i64>, lo: int, hi: int)
    requires
        1 <= lo,
        hi <= s.len(),
        forall|j: int| 1 <= j < s.len() ==> #[trigger] s[j] == s[j - 1],
    ensures
        loss_sum(s, lo, hi) == 0,
    decreases hi - lo,
{
    if lo < hi {
        lemma_loss_sum_zero(s, lo + 1, hi);
        assert(loss_at(s, lo) == 0);
    }
}

/// A constant series has no losses, so its index reads 100 wherever it is
/// defined.
pub proof fn lemma_rsi_constant_is_100(s: Seq<i64>, p: int, i: int)
    requires
        1 <= p,
        p + 1 <= s.len(),
        p <= i < s.len(),
        forall|j: int| 1 <= j < s.len() ==> #[trigger] s[j] == s[j - 1],
    ensures
        rsi_seq(s, p)[i] == Some(100int),
{
    lemma_avg_loss_zero(s, p, i);
}

/// The two crossing detectors cannot both fire at one index, and neither
/// fires where either series is undefined at the index or the one before.
pub proof fn lemma_crossings_exclusive(a: Seq<Option<int>>, b: Seq<Option<int>>, i: int)
    ensures
        !(crossed_above_at(a, b, i) && crossed_below_at(a, b, i)),
        a[i] is None || b[i] is None || a[i - 1] is None || b[i - 1] is None ==> !crossed_above_at(
            a,
            b,
            i,
        ) && !crossed_below_at(a, b, i),
{
}

/// Repeating a scan over an unmodified universe with identical inputs
/// yields the identical match list and aggregate counts; only the
/// wall-clock field may differ.
pub proof fn lemma_run_scan_deterministic(
    entries: Seq<(String, TickerData)>,
    q: ScanQuery,
    r1: ScanResult,
    r2: ScanResult,
)
    requires
        scan_result_ok(entries, q, r1),
        scan_result_ok(entries, q, r2),
    ensures
        r1.matches@.len() == r2.matches@.len(),
        forall|i: int| 0 <= i < r1.matches@.len() ==> (#[trigger] r1.matches@[i])@
            == r2.matches@[i]@,
        r1.total_tickers_scanned == r2.total_tickers_scanned,
        r1.tickers_with_matches == r2.tickers_with_matches,
{
}

/// The records of `rows` whose date lies inside the range, in order.
pub open spec fn date_filter(
    rows: Seq<MatchView>,
    from: Option<Seq<char>>,
    to: Option<Seq<char>>,
) -> Seq<MatchView>
    decreases rows.len(),
{
    if rows.len() == 0 {
        Seq::empty()
    } else {
        date_filter(rows.drop_last(), from, to) + (if in_range(rows.last().date, from, to) {
            seq![rows.last()]
        } else {
            Seq::empty()
        })
    }
}

/// The same query with the date range removed.
pub open spec fn strip_range(q: ScanQuery) -> ScanQuery {
    ScanQuery { scan_type: q.scan_type, params: q.params, date_from: None, date_to: None }
}

proof fn lemma_date_filter_concat(
    a: Seq<MatchView>,
    b: Seq<MatchView>,
    from: Option<Seq<char>>,
    to: Option<Seq<char>>,
)
    ensures
        date_filter(a + b, from, to) == date_filter(a, from, to) + date_filter(b, from, to),
    decreases b.len(),
{
    if b.len() == 0 {
        assert(a + b =~= a);
        assert(date_filter(b, from, to) =~= Seq::empty());
        assert(date_filter(a, from, to) + date_filter(b, from, to) =~= date_filter(a, from,
        to));
    } else {
        lemma_date_filter_concat(a, b.drop_last(), from, to);
        assert((a + b).drop_last() =~= a + b.drop_last());
        assert((a + b).last() == b.last());
        assert(date_filter(a, from, to) + date_filter(b, from, to) =~= date_filter(a, from,
        to) + date_filter(b.drop_last(), from, to) + (if in_range(b.last().date, from, to) {
            seq![b.last()]
        } else {
            Seq::empty()
        }));
    }
}

proof fn lemma_rows_filter(
    t: Seq<char>,
    td: TickerData,
    mask: Seq<bool>,
    from: Option<Seq<char>>,
    to: Option<Seq<char>>,
    n: int,
)
    ensures
        rows_upto(t, td, mask, from, to, n) == date_filter(
            rows_upto(t, td, mask, None, None, n),
            from,
            to,
        ),
    decreases n,
{
    if n > 0 {
        lemma_rows_filter(t, td, mask, from, to, n - 1);
        let u = rows_upto(t, td, mask, None, None, n - 1);
        let addend = if mask[n - 1] {
            seq![crate::scanner::row(t, td, n - 1)]
        } else {
            Seq::<MatchView>::empty()
        };
        assert(rows_upto(t, td, mask, None, None, n) == u + addend);
        lemma_date_filter_concat(u, addend, from, to);
        if mask[n - 1] {
            assert(addend.drop_last() =~= Seq::<MatchView>::empty());
            assert(addend.last() == crate::scanner::row(t, td, n - 1));
            assert(date_filter(addend, from, to) == date_filter(addend.drop_last(), from, to)
                + (if in_range(addend.last().date, from, to) {
                seq![addend.last()]
            } else {
                Seq::empty()
            }));
        }
        assert(rows_upto(t, td, mask, from, to, n) =~= date_filter(
            rows_upto(t, td, mask, None, None, n),
            from,
            to,
        ));
    }
}

proof fn lemma_scan_rows_filter(entries: Seq<(String, TickerData)>, q: ScanQuery, n: int)
    ensures
        scan_rows_upto(entries, q, n) == date_filter(
            scan_rows_upto(entries, strip_range(q), n),
            from_view(q),
            to_view(q),
        ),
    decreases n,
{
    if n > 0 {
        lemma_scan_rows_filter(entries, q, n - 1);
        let e = entries[n - 1];
        let q0 = strip_range(q);
        match crate::patterns::pattern_mask(e.1, q.params@, q.scan_type@) {
            Some(mask) => {
                lemma_rows_filter(e.0@, e.1, mask, from_view(q), to_view(q), mask.len() as int);
                assert(entry_rows(e, q0) == rows_upto(e.0@, e.1, mask, None, None,
                mask.len() as int));
            },
            None => {
                assert(entry_rows(e, q) =~= Seq::<MatchView>::empty());
                assert(entry_rows(e, q0) =~= Seq::<MatchView>::empty());
            },
        }
        lemma_date_filter_concat(scan_rows_upto(entries, q0, n - 1), entry_rows(e, q0),
            from_view(q), to_view(q));
        assert(scan_rows_upto(entries, q, n) =~= date_filter(scan_rows_upto(entries, q0, n),
        from_view(q), to_view(q)));
    }
}

/// Date-range filtering is a pure post-filter: the matches of a scan with
/// a range are exactly the matches of the unbounded scan, kept where the
/// date falls inside the range.
pub proof fn lemma_scan_date_filter(entries: Seq<(String, TickerData)>, q: ScanQuery)
    ensures
        scan_rows(entries, q) == date_filter(
            scan_rows(entries, strip_range(q)),
            from_view(q),
            to_view(q),
        ),
{
    lemma_scan_rows_filter(entries, q, entries.len() as int);
}

} // verus!
