//! Monthly resampling: grouping the daily bars into calendar-month bars by
//! the seven-character year-month key of the date string. A change of key
//! closes the current bar and opens the next one.

use vstd::prelude::*;

verus! {

use crate::data::TickerData;
use crate::num::{lemma_mul_le, lemma_range_sum_bound, lemma_range_sum_extend, range_sum,
    LEN_LIMIT, VAL_LIMIT};
use crate::signals::{win_max, win_min};
use crate::text::{month_key, same_month};

/// One calendar month of trading: the span of day indices, the first
/// day's open, the last day's close, the extremes, and the summed volume.
#[derive(Clone, Copy)]
pub struct MonthlyBar {
    pub start_idx: usize,
    pub end_idx: usize,
    pub open: i64,
    pub close: i64,
    pub high: i64,
    pub low: i64,
    pub volume: i64,
}

/// The first index at or after `j` whose month key differs from the
/// previous day's; the length when the month runs to the end.
pub open spec fn month_end_excl(dates: Seq<Seq<char>>, j: int) -> int
    decreases dates.len() - j,
{
    if j <= 0 || j >= dates.len() {
        dates.len() as int
    } else if month_key(dates[j]) != month_key(dates[j - 1]) {
        j
    } else {
        month_end_excl(dates, j + 1)
    }
}

pub proof fn lemma_month_end_range(dates: Seq<Seq<char>>, j: int)
    requires
        1 <= j <= dates.len(),
    ensures
        j <= month_end_excl(dates, j) <= dates.len(),
    decreases dates.len() - j,
{
    if j < dates.len() && month_key(dates[j]) == month_key(dates[j - 1]) {
        lemma_month_end_range(dates, j + 1);
    }
}

/// A month that is known to run with one key up to a boundary (or the end
/// of the series) ends exactly there.
pub proof fn lemma_month_end_is(dates: Seq<Seq<char>>, j: int, e: int)
    requires
        1 <= j <= e <= dates.len(),
        forall|k: int| j <= k < e ==> month_key(#[trigger] dates[k]) == month_key(dates[k - 1]),
        e == dates.len() || month_key(dates[e]) != month_key(dates[e - 1]),
    ensures
        month_end_excl(dates, j) == e,
    decreases e - j,
{
    if j < e {
        assert(month_key(dates[j]) == month_key(dates[j - 1]));
        lemma_month_end_is(dates, j + 1, e);
    }
}

/// The day-index ranges of the monthly bars from day `s` on: one pair per
/// month, covering the series without gaps.
pub open spec fn bar_ranges_from(dates: Seq<Seq<char>>, s: int) -> Seq<(int, int)>
    decreases dates.len() - s,
    via bar_ranges_from_dec
{
    if s < 0 || s >= dates.len() {
        Seq::empty()
    } else {
        let e = month_end_excl(dates, s + 1);
        seq![(s, e - 1)] + bar_ranges_from(dates, e)
    }
}

#[via_fn]
proof fn bar_ranges_from_dec(dates: Seq<Seq<char>>, s: int) {
    if 0 <= s < dates.len() {
        lemma_month_end_range(dates, s + 1);
    }
}

/// The day-index ranges of all monthly bars of the series.
pub open spec fn bar_ranges(dates: Seq<Seq<char>>) -> Seq<(int, int)> {
    bar_ranges_from(dates, 0)
}

/// Every range lies inside the series, starts no earlier than `s`, and is
/// nonempty.
pub proof fn lemma_bar_ranges_from_wf(dates: Seq<Seq<char>>, s: int)
    requires
        0 <= s,
    ensures
        forall|k: int| 0 <= k < bar_ranges_from(dates, s).len() ==> s <= (
        #[trigger] bar_ranges_from(dates, s)[k]).0 <= bar_ranges_from(dates, s)[k].1
            < dates.len(),
    decreases dates.len() - s,
{
    if 0 <= s < dates.len() {
        let e = month_end_excl(dates, s + 1);
        lemma_month_end_range(dates, s + 1);
        lemma_bar_ranges_from_wf(dates, e);
        assert forall|k: int| 0 <= k < bar_ranges_from(dates, s).len() implies s <= (
        #[trigger] bar_ranges_from(dates, s)[k]).0 <= bar_ranges_from(dates, s)[k].1
            < dates.len() by {
            if k > 0 {
                assert(bar_ranges_from(dates, s)[k] == bar_ranges_from(dates, e)[k - 1]);
            }
        }
    }
}

/// The fields the monthly bar over days `[s, e]` must carry.
pub open spec fn bar_matches(td: TickerData, s: int, e: int, b: MonthlyBar) -> bool {
    &&& b.start_idx == s
    &&& b.end_idx == e
    &&& b.open == td.open@[s]
    &&& b.close == td.close@[e]
    &&& b.high == win_max(td.high@, s, e + 1)
    &&& b.low == win_min(td.low@, s, e + 1)
    &&& b.volume == range_sum(td.volume@, s, e + 1)
}

/// Group the daily series into monthly bars, one per maximal run of days
/// sharing a month key.
pub fn build_monthly_bars(data: &TickerData) -> (r: Vec<MonthlyBar>)
    requires
        data.wf(),
    ensures
        r@.len() == bar_ranges(data.dates()).len(),
        forall|k: int| 0 <= k < r@.len() ==> bar_matches(*data, (#[trigger] bar_ranges(
        data.dates())[k]).0, bar_ranges(data.dates())[k].1, r@[k]),
{
    let n = data.close.len();
    let mut bars: Vec<MonthlyBar> = Vec::new();
    if n == 0 {
        proof {
            assert(bar_ranges(data.dates()).len() == 0);
        }
        return bars;
    }
    let ghost dates = data.dates();
    proof {
        assert(range_sum(data.volume@, 1, 1) == 0);
        assert(range_sum(data.volume@, 0, 1) == data.volume@[0] + range_sum(data.volume@, 1,
        1));
        assert(bar_ranges_from(dates, 0).len() > 0);
    }
    let mut start: usize = 0;
    let mut high: i64 = data.high[0];
    let mut low: i64 = data.low[0];
    let mut volume: i64 = data.volume[0];
    let mut i: usize = 1;
    while i < n
        invariant
            1 <= i <= n,
            start < i,
            n == data.close@.len(),
            data.wf(),
            dates == data.dates(),
            high == win_max(data.high@, start as int, i as int),
            low == win_min(data.low@, start as int, i as int),
            volume == range_sum(data.volume@, start as int, i as int),
            forall|k: int| start < k < i ==> month_key(#[trigger] dates[k]) == month_key(
                dates[k - 1],
            ),
            bar_ranges_from(dates, start as int).len() + bars@.len() == bar_ranges(
                dates,
            ).len(),
            forall|k: int| 0 <= k < bars@.len() ==> bar_matches(*data, (#[trigger] bar_ranges(
            dates)[k]).0, bar_ranges(dates)[k].1, bars@[k]),
            forall|k: int| 0 <= k < bar_ranges_from(dates, start as int).len() ==> bar_ranges(
                dates,
            )[bars@.len() + k] == #[trigger] bar_ranges_from(dates, start as int)[k],
            bar_ranges_from(dates, start as int).len() > 0,
            bar_ranges_from(dates, start as int)[0].0 == start as int,
        decreases n - i,
    {
        let boundary = !same_month(data.date[i].as_str(), data.date[i - 1].as_str());
        if boundary {
            let ghost old_start = start as int;
            let ghost old_len = bars@.len() as int;
            proof {
                lemma_month_end_is(dates, start + 1, i as int);
                assert(bar_ranges_from(dates, old_start) == seq![(old_start, i - 1)]
                    + bar_ranges_from(dates, i as int));
            }
            bars.push(MonthlyBar {
                start_idx: start,
                end_idx: i - 1,
                open: data.open[start],
                close: data.close[i - 1],
                high,
                low,
                volume,
            });
            start = i;
            high = data.high[i];
            low = data.low[i];
            volume = data.volume[i];
            proof {
                assert(range_sum(data.volume@, i + 1, i + 1) == 0);
                assert(range_sum(data.volume@, i as int, i + 1) == data.volume@[i as int]
                    + range_sum(data.volume@, i + 1, i + 1));
                assert(bar_ranges_from(dates, i as int).len() > 0);
                assert forall|k: int| 0 <= k < bar_ranges_from(dates, start as int).len()
                    implies bar_ranges(dates)[bars@.len() + k] == #[trigger] bar_ranges_from(
                    dates, start as int)[k] by {
                    assert(bar_ranges(dates)[old_len + (k + 1)] == bar_ranges_from(dates,
                    old_start)[k + 1]);
                }
            }
        } else {
            proof {
                lemma_range_sum_bound(data.volume@, start as int, i as int, VAL_LIMIT as int);
                lemma_mul_le(i - start, LEN_LIMIT as int, VAL_LIMIT as int);
                lemma_range_sum_extend(data.volume@, start as int, i as int);
            }
            if data.high[i] > high {
                high = data.high[i];
            }
            if data.low[i] < low {
                low = data.low[i];
            }
            volume = volume + data.volume[i];
        }
        i = i + 1;
    }
    proof {
        lemma_month_end_is(dates, start + 1, n as int);
        assert(bar_ranges_from(dates, n as int) == Seq::<(int, int)>::empty());
        assert(bar_ranges_from(dates, start as int) == seq![(start as int, n - 1)]
            + bar_ranges_from(dates, n as int));
        assert(bar_ranges_from(dates, start as int).len() == 1);
        assert(bar_ranges_from(dates, start as int)[0] == (start as int, n - 1 as int));
        assert(bar_ranges(dates)[bars@.len() as int] == (start as int, n - 1 as int));
    }
    bars.push(MonthlyBar {
        start_idx: start,
        end_idx: n - 1,
        open: data.open[start],
        close: data.close[n - 1],
        high,
        low,
        volume,
    });
    bars
}

} // verus!
