//! The OHLCV series of one ticker: five fixed-point value sequences and a
//! date sequence of identical length. The ingestion side owns validation;
//! the scanner assumes `wf` and never re-checks it.

use vstd::prelude::*;

verus! {

use crate::num::{bounded, LEN_LIMIT, VAL_LIMIT};
use crate::text::lex_le;

/// One ticker's daily history. Dates are zero-padded ISO strings
/// (`YYYY-MM-DD`), values fixed-point integers at the caller's tick size.
pub struct TickerData {
    pub date: Vec<String>,
    pub open: Vec<i64>,
    pub high: Vec<i64>,
    pub low: Vec<i64>,
    pub close: Vec<i64>,
    pub volume: Vec<i64>,
}

impl TickerData {
    /// The date strings as character sequences.
    pub open spec fn dates(&self) -> Seq<Seq<char>> {
        Seq::new(self.date@.len(), |i: int| self.date@[i]@)
    }

    /// The series invariant the ingestion collaborator establishes: the
    /// six sequences share one length, the length and the values respect
    /// the machine limits, volumes are nonnegative, and dates do not
    /// decrease.
    pub open spec fn wf(&self) -> bool {
        &&& self.date@.len() == self.close@.len()
        &&& self.open@.len() == self.close@.len()
        &&& self.high@.len() == self.close@.len()
        &&& self.low@.len() == self.close@.len()
        &&& self.volume@.len() == self.close@.len()
        &&& self.close@.len() <= LEN_LIMIT
        &&& bounded(self.open@, VAL_LIMIT as int)
        &&& bounded(self.high@, VAL_LIMIT as int)
        &&& bounded(self.low@, VAL_LIMIT as int)
        &&& bounded(self.close@, VAL_LIMIT as int)
        &&& forall|j: int| 0 <= j < self.volume@.len() ==> 0 <= #[trigger] self.volume@[j]
            <= VAL_LIMIT
        &&& forall|j: int| 0 <= j + 1 < self.date@.len() ==> lex_le(
            #[trigger] self.date@[j]@,
            self.date@[j + 1]@,
        )
    }

    /// Number of bars in the series.
    pub fn len(&self) -> (n: usize)
        ensures
            n == self.close@.len(),
    {
        self.close.len()
    }

    /// The series holds no bars.
    pub fn is_empty(&self) -> (b: bool)
        ensures
            b == (self.close@.len() == 0),
    {
        self.close.len() == 0
    }
}

} // verus!
