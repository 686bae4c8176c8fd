//! Boolean signal detection over value series: threshold tests, crossings,
//! new extremes, and mask combinators. A mask is a `Vec<bool>` aligned
//! index-for-index with the series it was derived from; an undefined input
//! position never fires.

use vstd::prelude::*;

verus! {

use crate::num::opt_seq;

/// True when both series are defined at `i` and `i - 1` and the first
/// strictly overtakes the second between the two indices.
pub open spec fn crossed_above_at(a: Seq<Option<int>>, b: Seq<Option<int>>, i: int) -> bool {
    &&& 1 <= i < a.len()
    &&& i < b.len()
    &&& a[i] is Some
    &&& b[i] is Some
    &&& a[i - 1] is Some
    &&& b[i - 1] is Some
    &&& a[i]->0 > b[i]->0
    &&& a[i - 1]->0 <= b[i - 1]->0
}

/// True when both series are defined at `i` and `i - 1` and the first
/// strictly drops below the second between the two indices.
pub open spec fn crossed_below_at(a: Seq<Option<int>>, b: Seq<Option<int>>, i: int) -> bool {
    &&& 1 <= i < a.len()
    &&& i < b.len()
    &&& a[i] is Some
    &&& b[i] is Some
    &&& a[i - 1] is Some
    &&& b[i - 1] is Some
    &&& a[i]->0 < b[i]->0
    &&& a[i - 1]->0 >= b[i - 1]->0
}

pub open spec fn crossed_above_mask(a: Seq<Option<int>>, b: Seq<Option<int>>) -> Seq<bool> {
    Seq::new(a.len(), |i: int| crossed_above_at(a, b, i))
}

pub open spec fn crossed_below_mask(a: Seq<Option<int>>, b: Seq<Option<int>>) -> Seq<bool> {
    Seq::new(a.len(), |i: int| crossed_below_at(a, b, i))
}

/// Largest element of `s[lo..hi]`; meaningful for a nonempty range.
pub open spec fn win_max(s: Seq<i64>, lo: int, hi: int) -> int
    decreases hi - lo,
{
    if lo >= hi - 1 {
        s[hi - 1] as int
    } else {
        let m = win_max(s, lo, hi - 1);
        if s[hi - 1] > m {
            s[hi - 1] as int
        } else {
            m
        }
    }
}

/// Smallest element of `s[lo..hi]`; meaningful for a nonempty range.
pub open spec fn win_min(s: Seq<i64>, lo: int, hi: int) -> int
    decreases hi - lo,
{
    if lo >= hi - 1 {
        s[hi - 1] as int
    } else {
        let m = win_min(s, lo, hi - 1);
        if s[hi - 1] < m {
            s[hi - 1] as int
        } else {
            m
        }
    }
}

/// The mask of a fresh high: the value strictly exceeds the largest value
/// of the `p` bars that precede it.
pub open spec fn higher_high_mask(s: Seq<i64>, p: int) -> Seq<bool> {
    Seq::new(s.len(), |i: int| p >= 1 && i >= p && s[i] > win_max(s, i - p, i))
}

/// The mask of a fresh low: the value is strictly below the smallest value
/// of the `p` bars that precede it.
pub open spec fn lower_low_mask(s: Seq<i64>, p: int) -> Seq<bool> {
    Seq::new(s.len(), |i: int| p >= 1 && i >= p && s[i] < win_min(s, i - p, i))
}

pub open spec fn above_mask(s: Seq<Option<int>>, t: int) -> Seq<bool> {
    Seq::new(s.len(), |i: int| s[i] is Some && s[i]->0 > t)
}

pub open spec fn below_mask(s: Seq<Option<int>>, t: int) -> Seq<bool> {
    Seq::new(s.len(), |i: int| s[i] is Some && s[i]->0 < t)
}

pub open spec fn and_mask(a: Seq<bool>, b: Seq<bool>) -> Seq<bool> {
    Seq::new(a.len(), |i: int| a[i] && b[i])
}

pub open spec fn or_mask(a: Seq<bool>, b: Seq<bool>) -> Seq<bool> {
    Seq::new(a.len(), |i: int| a[i] || b[i])
}

/// An all-false mask of length `n`.
pub fn false_vec(n: usize) -> (r: Vec<bool>)
    ensures
        r@ == Seq::new(n as nat, |i: int| false),
{
    let mut r: Vec<bool> = Vec::new();
    let mut k: usize = 0;
    while k < n
        invariant
            k <= n,
            r@ =~= Seq::new(k as nat, |i: int| false),
        decreases n - k,
    {
        r.push(false);
        k = k + 1;
    }
    proof {
        assert(r@ =~= Seq::new(n as nat, |i: int| false));
    }
    r
}

/// A crosses above B: fires where A overtakes B between consecutive
/// defined bars.
pub fn crossed_above(a: &Vec<Option<i64>>, b: &Vec<Option<i64>>) -> (r: Vec<bool>)
    requires
        a@.len() == b@.len(),
    ensures
        r@ == crossed_above_mask(opt_seq(a@), opt_seq(b@)),
{
    let n = a.len();
    let mut r: Vec<bool> = Vec::new();
    let mut i: usize = 0;
    while i < n
        invariant
            i <= n,
            n == a@.len() == b@.len(),
            r@.len() == i,
            forall|j: int|
                0 <= j < i ==> r@[j] == crossed_above_at(opt_seq(a@), opt_seq(b@), j),
        decreases n - i,
    {
        let fire = if i >= 1 {
            match (a[i], b[i], a[i - 1], b[i - 1]) {
                (Some(ai), Some(bi), Some(ap), Some(bp)) => ai > bi && ap <= bp,
                _ => false,
            }
        } else {
            false
        };
        r.push(fire);
        i = i + 1;
    }
    proof {
        assert(r@ =~= crossed_above_mask(opt_seq(a@), opt_seq(b@)));
    }
    r
}

/// A crosses below B: fires where A drops under B between consecutive
/// defined bars.
pub fn crossed_below(a: &Vec<Option<i64>>, b: &Vec<Option<i64>>) -> (r: Vec<bool>)
    requires
        a@.len() == b@.len(),
    ensures
        r@ == crossed_below_mask(opt_seq(a@), opt_seq(b@)),
{
    let n = a.len();
    let mut r: Vec<bool> = Vec::new();
    let mut i: usize = 0;
    while i < n
        invariant
            i <= n,
            n == a@.len() == b@.len(),
            r@.len() == i,
            forall|j: int|
                0 <= j < i ==> r@[j] == crossed_below_at(opt_seq(a@), opt_seq(b@), j),
        decreases n - i,
    {
        let fire = if i >= 1 {
            match (a[i], b[i], a[i - 1], b[i - 1]) {
                (Some(ai), Some(bi), Some(ap), Some(bp)) => ai < bi && ap >= bp,
                _ => false,
            }
        } else {
            false
        };
        r.push(fire);
        i = i + 1;
    }
    proof {
        assert(r@ =~= crossed_below_mask(opt_seq(a@), opt_seq(b@)));
    }
    r
}

/// Fresh high: the value strictly exceeds the rolling maximum of the
/// `lookback` bars before it.
pub fn higher_high(data: &Vec<i64>, lookback: usize) -> (r: Vec<bool>)
    ensures
        r@ == higher_high_mask(data@, lookback as int),
{
    let n = data.len();
    let mut r: Vec<bool> = Vec::new();
    let mut i: usize = 0;
    while i < n
        invariant
            i <= n,
            n == data@.len(),
            r@.len() == i,
            forall|k: int| 0 <= k < i ==> r@[k] == higher_high_mask(data@, lookback as int)[k],
        decreases n - i,
    {
        let fire = if lookback >= 1 && i >= lookback {
            let lo = i - lookback;
            let mut m: i64 = data[lo];
            let mut j: usize = lo + 1;
            while j < i
                invariant
                    lo + 1 <= j <= i,
                    lo == i - lookback,
                    i < n,
                    n == data@.len(),
                    m == win_max(data@, lo as int, j as int),
                decreases i - j,
            {
                if data[j] > m {
                    m = data[j];
                }
                j = j + 1;
            }
            data[i] > m
        } else {
            false
        };
        r.push(fire);
        i = i + 1;
    }
    proof {
        assert(r@ =~= higher_high_mask(data@, lookback as int));
    }
    r
}

/// Fresh low: the value is strictly below the rolling minimum of the
/// `lookback` bars before it.
pub fn lower_low(data: &Vec<i64>, lookback: usize) -> (r: Vec<bool>)
    ensures
        r@ == lower_low_mask(data@, lookback as int),
{
    let n = data.len();
    let mut r: Vec<bool> = Vec::new();
    let mut i: usize = 0;
    while i < n
        invariant
            i <= n,
            n == data@.len(),
            r@.len() == i,
            forall|k: int| 0 <= k < i ==> r@[k] == lower_low_mask(data@, lookback as int)[k],
        decreases n - i,
    {
        let fire = if lookback >= 1 && i >= lookback {
            let lo = i - lookback;
            let mut m: i64 = data[lo];
            let mut j: usize = lo + 1;
            while j < i
                invariant
                    lo + 1 <= j <= i,
                    lo == i - lookback,
                    i < n,
                    n == data@.len(),
                    m == win_min(data@, lo as int, j as int),
                decreases i - j,
            {
                if data[j] < m {
                    m = data[j];
                }
                j = j + 1;
            }
            data[i] < m
        } else {
            false
        };
        r.push(fire);
        i = i + 1;
    }
    proof {
        assert(r@ =~= lower_low_mask(data@, lookback as int));
    }
    r
}

/// Values strictly above a fixed threshold; an undefined value never fires.
pub fn above(data: &Vec<Option<i64>>, threshold: i64) -> (r: Vec<bool>)
    ensures
        r@ == above_mask(opt_seq(data@), threshold as int),
{
    let n = data.len();
    let mut r: Vec<bool> = Vec::new();
    let mut i: usize = 0;
    while i < n
        invariant
            i <= n,
            n == data@.len(),
            r@.len() == i,
            forall|j: int|
                0 <= j < i ==> r@[j] == above_mask(opt_seq(data@), threshold as int)[j],
        decreases n - i,
    {
        let fire = match data[i] {
            Some(v) => v > threshold,
            None => false,
        };
        r.push(fire);
        i = i + 1;
    }
    proof {
        assert(r@ =~= above_mask(opt_seq(data@), threshold as int));
    }
    r
}

/// Values strictly below a fixed threshold; an undefined value never fires.
pub fn below(data: &Vec<Option<i64>>, threshold: i64) -> (r: Vec<bool>)
    ensures
        r@ == below_mask(opt_seq(data@), threshold as int),
{
    let n = data.len();
    let mut r: Vec<bool> = Vec::new();
    let mut i: usize = 0;
    while i < n
        invariant
            i <= n,
            n == data@.len(),
            r@.len() == i,
            forall|j: int|
                0 <= j < i ==> r@[j] == below_mask(opt_seq(data@), threshold as int)[j],
        decreases n - i,
    {
        let fire = match data[i] {
            Some(v) => v < threshold,
            None => false,
        };
        r.push(fire);
        i = i + 1;
    }
    proof {
        assert(r@ =~= below_mask(opt_seq(data@), threshold as int));
    }
    r
}

/// Pointwise conjunction of two masks of equal length.
pub fn and(a: &Vec<bool>, b: &Vec<bool>) -> (r: Vec<bool>)
    requires
        a@.len() == b@.len(),
    ensures
        r@ == and_mask(a@, b@),
{
    let n = a.len();
    let mut r: Vec<bool> = Vec::new();
    let mut i: usize = 0;
    while i < n
        invariant
            i <= n,
            n == a@.len() == b@.len(),
            r@.len() == i,
            forall|j: int| 0 <= j < i ==> r@[j] == (a@[j] && b@[j]),
        decreases n - i,
    {
        r.push(a[i] && b[i]);
        i = i + 1;
    }
    proof {
        assert(r@ =~= and_mask(a@, b@));
    }
    r
}

/// Pointwise disjunction of two masks of equal length.
pub fn or(a: &Vec<bool>, b: &Vec<bool>) -> (r: Vec<bool>)
    requires
        a@.len() == b@.len(),
    ensures
        r@ == or_mask(a@, b@),
{
    let n = a.len();
    let mut r: Vec<bool> = Vec::new();
    let mut i: usize = 0;
    while i < n
        invariant
            i <= n,
            n == a@.len() == b@.len(),
            r@.len() == i,
            forall|j: int| 0 <= j < i ==> r@[j] == (a@[j] || b@[j]),
        decreases n - i,
    {
        r.push(a[i] || b[i]);
        i = i + 1;
    }
    proof {
        assert(r@ =~= or_mask(a@, b@));
    }
    r
}

} // verus!
