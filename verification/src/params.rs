//! The pattern parameter bag: a small association list from parameter
//! name to a typed scalar. Numbers are fixed-point thousandths (so `1500`
//! is one and a half); every reader substitutes its documented default for
//! a missing key, a wrongly typed value, or a number outside the accepted
//! range, as the error model demands — a scan never aborts over a bad
//! parameter.

use vstd::prelude::*;

verus! {

use crate::num::LEN_LIMIT;

/// Largest accepted magnitude for a numeric parameter, in thousandths
/// (one million in value terms); anything beyond falls back to the default.
pub const PARAM_NUM_LIMIT: i64 = 1_000_000_000;

/// One dynamically-typed parameter value. `Num` carries thousandths.
pub enum ParamValue {
    Num(i64),
    Text(String),
    Flag(bool),
    List(Vec<String>),
}

/// The first value bound to `name` at or after position `i`.
pub open spec fn lookup_from(
    ps: Seq<(String, ParamValue)>,
    name: Seq<char>,
    i: int,
) -> Option<ParamValue>
    decreases ps.len() - i,
{
    if i >= ps.len() {
        None
    } else if ps[i].0@ == name {
        Some(ps[i].1)
    } else {
        lookup_from(ps, name, i + 1)
    }
}

/// The first value bound to `name`, if any.
pub open spec fn lookup(ps: Seq<(String, ParamValue)>, name: Seq<char>) -> Option<ParamValue> {
    lookup_from(ps, name, 0)
}

/// The numeric parameter in thousandths: the bound number when it is one
/// and lies within the accepted range, else the default.
pub open spec fn num_of(ps: Seq<(String, ParamValue)>, name: Seq<char>, default: int) -> int {
    match lookup(ps, name) {
        Some(ParamValue::Num(x)) => if -PARAM_NUM_LIMIT <= x <= PARAM_NUM_LIMIT {
            x as int
        } else {
            default
        },
        _ => default,
    }
}

/// The period parameter: the bound number when it is a whole nonnegative
/// count of bars no longer than any series can be, else the default.
pub open spec fn period_of(ps: Seq<(String, ParamValue)>, name: Seq<char>, default: int) -> int {
    match lookup(ps, name) {
        Some(ParamValue::Num(x)) => if 0 <= x && x % 1000 == 0 && x / 1000 <= LEN_LIMIT {
            x / 1000
        } else {
            default
        },
        _ => default,
    }
}

/// The text parameter, else the default keyword.
pub open spec fn text_of(
    ps: Seq<(String, ParamValue)>,
    name: Seq<char>,
    default: Seq<char>,
) -> Seq<char> {
    match lookup(ps, name) {
        Some(ParamValue::Text(s)) => s@,
        _ => default,
    }
}

/// The list parameter's entries, else no entries.
pub open spec fn list_of(ps: Seq<(String, ParamValue)>, name: Seq<char>) -> Seq<Seq<char>> {
    match lookup(ps, name) {
        Some(ParamValue::List(v)) => Seq::new(v@.len(), |i: int| v@[i]@),
        _ => Seq::empty(),
    }
}

/// Find the first binding for `name`.
fn find<'a>(params: &'a Vec<(String, ParamValue)>, name: &str) -> (r: Option<&'a ParamValue>)
    ensures
        match r {
            Some(v) => lookup(params@, name@) == Some(*v),
            None => lookup(params@, name@) is None,
        },
{
    let n = params.len();
    let mut i: usize = 0;
    while i < n
        invariant
            i <= n,
            n == params@.len(),
            lookup(params@, name@) == lookup_from(params@, name@, i as int),
        decreases n - i,
    {
        if crate::text::eq_str(params[i].0.as_str(), name) {
            return Some(&params[i].1);
        }
        i = i + 1;
    }
    None
}

/// Read a numeric parameter in thousandths, substituting `default` for a
/// missing, mistyped or out-of-range value.
pub fn num_param(params: &Vec<(String, ParamValue)>, name: &str, default: i64) -> (r: i64)
    ensures
        r == num_of(params@, name@, default as int),
        -PARAM_NUM_LIMIT <= default <= PARAM_NUM_LIMIT ==> -PARAM_NUM_LIMIT <= r
            <= PARAM_NUM_LIMIT,
{
    match find(params, name) {
        Some(ParamValue::Num(x)) => {
            if -PARAM_NUM_LIMIT <= *x && *x <= PARAM_NUM_LIMIT {
                *x
            } else {
                default
            }
        },
        _ => default,
    }
}

/// Read a bar-count parameter, substituting `default` for a missing,
/// mistyped, fractional, negative or oversized value.
pub fn period_param(params: &Vec<(String, ParamValue)>, name: &str, default: usize) -> (r:
    usize)
    ensures
        r == period_of(params@, name@, default as int),
{
    match find(params, name) {
        Some(ParamValue::Num(x)) => {
            if *x >= 0 {
                let v = *x as u64;
                if v % 1000 == 0 && v / 1000 <= LEN_LIMIT as u64 {
                    (v / 1000) as usize
                } else {
                    default
                }
            } else {
                default
            }
        },
        _ => default,
    }
}

/// Read a keyword parameter, substituting `default` when absent or not
/// text.
pub fn text_param(params: &Vec<(String, ParamValue)>, name: &str, default: &str) -> (r: String)
    ensures
        r@ == text_of(params@, name@, default@),
{
    match find(params, name) {
        Some(ParamValue::Text(s)) => s.clone(),
        _ => String::from_str(default),
    }
}

/// Read a list parameter's entries; absent or mistyped means no entries.
pub fn list_param(params: &Vec<(String, ParamValue)>, name: &str) -> (r: Vec<String>)
    ensures
        r@.len() == list_of(params@, name@).len(),
        forall|i: int| 0 <= i < r@.len() ==> r@[i]@ == list_of(params@, name@)[i],
{
    match find(params, name) {
        Some(ParamValue::List(v)) => {
            let mut out: Vec<String> = Vec::new();
            let n = v.len();
            let mut i: usize = 0;
            while i < n
                invariant
                    i <= n,
                    n == v@.len(),
                    out@.len() == i,
                    forall|j: int| 0 <= j < i ==> out@[j]@ == v@[j]@,
                decreases n - i,
            {
                out.push(v[i].clone());
                i = i + 1;
            }
            out
        },
        _ => Vec::new(),
    }
}

} // verus!
