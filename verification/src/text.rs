//! Verified string helpers: equality, lexicographic order for zero-padded
//! ISO dates, the year-month key of a date string, and ASCII-case-blind
//! comparison for parameter keywords.

use vstd::prelude::*;

verus! {

/// Order of `a` and `b` from position `i` on, by character code.
pub open spec fn lex_le_from(a: Seq<char>, b: Seq<char>, i: int) -> bool
    decreases a.len() - i,
{
    if i >= a.len() {
        true
    } else if i >= b.len() {
        false
    } else if (a[i] as u32) < (b[i] as u32) {
        true
    } else if (a[i] as u32) > (b[i] as u32) {
        false
    } else {
        lex_le_from(a, b, i + 1)
    }
}

/// Lexicographic order by character code; on zero-padded ISO dates this is
/// chronological order.
pub open spec fn lex_le(a: Seq<char>, b: Seq<char>) -> bool {
    lex_le_from(a, b, 0)
}

/// The first seven characters of a date string (its year and month), or
/// the whole string when it is shorter.
pub open spec fn month_key(d: Seq<char>) -> Seq<char> {
    if d.len() >= 7 {
        d.subrange(0, 7)
    } else {
        d
    }
}

/// The character's code with an ASCII capital folded to lower case.
pub open spec fn lower_code(c: char) -> u32 {
    if 65 <= c as u32 <= 90 {
        (c as u32 + 32) as u32
    } else {
        c as u32
    }
}

/// Equal up to ASCII case.
pub open spec fn eq_lower(a: Seq<char>, b: Seq<char>) -> bool {
    a.len() == b.len() && forall|i: int| 0 <= i < a.len() ==> lower_code(a[i]) == lower_code(
        b[i],
    )
}

/// Character-for-character string equality.
pub fn eq_str(a: &str, b: &str) -> (r: bool)
    ensures
        r == (a@ == b@),
{
    let na = a.unicode_len();
    let nb = b.unicode_len();
    if na != nb {
        proof {
            assert(a@ != b@);
        }
        return false;
    }
    let mut i: usize = 0;
    while i < na
        invariant
            i <= na,
            na == a@.len(),
            na == b@.len(),
            forall|j: int| 0 <= j < i ==> a@[j] == b@[j],
        decreases na - i,
    {
        let ca = a.get_char(i);
        let cb = b.get_char(i);
        if ca != cb {
            proof {
                assert(a@[i as int] != b@[i as int]);
            }
            return false;
        }
        i = i + 1;
    }
    proof {
        assert(a@ =~= b@);
    }
    true
}

/// String order by character code, total on equal-length date strings.
pub fn str_le(a: &str, b: &str) -> (r: bool)
    ensures
        r == lex_le(a@, b@),
{
    let na = a.unicode_len();
    let nb = b.unicode_len();
    let mut i: usize = 0;
    while i < na && i < nb
        invariant
            i <= na,
            i <= nb,
            na == a@.len(),
            nb == b@.len(),
            lex_le(a@, b@) == lex_le_from(a@, b@, i as int),
        decreases na - i,
    {
        let ca = a.get_char(i);
        let cb = b.get_char(i);
        if (ca as u32) < (cb as u32) {
            return true;
        }
        if (ca as u32) > (cb as u32) {
            return false;
        }
        i = i + 1;
    }
    na <= nb
}

/// Equality up to ASCII case, for parameter keywords.
pub fn eq_ignore_ascii(a: &str, b: &str) -> (r: bool)
    ensures
        r == eq_lower(a@, b@),
{
    let na = a.unicode_len();
    let nb = b.unicode_len();
    if na != nb {
        return false;
    }
    let mut i: usize = 0;
    while i < na
        invariant
            i <= na,
            na == a@.len(),
            na == b@.len(),
            forall|j: int| 0 <= j < i ==> lower_code(a@[j]) == lower_code(b@[j]),
        decreases na - i,
    {
        let ca = a.get_char(i) as u32;
        let cb = b.get_char(i) as u32;
        let fa = if 65 <= ca && ca <= 90 {
            ca + 32
        } else {
            ca
        };
        let fb = if 65 <= cb && cb <= 90 {
            cb + 32
        } else {
            cb
        };
        if fa != fb {
            return false;
        }
        i = i + 1;
    }
    true
}

/// The year-month keys of two date strings are equal.
pub fn same_month(a: &str, b: &str) -> (r: bool)
    ensures
        r == (month_key(a@) == month_key(b@)),
{
    let na = a.unicode_len();
    let nb = b.unicode_len();
    let ka: usize = if na >= 7 {
        7
    } else {
        na
    };
    let kb: usize = if nb >= 7 {
        7
    } else {
        nb
    };
    if ka != kb {
        proof {
            assert(month_key(a@).len() != month_key(b@).len());
        }
        return false;
    }
    let mut i: usize = 0;
    while i < ka
        invariant
            i <= ka,
            ka == kb,
            ka <= na,
            kb <= nb,
            na == a@.len(),
            nb == b@.len(),
            ka == month_key(a@).len(),
            kb == month_key(b@).len(),
            forall|j: int| 0 <= j < i ==> a@[j] == b@[j],
        decreases ka - i,
    {
        let ca = a.get_char(i);
        let cb = b.get_char(i);
        if ca != cb {
            proof {
                assert(month_key(a@)[i as int] != month_key(b@)[i as int]);
            }
            return false;
        }
        i = i + 1;
    }
    proof {
        assert(month_key(a@) =~= month_key(b@));
    }
    true
}

} // verus!
