//! Shape checks for train numbers, PNRs and free-text queries.
use vstd::prelude::*;
use crate::text::{all_digits, chars_all_digits, chars_of, string_of};

verus! {

/// Longest free-text query (in characters) the service accepts.
pub const MAX_QUERY_LEN: usize = 128;

/// The all-zero five-digit train number, which is never a real train.
pub open spec fn zero_train() -> Seq<char> {
    seq!['0', '0', '0', '0', '0']
}

/// A train number of one to eight digits.
pub fn is_valid_train_1_8(train: &str) -> (r: bool)
    ensures
        r == (1 <= train@.len() <= 8 && all_digits(train@)),
{
    let v = chars_of(train);
    v.len() >= 1 && v.len() <= 8 && chars_all_digits(v.as_slice())
}

/// A five-digit train number other than `00000`.
pub fn is_valid_train_5(train: &str) -> (r: bool)
    ensures
        r == (train@.len() == 5 && all_digits(train@) && train@ != zero_train()),
{
    let v = chars_of(train);
    if v.len() != 5 || !chars_all_digits(v.as_slice()) {
        return false;
    }
    let mut all_zero = true;
    let mut i: usize = 0;
    while i < 5
        invariant
            v@ == train@,
            v.len() == 5,
            0 <= i <= 5,
            all_zero == (forall|j: int| 0 <= j < i ==> v@[j] == '0'),
        decreases 5 - i,
    {
        if v[i] != '0' {
            all_zero = false;
        }
        i = i + 1;
    }
    proof {
        if all_zero {
            assert(train@ =~= zero_train());
        } else {
            assert(train@ != zero_train()) by {
                let j = choose|j: int| 0 <= j < 5 && v@[j] != '0';
                assert(zero_train()[j] == '0');
            }
        }
    }
    !all_zero
}

/// A train number of four or five digits.
pub fn is_valid_train_4_5(train: &str) -> (r: bool)
    ensures
        r == (4 <= train@.len() <= 5 && all_digits(train@)),
{
    let v = chars_of(train);
    v.len() >= 4 && v.len() <= 5 && chars_all_digits(v.as_slice())
}

/// A ten-digit PNR.
pub fn is_valid_pnr(pnr: &str) -> (r: bool)
    ensures
        r == (pnr@.len() == 10 && all_digits(pnr@)),
{
    let v = chars_of(pnr);
    v.len() == 10 && chars_all_digits(v.as_slice())
}

/// The text of an optional query, absent meaning empty.
pub open spec fn query_text(q: Option<&str>) -> Seq<char> {
    match q {
        Some(s) => s@,
        None => Seq::empty(),
    }
}

/// The first `max` characters of `s` (all of it when shorter).
pub open spec fn prefix_chars(s: Seq<char>, max: int) -> Seq<char> {
    if s.len() <= max { s } else { s.subrange(0, max) }
}

/// The first `max` characters of the query (an absent query is empty).
pub fn clamp_query(q: Option<&str>, max: usize) -> (r: String)
    ensures
        r@ == prefix_chars(query_text(q), max as int),
{
    let v = match q {
        Some(s) => chars_of(s),
        None => Vec::new(),
    };
    if v.len() <= max {
        string_of(v.as_slice())
    } else {
        let mut out: Vec<char> = Vec::new();
        let mut i: usize = 0;
        while i < max
            invariant
                max < v.len(),
                0 <= i <= max,
                out@ =~= v@.subrange(0, i as int),
            decreases max - i,
        {
            out.push(v[i]);
            i = i + 1;
        }
        string_of(out.as_slice())
    }
}

/// The query clamped to [`MAX_QUERY_LEN`] characters.
pub fn clamp_q(q: Option<&str>) -> (r: String)
    ensures
        r@ == prefix_chars(query_text(q), MAX_QUERY_LEN as int),
{
    clamp_query(q, MAX_QUERY_LEN)
}

} // verus!
