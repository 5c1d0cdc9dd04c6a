//! Reading the process's CPU time from `/proc/self/stat`.
use vstd::prelude::*;
use crate::data::{split_words, texts, words};
use crate::text::{chars_of, find_char, first_index_of, parse_unsigned, parsed_unsigned, string_of_range};

verus! {

/// A sum of two counters that stops at `u64::MAX`.
pub open spec fn sat_add(a: u64, b: u64) -> u64 {
    if a + b > u64::MAX { u64::MAX } else { (a + b) as u64 }
}

/// The user plus system CPU ticks a `/proc/<pid>/stat` line reports: after
/// the `)` that closes the command name, the 12th and 13th whitespace
/// separated fields (utime and stime), added without overflow.
pub open spec fn stat_ticks_of(stat: Seq<char>) -> Option<u64> {
    match first_index_of(stat, ')') {
        None => None,
        Some(e) => {
            let ws = words(stat.subrange(e + 1, stat.len() as int));
            if ws.len() > 12 {
                match (parsed_unsigned(ws[11], u64::MAX as nat), parsed_unsigned(ws[12], u64::MAX as nat)) {
                    (Some(u), Some(s)) => Some(sat_add(u as u64, s as u64)),
                    _ => None,
                }
            } else {
                None
            }
        },
    }
}

/// The CPU ticks (user plus system) of a `/proc/<pid>/stat` line.
pub fn utime_plus_stime(stat: &str) -> (r: Option<u64>)
    ensures
        r == stat_ticks_of(stat@),
{
    let v = chars_of(stat);
    let end = match find_char(v.as_slice(), ')') {
        Some(e) => e,
        None => return None,
    };
    let rest = string_of_range(v.as_slice(), end + 1, v.len());
    let fields = split_words(rest.as_str());
    proof {
        assert(texts(fields@).len() == fields@.len());
    }
    if fields.len() <= 12 {
        return None;
    }
    proof {
        assert(texts(fields@)[11] == fields@[11]@);
        assert(texts(fields@)[12] == fields@[12]@);
    }
    let u = match parse_unsigned(fields[11].as_str(), u64::MAX) {
        Some(u) => u,
        None => return None,
    };
    let s = match parse_unsigned(fields[12].as_str(), u64::MAX) {
        Some(s) => s,
        None => return None,
    };
    Some(u.saturating_add(s))
}

/// The resident memory a `/proc/<pid>/statm` line reports, in bytes: its
/// second field, in 4096-byte pages (the product wrapping at 2^64 as the
/// unchecked multiplication it stands for does).
pub open spec fn statm_rss_of(statm: Seq<char>) -> Option<u64> {
    let ws = words(statm);
    if ws.len() > 1 {
        match parsed_unsigned(ws[1], u64::MAX as nat) {
            Some(p) => Some(((p * 4096) % 0x1_0000_0000_0000_0000) as u64),
            None => None,
        }
    } else {
        None
    }
}

/// The resident memory, in bytes, of a `/proc/<pid>/statm` line.
pub fn statm_rss_bytes(statm: &str) -> (r: Option<u64>)
    ensures
        r == statm_rss_of(statm@),
{
    let fields = split_words(statm);
    proof {
        assert(texts(fields@).len() == fields@.len());
    }
    if fields.len() <= 1 {
        return None;
    }
    proof {
        assert(texts(fields@)[1] == fields@[1]@);
    }
    match parse_unsigned(fields[1].as_str(), u64::MAX) {
        Some(p) => Some(p.wrapping_mul(4096)),
        None => None,
    }
}

} // verus!
