//! The in-memory log ring behind the logs endpoint: the newest entries, at
//! most a fixed number, read back newest first above a minimum level.
use vstd::prelude::*;
use std::collections::VecDeque;
use crate::json::Json;
use crate::text::{lowercase_of, str_eq, to_lowercase};

verus! {

/// One captured log event.
#[derive(Debug)]
pub struct LogEntry {
    /// Milliseconds since the Unix epoch.
    pub ts: i64,
    pub level: String,
    pub target: String,
    pub message: String,
    /// The event's other fields, by name.
    pub fields: Vec<(String, Json)>,
}

/// The rank of a level name, in any case: trace and debug 0, info 1, warn 2,
/// error 3; none for other names.
pub open spec fn level_rank_of(level: Seq<char>) -> Option<u8> {
    let l = lowercase_of(level);
    if l == "trace"@ || l == "debug"@ {
        Some(0)
    } else if l == "info"@ {
        Some(1)
    } else if l == "warn"@ {
        Some(2)
    } else if l == "error"@ {
        Some(3)
    } else {
        None
    }
}

/// The rank of the level named `level`.
pub fn level_rank(level: &str) -> (r: Option<u8>)
    ensures
        r == level_rank_of(level@),
{
    let l = to_lowercase(level);
    let t = l.as_str();
    if str_eq(t, "trace") || str_eq(t, "debug") {
        Some(0)
    } else if str_eq(t, "info") {
        Some(1)
    } else if str_eq(t, "warn") {
        Some(2)
    } else if str_eq(t, "error") {
        Some(3)
    } else {
        None
    }
}

/// The entries kept after `e` is added to `s`: the newest `cap` of them.
pub open spec fn pushed(s: Seq<LogEntry>, e: LogEntry, cap: nat) -> Seq<LogEntry> {
    let t = s.push(e);
    if t.len() > cap { t.skip(t.len() - cap) } else { t }
}

/// An entry shows at minimum rank `min`: always without a minimum; else
/// where its level ranks at least `min` (an unknown level ranks 0).
pub open spec fn shows(e: LogEntry, min: Option<u8>) -> bool {
    match min {
        None => true,
        Some(m) => match level_rank_of(e.level@) {
            Some(r) => r >= m,
            None => 0 >= m,
        },
    }
}

/// The positions of the entries of `s` that show at `min`, newest first.
pub open spec fn newest_first(s: Seq<LogEntry>, min: Option<u8>) -> Seq<int>
    decreases s.len(),
{
    if s.len() == 0 {
        Seq::empty()
    } else {
        let rest = newest_first(s.drop_last(), min);
        if shows(s.last(), min) { seq![s.len() - 1] + rest } else { rest }
    }
}

/// A bounded log ring: pushing beyond the capacity drops the oldest entry.
pub struct LogRing {
    entries: VecDeque<LogEntry>,
    cap: usize,
}

impl LogRing {
    /// The entries, oldest first.
    pub closed spec fn entries_view(&self) -> Seq<LogEntry> {
        self.entries@
    }

    /// How many entries are kept at most.
    pub closed spec fn cap_view(&self) -> nat {
        self.cap as nat
    }

    /// Never more entries than the capacity.
    pub open spec fn wf(&self) -> bool {
        self.entries_view().len() <= self.cap_view()
    }

    /// An empty ring keeping at most `cap` entries.
    pub fn new(cap: usize) -> (r: Self)
        ensures
            r.wf(),
            r.entries_view().len() == 0,
            r.cap_view() == cap,
    {
        LogRing { entries: VecDeque::new(), cap }
    }

    /// Add `entry`, dropping the oldest entries beyond the capacity.
    pub fn push(&mut self, entry: LogEntry)
        requires
            old(self).wf(),
        ensures
            final(self).wf(),
            final(self).cap_view() == old(self).cap_view(),
            final(self).entries_view() == pushed(old(self).entries_view(), entry, old(self).cap_view()),
    {
        let ghost t = self.entries@.push(entry);
        self.entries.push_back(entry);
        let ghost mut dropped: int = 0;
        while self.entries.len() > self.cap
            invariant
                self.cap == old(self).cap,
                t == old(self).entries@.push(entry),
                self.entries@ == t.skip(dropped),
                0 <= dropped <= t.len(),
                t.len() <= self.cap + 1,
                dropped == 0 || t.len() - dropped == self.cap,
            decreases self.entries@.len(),
        {
            let _ = self.entries.pop_front();
            proof {
                dropped = dropped + 1;
                assert(self.entries@ =~= t.skip(dropped));
            }
        }
        proof {
            if dropped == 0 {
                assert(t.skip(0) =~= t);
            }
        }
    }

    /// The entries showing at `min_level` (all where it is none or unknown),
    /// newest first, at most `limit` of them.
    pub fn snapshot(&self, limit: usize, min_level: Option<&str>) -> (r: Vec<&LogEntry>)
        ensures
            ({
                let min = match min_level {
                    Some(l) => level_rank_of(l@),
                    None => None,
                };
                let nf = newest_first(self.entries_view(), min);
                &&& r@.len() == if nf.len() < limit { nf.len() } else { limit as nat }
                &&& forall|j: int| 0 <= j < r@.len() ==> *r@[j] == self.entries_view()[nf[j]]
            }),
    {
        let min = match min_level {
            Some(l) => level_rank(l),
            None => None,
        };
        let ghost s = self.entries@;
        let mut out: Vec<&LogEntry> = Vec::new();
        let mut i: usize = self.entries.len();
        proof {
            assert(s.take(i as int) =~= s);
            lemma_newest_first_bounds(s, min);
            assert(out_positions(0, newest_first(s, min)) =~= Seq::<int>::empty());
            assert(newest_first(s, min) =~= out_positions(0, newest_first(s, min)) + newest_first(s.take(i as int), min));
        }
        while i > 0 && out.len() < limit
            invariant
                0 <= i <= s.len(),
                s == self.entries@,
                out@.len() <= limit,
                newest_first(s, min) == out_positions(out@.len() as int, newest_first(s, min))
                    + newest_first(s.take(i as int), min),
                out@.len() <= newest_first(s, min).len(),
                forall|j: int| 0 <= j < out@.len() ==> *out@[j] == s[newest_first(s, min)[j]],
                forall|k: int| 0 <= k < newest_first(s.take(i as int), min).len() ==> 0 <= #[trigger] newest_first(s.take(i as int), min)[k] < i,
            decreases i,
        {
            proof {
                assert(s.take(i as int).drop_last() =~= s.take(i - 1));
                lemma_newest_first_bounds(s.take(i - 1), min);
            }
            let e = &self.entries[i - 1];
            let keep = match min {
                None => true,
                Some(m) => match level_rank(e.level.as_str()) {
                    Some(r) => r >= m,
                    None => 0 >= m,
                },
            };
            if keep {
                out.push(e);
            }
            i = i - 1;
        }
        proof {
            if out@.len() < limit {
                assert(i == 0);
                assert(newest_first(s.take(0), min) =~= Seq::<int>::empty());
            }
        }
        out
    }

    /// How many entries are kept.
    pub fn len(&self) -> (r: usize)
        ensures
            r == self.entries_view().len(),
    {
        self.entries.len()
    }

    /// Whether no entry is kept.
    pub fn is_empty(&self) -> (r: bool)
        ensures
            r == (self.entries_view().len() == 0),
    {
        self.entries.len() == 0
    }
}

/// The first `n` positions of `nf`.
pub open spec fn out_positions(n: int, nf: Seq<int>) -> Seq<int> {
    nf.take(n)
}

proof fn lemma_newest_first_bounds(s: Seq<LogEntry>, min: Option<u8>)
    ensures
        forall|k: int| 0 <= k < newest_first(s, min).len() ==> 0 <= #[trigger] newest_first(s, min)[k] < s.len(),
    decreases s.len(),
{
    if s.len() > 0 {
        lemma_newest_first_bounds(s.drop_last(), min);
        let rest = newest_first(s.drop_last(), min);
        if shows(s.last(), min) {
            assert forall|k: int| 0 <= k < newest_first(s, min).len() implies 0 <= #[trigger] newest_first(s, min)[k] < s.len() by {
                if k > 0 {
                    assert(newest_first(s, min)[k] == rest[k - 1]);
                }
            }
        }
    }
}

} // verus!
