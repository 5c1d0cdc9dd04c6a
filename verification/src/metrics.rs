//! The integer side of the live runtime metrics: request, byte, cache and
//! fan-out counters, and the per-path, per-status and per-source tallies the
//! dashboard lists. Latency averages and the time series are computed
//! beside it from these numbers.
use vstd::prelude::*;
use crate::data::{lists, ranks, rank_hits, texts};
use crate::sre::{count_all, count_in, count_in_range, StatusCodeCount};
use crate::text::str_eq;

verus! {

/// Upper bound on distinct paths tracked, so unique URLs cannot grow the
/// table without limit.
pub const MAX_PATHS: usize = 1024;

/// Requests seen for one path.
#[derive(Debug, Clone)]
pub struct PathCount {
    pub path: String,
    pub count: u64,
}

/// Fan-out races one source won.
#[derive(Debug, Clone)]
pub struct FanoutWin {
    pub source: String,
    pub wins: u64,
}

/// Hard failures of one source.
#[derive(Debug, Clone)]
pub struct SourceFailure {
    pub source: String,
    pub failures: u64,
}

/// A counter after one more event; counters wrap at `u64::MAX` as the
/// atomic counters they stand for do.
pub open spec fn wrap_inc(x: u64) -> u64 {
    if x == u64::MAX { 0 } else { (x + 1) as u64 }
}

/// A counter after `n` more events (wrapping).
pub open spec fn wrap_add(x: u64, n: u64) -> u64 {
    ((x as int + n as int) % 0x1_0000_0000_0000_0000) as u64
}

/// Text-keyed tallies as plain values.
pub open spec fn tally_view(v: Seq<(String, u64)>) -> Seq<(Seq<char>, u64)> {
    v.map_values(|p: (String, u64)| (p.0@, p.1))
}

/// No key occurs twice.
pub open spec fn distinct_keys<K>(s: Seq<(K, u64)>) -> bool {
    forall|a: int, b: int| 0 <= a < b < s.len() ==> s[a].0 != s[b].0
}

/// The index of the tally for `k`.
pub open spec fn index_of_key<K>(s: Seq<(K, u64)>, k: K) -> Option<int> {
    if exists|i: int| 0 <= i < s.len() && s[i].0 == k {
        Some(choose|i: int| 0 <= i < s.len() && s[i].0 == k)
    } else {
        None
    }
}

/// The tallies after one more event for `k`: its count goes up by one, or
/// it is added with a count of one.
pub open spec fn bumped<K>(s: Seq<(K, u64)>, k: K) -> Seq<(K, u64)> {
    match index_of_key(s, k) {
        Some(i) => s.update(i, (k, wrap_inc(s[i].1))),
        None => s.push((k, 1u64)),
    }
}

/// The integer metrics of the running server.
pub struct Metrics {
    pub requests_total: u64,
    pub in_flight: u64,
    pub bytes_out: u64,
    pub cache_hits: u64,
    pub cache_misses: u64,
    pub fanout_total: u64,
    pub fanout_overall_timeouts: u64,
    pub paths: Vec<(String, u64)>,
    pub codes: Vec<(u16, u64)>,
    pub wins: Vec<(String, u64)>,
    pub failures: Vec<(String, u64)>,
}

/// `m` after one cache lookup is counted: a hit where `hit`, else a miss;
/// nothing else changes.
pub open spec fn lookup_counted(m: Metrics, hit: bool) -> Metrics {
    if hit {
        Metrics { cache_hits: wrap_inc(m.cache_hits), ..m }
    } else {
        Metrics { cache_misses: wrap_inc(m.cache_misses), ..m }
    }
}

impl Metrics {
    /// The per-path tallies.
    pub open spec fn paths_view(&self) -> Seq<(Seq<char>, u64)> {
        tally_view(self.paths@)
    }

    /// The per-status tallies.
    pub open spec fn codes_view(&self) -> Seq<(u16, u64)> {
        self.codes@
    }

    /// The fan-out wins per source.
    pub open spec fn wins_view(&self) -> Seq<(Seq<char>, u64)> {
        tally_view(self.wins@)
    }

    /// The hard failures per source.
    pub open spec fn failures_view(&self) -> Seq<(Seq<char>, u64)> {
        tally_view(self.failures@)
    }

    /// Each tally holds a key once, and at most [`MAX_PATHS`] paths are
    /// tracked.
    pub open spec fn wf(&self) -> bool {
        &&& distinct_keys(self.paths_view())
        &&& distinct_keys(self.codes_view())
        &&& distinct_keys(self.wins_view())
        &&& distinct_keys(self.failures_view())
        &&& self.paths_view().len() <= MAX_PATHS
    }

    /// All counters at zero, no tallies.
    pub fn new() -> (r: Self)
        ensures
            r.wf(),
            r.requests_total == 0 && r.in_flight == 0 && r.bytes_out == 0,
            r.cache_hits == 0 && r.cache_misses == 0,
            r.fanout_total == 0 && r.fanout_overall_timeouts == 0,
            r.paths_view().len() == 0,
            r.codes_view().len() == 0,
            r.wins_view().len() == 0,
            r.failures_view().len() == 0,
    {
        let r = Metrics {
            requests_total: 0,
            in_flight: 0,
            bytes_out: 0,
            cache_hits: 0,
            cache_misses: 0,
            fanout_total: 0,
            fanout_overall_timeouts: 0,
            paths: Vec::new(),
            codes: Vec::new(),
            wins: Vec::new(),
            failures: Vec::new(),
        };
        proof {
            assert(r.paths_view() =~= Seq::empty());
            assert(r.wins_view() =~= Seq::empty());
            assert(r.failures_view() =~= Seq::empty());
        }
        r
    }
}

pub(crate) fn bump_text(v: &mut Vec<(String, u64)>, key: &str)
    requires
        distinct_keys(tally_view(old(v)@)),
    ensures
        tally_view(final(v)@) == bumped(tally_view(old(v)@), key@),
        distinct_keys(tally_view(final(v)@)),
{
    let ghost s = tally_view(v@);
    let mut i: usize = 0;
    while i < v.len()
        invariant
            0 <= i <= v@.len(),
            s == tally_view(v@),
            s == tally_view(old(v)@),
            distinct_keys(s),
            forall|j: int| 0 <= j < i ==> s[j].0 != key@,
        decreases v@.len() - i,
    {
        if str_eq(v[i].0.as_str(), key) {
            proof {
                assert(s[i as int].0 == key@);
                let c = choose|j: int| 0 <= j < s.len() && s[j].0 == key@;
                assert(c == i);
            }
            let c = v[i].1;
            let k = v[i].0.clone();
            let n = if c == u64::MAX { 0 } else { c + 1 };
            v.set(i, (k, n));
            proof {
                assert(index_of_key(s, key@) == Some(i as int));
                assert(tally_view(v@) =~= s.update(i as int, (key@, wrap_inc(c))));
                assert(tally_view(v@) == bumped(s, key@));
                assert forall|a: int, b: int| 0 <= a < b < tally_view(v@).len() implies tally_view(v@)[a].0 != tally_view(v@)[b].0 by {
                    assert(s[a].0 != s[b].0);
                }
            }
            return;
        }
        i = i + 1;
    }
    v.push((key.to_string(), 1));
    proof {
        assert(tally_view(v@) =~= s.push((key@, 1u64)));
    }
}

fn bump_code(v: &mut Vec<(u16, u64)>, code: u16)
    requires
        distinct_keys(old(v)@),
    ensures
        final(v)@ == bumped(old(v)@, code),
        distinct_keys(final(v)@),
{
    let ghost s = v@;
    let mut i: usize = 0;
    while i < v.len()
        invariant
            0 <= i <= v@.len(),
            s == v@,
            s == old(v)@,
            distinct_keys(s),
            forall|j: int| 0 <= j < i ==> s[j].0 != code,
        decreases v@.len() - i,
    {
        if v[i].0 == code {
            proof {
                let c = choose|j: int| 0 <= j < s.len() && s[j].0 == code;
                assert(c == i);
            }
            let c = v[i].1;
            let n = if c == u64::MAX { 0 } else { c + 1 };
            v.set(i, (code, n));
            proof {
                assert(index_of_key(s, code) == Some(i as int));
                assert(v@ =~= s.update(i as int, (code, wrap_inc(c))));
            }
            return;
        }
        i = i + 1;
    }
    v.push((code, 1));
}

fn has_text_key(v: &Vec<(String, u64)>, key: &str) -> (r: bool)
    ensures
        r == (index_of_key(tally_view(v@), key@) is Some),
{
    let ghost s = tally_view(v@);
    let mut i: usize = 0;
    while i < v.len()
        invariant
            0 <= i <= v@.len(),
            s == tally_view(v@),
            forall|j: int| 0 <= j < i ==> s[j].0 != key@,
        decreases v@.len() - i,
    {
        if str_eq(v[i].0.as_str(), key) {
            proof {
                assert(s[i as int].0 == key@);
            }
            return true;
        }
        i = i + 1;
    }
    false
}

impl Metrics {
    /// A request started: one more in flight and one more in all.
    pub fn begin_request(&mut self)
        ensures
            final(self).in_flight == wrap_inc(old(self).in_flight),
            final(self).requests_total == wrap_inc(old(self).requests_total),
            final(self).bytes_out == old(self).bytes_out,
            final(self).paths == old(self).paths,
            final(self).codes == old(self).codes,
    {
        self.in_flight = if self.in_flight == u64::MAX { 0 } else { self.in_flight + 1 };
        self.requests_total = if self.requests_total == u64::MAX { 0 } else { self.requests_total + 1 };
    }

    /// A request finished: one fewer in flight (never below zero).
    pub fn end_request(&mut self)
        ensures
            final(self).in_flight == if old(self).in_flight == 0 { 0 } else { (old(self).in_flight - 1) as u64 },
            final(self).requests_total == old(self).requests_total,
    {
        if self.in_flight > 0 {
            self.in_flight = self.in_flight - 1;
        }
    }

    /// One more request for `path`; a path not yet tracked is dropped once
    /// [`MAX_PATHS`] paths are.
    pub fn record_path(&mut self, path: &str)
        requires
            old(self).wf(),
        ensures
            final(self).wf(),
            if index_of_key(old(self).paths_view(), path@) is None && old(self).paths_view().len() >= MAX_PATHS {
                final(self).paths_view() == old(self).paths_view()
            } else {
                final(self).paths_view() == bumped(old(self).paths_view(), path@)
            },
            final(self).codes_view() == old(self).codes_view(),
            final(self).wins_view() == old(self).wins_view(),
            final(self).failures_view() == old(self).failures_view(),
    {
        if self.paths.len() >= MAX_PATHS && !has_text_key(&self.paths, path) {
            return;
        }
        bump_text(&mut self.paths, path);
        proof {
            if index_of_key(old(self).paths_view(), path@) is None {
                assert(old(self).paths_view().len() < MAX_PATHS);
            }
        }
    }

    /// One more response with status `code`.
    pub fn record_status(&mut self, code: u16)
        requires
            old(self).wf(),
        ensures
            final(self).wf(),
            final(self).codes_view() == bumped(old(self).codes_view(), code),
            final(self).paths_view() == old(self).paths_view(),
            final(self).wins_view() == old(self).wins_view(),
            final(self).failures_view() == old(self).failures_view(),
    {
        bump_code(&mut self.codes, code);
    }

    /// One more cache hit.
    pub fn record_cache_hit(&mut self)
        ensures
            *final(self) == lookup_counted(*old(self), true),
    {
        self.cache_hits = if self.cache_hits == u64::MAX { 0 } else { self.cache_hits + 1 };
    }

    /// One more cache miss.
    pub fn record_cache_miss(&mut self)
        ensures
            *final(self) == lookup_counted(*old(self), false),
    {
        self.cache_misses = if self.cache_misses == u64::MAX { 0 } else { self.cache_misses + 1 };
    }

    /// `n` more bytes sent.
    pub fn add_bytes(&mut self, n: u64)
        ensures
            final(self).bytes_out == wrap_add(old(self).bytes_out, n),
    {
        self.bytes_out = self.bytes_out.wrapping_add(n);
    }

    /// One more fan-out executed.
    pub fn record_fanout(&mut self)
        ensures
            final(self).fanout_total == wrap_inc(old(self).fanout_total),
    {
        self.fanout_total = if self.fanout_total == u64::MAX { 0 } else { self.fanout_total + 1 };
    }

    /// One more fan-out won by `source`.
    pub fn record_fanout_win(&mut self, source: &str)
        requires
            old(self).wf(),
        ensures
            final(self).wf(),
            final(self).wins_view() == bumped(old(self).wins_view(), source@),
            final(self).paths_view() == old(self).paths_view(),
            final(self).codes_view() == old(self).codes_view(),
            final(self).failures_view() == old(self).failures_view(),
    {
        bump_text(&mut self.wins, source);
    }

    /// One more fan-out that ran out of its overall time.
    pub fn record_fanout_overall_timeout(&mut self)
        ensures
            final(self).fanout_overall_timeouts == wrap_inc(old(self).fanout_overall_timeouts),
    {
        self.fanout_overall_timeouts = if self.fanout_overall_timeouts == u64::MAX {
            0
        } else {
            self.fanout_overall_timeouts + 1
        };
    }

    /// One more hard failure of `source`.
    pub fn record_source_failure(&mut self, source: &str)
        requires
            old(self).wf(),
        ensures
            final(self).wf(),
            final(self).failures_view() == bumped(old(self).failures_view(), source@),
            final(self).paths_view() == old(self).paths_view(),
            final(self).codes_view() == old(self).codes_view(),
            final(self).wins_view() == old(self).wins_view(),
    {
        bump_text(&mut self.failures, source);
    }
}

/// The sort score of a count: the count, held to `i64::MAX`.
pub open spec fn count_score(c: u64) -> Option<i64> {
    Some(if c <= i64::MAX as u64 { c as i64 } else { i64::MAX })
}

/// The scores that order tallies by count, largest first.
pub open spec fn count_scores<K>(s: Seq<(K, u64)>) -> Seq<Option<i64>> {
    Seq::new(s.len(), |i: int| count_score(s[i].1))
}

/// Equal scores, so that tallies are ordered by key alone.
pub open spec fn flat_scores(n: nat) -> Seq<Option<i64>> {
    Seq::new(n, |i: int| Some(0i64))
}

/// Empty tie-break texts, so that equal counts keep table order.
pub open spec fn blank_keys(n: nat) -> Seq<Seq<char>> {
    Seq::new(n, |i: int| Seq::<char>::empty())
}

/// The keys of text tallies.
pub open spec fn tally_keys(s: Seq<(Seq<char>, u64)>) -> Seq<Seq<char>> {
    s.map_values(|p: (Seq<char>, u64)| p.0)
}

fn scores_by_count<K>(v: &Vec<(K, u64)>) -> (r: Vec<Option<i64>>)
    ensures
        r@ == count_scores(v@),
{
    let mut out: Vec<Option<i64>> = Vec::new();
    let mut i: usize = 0;
    while i < v.len()
        invariant
            0 <= i <= v@.len(),
            out@ =~= count_scores(v@).take(i as int),
        decreases v@.len() - i,
    {
        let c = v[i].1;
        out.push(Some(if c <= i64::MAX as u64 { c as i64 } else { i64::MAX }));
        i = i + 1;
    }
    out
}

fn flat(n: usize) -> (r: Vec<Option<i64>>)
    ensures
        r@ == flat_scores(n as nat),
{
    let mut out: Vec<Option<i64>> = Vec::new();
    let mut i: usize = 0;
    while i < n
        invariant
            0 <= i <= n,
            out@ =~= flat_scores(n as nat).take(i as int),
        decreases n - i,
    {
        out.push(Some(0));
        i = i + 1;
    }
    out
}

fn blanks(n: usize) -> (r: Vec<String>)
    ensures
        texts(r@) == blank_keys(n as nat),
{
    let mut out: Vec<String> = Vec::new();
    let mut i: usize = 0;
    while i < n
        invariant
            0 <= i <= n,
            texts(out@) =~= blank_keys(n as nat).take(i as int),
        decreases n - i,
    {
        let ghost before = out@;
        out.push(String::new());
        proof {
            assert(texts(out@) =~= texts(before).push(Seq::<char>::empty()));
        }
        i = i + 1;
    }
    out
}

fn keys_of(v: &Vec<(String, u64)>) -> (r: Vec<String>)
    ensures
        texts(r@) == tally_keys(tally_view(v@)),
{
    let mut out: Vec<String> = Vec::new();
    let mut i: usize = 0;
    while i < v.len()
        invariant
            0 <= i <= v@.len(),
            texts(out@) =~= tally_keys(tally_view(v@)).take(i as int),
        decreases v@.len() - i,
    {
        let ghost before = out@;
        out.push(v[i].0.clone());
        proof {
            assert(texts(out@) =~= texts(before).push(v@[i as int].0@));
        }
        i = i + 1;
    }
    out
}

impl Metrics {
    /// The per-path tallies, most requested first; equal counts keep the
    /// order in which their paths were first seen.
    pub fn requests_by_path(&self) -> (r: Vec<PathCount>)
        ensures
            exists|order: Seq<usize>|
                {
                    &&& ranks(order, count_scores(self.paths_view()), blank_keys(self.paths_view().len()), self.paths_view().len() as int)
                    &&& order.len() == r@.len()
                    &&& forall|j: int| 0 <= j < r@.len() ==> (#[trigger] r@[j]).path@ == self.paths_view()[order[j] as int].0
                        && r@[j].count == self.paths_view()[order[j] as int].1
                },
    {
        let scores = scores_by_count(&self.paths);
        let keys = blanks(self.paths.len());
        proof {
            assert(keys@.len() == texts(keys@).len());
        }
        proof {
            assert(count_scores(self.paths@) =~= count_scores(self.paths_view()));
        }
        let order = rank_hits(&scores, &keys);
        let mut out: Vec<PathCount> = Vec::new();
        let mut j: usize = 0;
        while j < order.len()
            invariant
                0 <= j <= order@.len(),
                ranks(order@, count_scores(self.paths_view()), blank_keys(self.paths_view().len()), self.paths_view().len() as int),
                out@.len() == j,
                forall|t: int| 0 <= t < j ==> (#[trigger] out@[t]).path@ == self.paths_view()[order@[t] as int].0
                    && out@[t].count == self.paths_view()[order@[t] as int].1,
            decreases order@.len() - j,
        {
            let k = order[j];
            proof {
                assert(order@[j as int] < self.paths_view().len());
            }
            out.push(PathCount { path: self.paths[k].0.clone(), count: self.paths[k].1 });
            j = j + 1;
        }
        out
    }

    /// The per-status tallies, most frequent first; equal counts keep the
    /// order in which their codes were first seen.
    pub fn status_by_code(&self) -> (r: Vec<StatusCodeCount>)
        ensures
            exists|order: Seq<usize>|
                {
                    &&& ranks(order, count_scores(self.codes_view()), blank_keys(self.codes_view().len()), self.codes_view().len() as int)
                    &&& order.len() == r@.len()
                    &&& forall|j: int| 0 <= j < r@.len() ==> (#[trigger] r@[j]).code == self.codes_view()[order[j] as int].0
                        && r@[j].count == self.codes_view()[order[j] as int].1
                },
    {
        let scores = scores_by_count(&self.codes);
        let keys = blanks(self.codes.len());
        proof {
            assert(keys@.len() == texts(keys@).len());
        }
        let order = rank_hits(&scores, &keys);
        let mut out: Vec<StatusCodeCount> = Vec::new();
        let mut j: usize = 0;
        while j < order.len()
            invariant
                0 <= j <= order@.len(),
                ranks(order@, count_scores(self.codes_view()), blank_keys(self.codes_view().len()), self.codes_view().len() as int),
                out@.len() == j,
                forall|t: int| 0 <= t < j ==> (#[trigger] out@[t]).code == self.codes_view()[order@[t] as int].0
                    && out@[t].count == self.codes_view()[order@[t] as int].1,
            decreases order@.len() - j,
        {
            let k = order[j];
            proof {
                assert(order@[j as int] < self.codes_view().len());
            }
            out.push(StatusCodeCount { code: self.codes[k].0, count: self.codes[k].1 });
            j = j + 1;
        }
        out
    }

    /// The fan-out wins per source, by source name.
    pub fn fanout_wins(&self) -> (r: Vec<FanoutWin>)
        ensures
            exists|order: Seq<usize>|
                {
                    &&& ranks(order, flat_scores(self.wins_view().len()), tally_keys(self.wins_view()), self.wins_view().len() as int)
                    &&& order.len() == r@.len()
                    &&& forall|j: int| 0 <= j < r@.len() ==> (#[trigger] r@[j]).source@ == self.wins_view()[order[j] as int].0
                        && r@[j].wins == self.wins_view()[order[j] as int].1
                },
    {
        let scores = flat(self.wins.len());
        let keys = keys_of(&self.wins);
        proof {
            assert(keys@.len() == texts(keys@).len());
        }
        let order = rank_hits(&scores, &keys);
        let mut out: Vec<FanoutWin> = Vec::new();
        let mut j: usize = 0;
        while j < order.len()
            invariant
                0 <= j <= order@.len(),
                ranks(order@, flat_scores(self.wins_view().len()), tally_keys(self.wins_view()), self.wins_view().len() as int),
                out@.len() == j,
                forall|t: int| 0 <= t < j ==> (#[trigger] out@[t]).source@ == self.wins_view()[order@[t] as int].0
                    && out@[t].wins == self.wins_view()[order@[t] as int].1,
            decreases order@.len() - j,
        {
            let k = order[j];
            proof {
                assert(order@[j as int] < self.wins_view().len());
            }
            out.push(FanoutWin { source: self.wins[k].0.clone(), wins: self.wins[k].1 });
            j = j + 1;
        }
        out
    }

    /// The hard failures per source, by source name.
    pub fn source_failures(&self) -> (r: Vec<SourceFailure>)
        ensures
            exists|order: Seq<usize>|
                {
                    &&& ranks(order, flat_scores(self.failures_view().len()), tally_keys(self.failures_view()), self.failures_view().len() as int)
                    &&& order.len() == r@.len()
                    &&& forall|j: int| 0 <= j < r@.len() ==> (#[trigger] r@[j]).source@ == self.failures_view()[order[j] as int].0
                        && r@[j].failures == self.failures_view()[order[j] as int].1
                },
    {
        let scores = flat(self.failures.len());
        let keys = keys_of(&self.failures);
        proof {
            assert(keys@.len() == texts(keys@).len());
        }
        let order = rank_hits(&scores, &keys);
        let mut out: Vec<SourceFailure> = Vec::new();
        let mut j: usize = 0;
        while j < order.len()
            invariant
                0 <= j <= order@.len(),
                ranks(order@, flat_scores(self.failures_view().len()), tally_keys(self.failures_view()), self.failures_view().len() as int),
                out@.len() == j,
                forall|t: int| 0 <= t < j ==> (#[trigger] out@[t]).source@ == self.failures_view()[order@[t] as int].0
                    && out@[t].failures == self.failures_view()[order@[t] as int].1,
            decreases order@.len() - j,
        {
            let k = order[j];
            proof {
                assert(order@[j as int] < self.failures_view().len());
            }
            out.push(SourceFailure { source: self.failures[k].0.clone(), failures: self.failures[k].1 });
            j = j + 1;
        }
        out
    }
}

/// Two disjoint code ranges together never count more than the whole.
pub proof fn lemma_disjoint_ranges_le_all(s: Seq<StatusCodeCount>, a: u16, b: u16, c: u16)
    requires
        a <= b <= c,
    ensures
        count_in(s, a, b) + count_in(s, b, c) <= count_all(s),
    decreases s.len(),
{
    if s.len() > 0 {
        lemma_disjoint_ranges_le_all(s.drop_last(), a, b, c);
    }
}

/// Requests answered 2xx or 3xx.
pub fn red_success_count(status_by_code: &[StatusCodeCount]) -> (r: u64)
    requires
        count_all(status_by_code@) <= u64::MAX,
    ensures
        r == count_in(status_by_code@, 200, 400),
{
    count_in_range(status_by_code, 200, 400)
}

/// Requests answered 4xx.
pub fn red_4xx_count(status_by_code: &[StatusCodeCount]) -> (r: u64)
    requires
        count_all(status_by_code@) <= u64::MAX,
    ensures
        r == count_in(status_by_code@, 400, 500),
{
    count_in_range(status_by_code, 400, 500)
}

/// Requests answered 5xx.
pub fn red_5xx_count(status_by_code: &[StatusCodeCount]) -> (r: u64)
    requires
        count_all(status_by_code@) <= u64::MAX,
    ensures
        r == count_in(status_by_code@, 500, 600),
{
    count_in_range(status_by_code, 500, 600)
}

/// Requests answered with an error, 4xx or 5xx.
pub fn red_errors_total(status_by_code: &[StatusCodeCount]) -> (r: u64)
    requires
        count_all(status_by_code@) <= u64::MAX,
    ensures
        r == count_in(status_by_code@, 400, 500) + count_in(status_by_code@, 500, 600),
{
    proof {
        lemma_disjoint_ranges_le_all(status_by_code@, 400, 500, 600);
    }
    red_4xx_count(status_by_code) + red_5xx_count(status_by_code)
}

} // verus!
