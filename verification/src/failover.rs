//! Per-source circuit breaker with flip-flop failover.
//!
//! After `threshold` consecutive live-source failures a circuit opens: the
//! source is skipped for `cooldown` without any outbound call. When the
//! cooldown has elapsed the next availability check flips it to half-open
//! and lets one probe through; a success closes it again, a failure re-opens
//! it at once. A "not found" answer is not a failure: callers only report
//! real outages.
//!
//! Time is read from a monotonic clock as nanoseconds since the breaker was
//! built; every operation has a `_at` form that takes that reading as an
//! argument and states exactly what it does for it.
use vstd::prelude::*;
use std::time::{Duration, Instant};
use crate::clock::{duration_from_secs, clamp_nanos, duration_nanos, duration_nanos_u64, instant_now, nanos_since};
use crate::text::{seq_lt, string_lt, lemma_seq_lt_total, lemma_seq_lt_transitive};
use crate::keyed::{find_key, has_key, keys_unique, lemma_view_at, lemma_view_push, lemma_view_set, table_view};

verus! {

/// State of one circuit.
#[derive(Debug, Clone, Copy, PartialEq, Eq, Structural)]
pub enum State {
    Closed,
    Open,
    HalfOpen,
}

/// What the breaker remembers about one source.
#[derive(Debug, Clone, Copy, PartialEq, Eq, Structural)]
pub struct Entry {
    pub consecutive_failures: u32,
    pub state: State,
    /// Clock reading (ns) at which the circuit last opened.
    pub opened_at: Option<u64>,
}

/// Observability row for one source.
#[derive(Debug, Clone)]
pub struct Snapshot {
    pub source: String,
    pub state: State,
    pub consecutive_failures: u32,
    pub available: bool,
    /// Whole seconds since the circuit opened, if it ever opened.
    pub open_secs: Option<u64>,
}

/// A source nobody has reported on yet.
pub open spec fn fresh() -> Entry {
    Entry { consecutive_failures: 0, state: State::Closed, opened_at: None }
}

/// The entry for `k`, a fresh one when unknown.
pub open spec fn entry_in(m: Map<Seq<char>, Entry>, k: Seq<char>) -> Entry {
    if m.contains_key(k) { m[k] } else { fresh() }
}

/// Time since `opened`, zero if the reading lies before it.
pub open spec fn elapsed(opened: u64, now: u64) -> int {
    if now >= opened { now - opened } else { 0 }
}

/// The cooldown of an opened circuit has run out.
pub open spec fn cooled(e: Entry, now: u64, cooldown: u64) -> bool {
    match e.opened_at {
        Some(o) => elapsed(o, now) >= cooldown,
        None => false,
    }
}

/// Whether a call may go to a source in this state.
pub open spec fn available(e: Entry, now: u64, cooldown: u64) -> bool {
    match e.state {
        State::Closed => true,
        State::HalfOpen => true,
        State::Open => cooled(e, now, cooldown),
    }
}

/// An availability check: an open circuit whose cooldown ran out turns
/// half-open.
pub open spec fn probe_step(e: Entry, now: u64, cooldown: u64) -> Entry {
    if e.state == State::Open && cooled(e, now, cooldown) {
        Entry { consecutive_failures: e.consecutive_failures, state: State::HalfOpen, opened_at: e.opened_at }
    } else {
        e
    }
}

/// `u32` addition that stops at the maximum.
pub open spec fn sat_inc(n: u32) -> u32 {
    if n == u32::MAX { n } else { (n + 1) as u32 }
}

/// A reported live-source failure.
pub open spec fn failure_step(e: Entry, now: u64, threshold: u32) -> Entry {
    if e.state == State::HalfOpen {
        Entry { consecutive_failures: threshold, state: State::Open, opened_at: Some(now) }
    } else if sat_inc(e.consecutive_failures) >= threshold && e.state == State::Closed {
        Entry { consecutive_failures: sat_inc(e.consecutive_failures), state: State::Open, opened_at: Some(now) }
    } else {
        Entry { consecutive_failures: sat_inc(e.consecutive_failures), state: e.state, opened_at: e.opened_at }
    }
}

/// Abstract state of a breaker.
pub struct FailoverView {
    pub threshold: u32,
    pub cooldown: u64,
    pub circuits: Map<Seq<char>, Entry>,
}

/// Per-source circuit breaker.
pub struct Failover {
    threshold: u32,
    cooldown: u64,
    origin: Instant,
    entries: Vec<(String, Entry)>,
}

/// Every circuit that is not closed remembers when it opened.
pub open spec fn entry_ok(e: Entry) -> bool {
    e.state != State::Closed ==> e.opened_at is Some
}

impl View for Failover {
    type V = FailoverView;

    closed spec fn view(&self) -> FailoverView {
        FailoverView { threshold: self.threshold, cooldown: self.cooldown, circuits: table_view(self.entries@) }
    }
}

/// Rank of a candidate in the failover order: available sources first, then
/// fewer consecutive failures.
pub open spec fn order_key(m: Map<Seq<char>, Entry>, now: u64, cooldown: u64, s: Seq<char>) -> (int, int) {
    let e = entry_in(m, s);
    (if available(e, now, cooldown) { 0int } else { 1int }, e.consecutive_failures as int)
}

/// Lexicographic order on (class, failures, input position).
pub open spec fn rank_lt(a: (int, int), ia: int, b: (int, int), ib: int) -> bool {
    a.0 < b.0 || (a.0 == b.0 && (a.1 < b.1 || (a.1 == b.1 && ia < ib)))
}

/// `p` lists every index below `n` exactly once.
pub open spec fn is_permutation(p: Seq<int>, n: int) -> bool {
    &&& p.len() == n
    &&& forall|j: int| 0 <= j < n ==> 0 <= #[trigger] p[j] < n
    &&& forall|j1: int, j2: int| 0 <= j1 < n && 0 <= j2 < n && j1 != j2 ==> #[trigger] p[j1] != #[trigger] p[j2]
}

/// `r` is `c` rearranged by `p`, in strictly increasing rank.
pub open spec fn stable_order_by(
    c: Seq<&str>,
    m: Map<Seq<char>, Entry>,
    now: u64,
    cooldown: u64,
    r: Seq<&str>,
    p: Seq<int>,
) -> bool {
    &&& is_permutation(p, c.len() as int)
    &&& r.len() == c.len()
    &&& forall|j: int| 0 <= j < r.len() ==> #[trigger] r[j] == c[p[j]]
    &&& forall|j1: int, j2: int|
        0 <= j1 < j2 < r.len() ==> rank_lt(
            order_key(m, now, cooldown, c[#[trigger] p[j1]]@),
            p[j1],
            order_key(m, now, cooldown, c[#[trigger] p[j2]]@),
            p[j2],
        )
}

/// Whole seconds in `ns` nanoseconds.
pub open spec fn whole_secs(ns: int) -> int {
    ns / 1_000_000_000
}

/// The observability row of one circuit.
pub open spec fn snapshot_row(k: Seq<char>, e: Entry, now: u64, cooldown: u64, r: Snapshot) -> bool {
    &&& r.source@ == k
    &&& r.state == e.state
    &&& r.consecutive_failures == e.consecutive_failures
    &&& r.available == available(e, now, cooldown)
    &&& r.open_secs == match e.opened_at {
        Some(o) => Some(whole_secs(elapsed(o, now)) as u64),
        None => None::<u64>,
    }
}

/// `r` lists one row per known circuit, in strictly increasing source order.
pub open spec fn snapshot_of(m: Map<Seq<char>, Entry>, now: u64, cooldown: u64, r: Seq<Snapshot>) -> bool {
    &&& forall|j: int| 0 <= j < r.len() ==> m.contains_key(#[trigger] r[j].source@)
        && snapshot_row(r[j].source@, m[r[j].source@], now, cooldown, r[j])
    &&& forall|k: Seq<char>| #[trigger] m.contains_key(k) ==> exists|j: int| 0 <= j < r.len() && #[trigger] r[j].source@ == k
    &&& forall|j1: int, j2: int| 0 <= j1 < j2 < r.len() ==> seq_lt(#[trigger] r[j1].source@, #[trigger] r[j2].source@)
}

/// Rows in strictly increasing source order.
pub open spec fn rows_sorted(r: Seq<Snapshot>) -> bool {
    forall|j1: int, j2: int| 0 <= j1 < j2 < r.len() ==> seq_lt(#[trigger] r[j1].source@, #[trigger] r[j2].source@)
}

/// Insert `row` into sorted `out` where it keeps it sorted; returns the
/// position it went to.
fn insert_row(out: &mut Vec<Snapshot>, row: Snapshot) -> (pos: usize)
    requires
        rows_sorted(old(out)@),
        forall|j: int| 0 <= j < old(out)@.len() ==> #[trigger] old(out)@[j].source@ != row.source@,
    ensures
        pos <= old(out)@.len(),
        final(out)@ == old(out)@.insert(pos as int, row),
        rows_sorted(final(out)@),
{
    let mut pos: usize = 0;
    while pos < out.len() && !string_lt(&row.source, &out[pos].source)
        invariant
            0 <= pos <= out@.len(),
            forall|j: int| 0 <= j < pos ==> !seq_lt(row.source@, #[trigger] out@[j].source@),
        decreases out@.len() - pos,
    {
        pos = pos + 1;
    }
    let ghost old_out = out@;
    proof {
        let new_out = old_out.insert(pos as int, row);
        assert forall|j1: int, j2: int| 0 <= j1 < j2 < new_out.len() implies seq_lt(#[trigger] new_out[j1].source@, #[trigger] new_out[j2].source@) by {
            if j2 < pos {
                assert(new_out[j1] == old_out[j1] && new_out[j2] == old_out[j2]);
            } else if j1 > pos {
                assert(new_out[j1] == old_out[j1 - 1] && new_out[j2] == old_out[j2 - 1]);
            } else if j2 == pos {
                assert(new_out[j1] == old_out[j1]);
                assert(!seq_lt(row.source@, old_out[j1].source@));
                lemma_seq_lt_total(row.source@, old_out[j1].source@);
            } else if j1 == pos {
                assert(new_out[j2] == old_out[j2 - 1]);
                assert(seq_lt(row.source@, old_out[pos as int].source@));
                if j2 - 1 > pos {
                    lemma_seq_lt_transitive(row.source@, old_out[pos as int].source@, old_out[j2 - 1].source@);
                }
            } else {
                assert(new_out[j1] == old_out[j1]);
                assert(new_out[j2] == old_out[j2 - 1]);
            }
        }
    }
    out.insert(pos, row);
    pos
}

impl Failover {
    /// Keys are distinct, the threshold is positive and every circuit that
    /// is not closed remembers when it opened.
    pub closed spec fn wf(&self) -> bool {
        &&& self.threshold >= 1
        &&& keys_unique(self.entries@)
        &&& forall|i: int| 0 <= i < self.entries@.len() ==> entry_ok(#[trigger] self.entries@[i].1)
    }

    /// A breaker that opens after `threshold` failures (at least one) and
    /// stays open for `cooldown`.
    pub fn new(threshold: u32, cooldown: Duration) -> (r: Self)
        ensures
            r.wf(),
            r@.threshold == (if threshold == 0 { 1 } else { threshold }),
            r@.cooldown == clamp_nanos(duration_nanos(cooldown)),
            r@.circuits == Map::<Seq<char>, Entry>::empty(),
    {
        let t = if threshold == 0 { 1 } else { threshold };
        let r = Failover { threshold: t, cooldown: duration_nanos_u64(&cooldown), origin: instant_now(), entries: Vec::new() };
        proof {
            assert(table_view(r.entries@) =~= Map::<Seq<char>, Entry>::empty());
        }
        r
    }

    /// Three failures open a circuit for thirty seconds.
    pub fn with_defaults() -> (r: Self)
        ensures
            r.wf(),
            r@.threshold == 3,
            r@.cooldown == 30_000_000_000,
            r@.circuits == Map::<Seq<char>, Entry>::empty(),
    {
        Self::new(3, duration_from_secs(30))
    }

    /// Current clock reading, in nanoseconds since the breaker was built.
    pub fn now(&self) -> u64 {
        nanos_since(&self.origin)
    }

    /// Position of `source` in the table, inserting a fresh entry when absent.
    fn slot(&mut self, source: &str) -> (r: usize)
        requires
            old(self).wf(),
        ensures
            final(self).wf(),
            final(self)@.threshold == old(self)@.threshold,
            final(self)@.cooldown == old(self)@.cooldown,
            r < final(self).entries@.len(),
            final(self).entries@[r as int].0@ == source@,
            final(self).entries@[r as int].1 == entry_in(old(self)@.circuits, source@),
            final(self)@.circuits == old(self)@.circuits.insert(source@, entry_in(old(self)@.circuits, source@)),
    {
        let key = source.to_owned();
        match find_key(&self.entries, &key) {
            Some(i) => {
                proof {
                    lemma_view_at(self.entries@, i as int);
                    assert(self@.circuits.insert(source@, self@.circuits[source@]) =~= self@.circuits);
                }
                i
            },
            None => {
                let ghost before = self.entries@;
                proof {
                    lemma_view_push(before, key, fresh());
                    assert(!self@.circuits.contains_key(source@));
                }
                self.entries.push((key, Entry { consecutive_failures: 0, state: State::Closed, opened_at: None }));
                proof {
                    assert(self.entries@ == before.push((key, fresh())));
                }
                self.entries.len() - 1
            },
        }
    }

    /// Replace the entry at `i`.
    fn store(&mut self, i: usize, e: Entry)
        requires
            old(self).wf(),
            i < old(self).entries@.len(),
            entry_ok(e),
        ensures
            final(self).wf(),
            final(self)@.threshold == old(self)@.threshold,
            final(self)@.cooldown == old(self)@.cooldown,
            final(self).entries@.len() == old(self).entries@.len(),
            final(self).entries@[i as int].0@ == old(self).entries@[i as int].0@,
            final(self)@.circuits == old(self)@.circuits.insert(old(self).entries@[i as int].0@, e),
    {
        let ghost before = self.entries@;
        let key = self.entries[i].0.clone();
        proof {
            lemma_view_set(before, i as int, e);
        }
        self.entries.set(i, (key, e));
        proof {
            assert(self.entries@ =~= before.update(i as int, (before[i as int].0, e)));
            assert forall|j: int| 0 <= j < self.entries@.len() implies entry_ok(#[trigger] self.entries@[j].1) by {
                if j != i {
                    assert(self.entries@[j] == before[j]);
                }
            }
        }
    }

    /// Whether `source` may be called at clock reading `now`. An open circuit
    /// whose cooldown has run out turns half-open and lets the call through.
    pub fn is_available_at(&mut self, source: &str, now: u64) -> (r: bool)
        requires
            old(self).wf(),
        ensures
            final(self).wf(),
            final(self)@.threshold == old(self)@.threshold,
            final(self)@.cooldown == old(self)@.cooldown,
            r == available(entry_in(old(self)@.circuits, source@), now, old(self)@.cooldown),
            final(self)@.circuits == old(self)@.circuits.insert(
                source@,
                probe_step(entry_in(old(self)@.circuits, source@), now, old(self)@.cooldown),
            ),
    {
        let i = self.slot(source);
        let e = self.entries[i].1;
        match e.state {
            State::Closed => true,
            State::HalfOpen => true,
            State::Open => {
                match e.opened_at {
                    Some(o) => {
                        let el: u64 = if now >= o { now - o } else { 0 };
                        if el >= self.cooldown {
                            let ne = Entry { consecutive_failures: e.consecutive_failures, state: State::HalfOpen, opened_at: e.opened_at };
                            self.store(i, ne);
                            proof {
                                assert(self@.circuits =~= old(self)@.circuits.insert(source@, ne));
                            }
                            true
                        } else {
                            false
                        }
                    },
                    None => false,
                }
            },
        }
    }

    /// Whether `source` may be called right now.
    pub fn is_available(&mut self, source: &str) -> (r: bool)
        requires
            old(self).wf(),
        ensures
            final(self).wf(),
            final(self)@.threshold == old(self)@.threshold,
            final(self)@.cooldown == old(self)@.cooldown,
            exists|now: u64| {
                &&& r == available(entry_in(old(self)@.circuits, source@), now, old(self)@.cooldown)
                &&& final(self)@.circuits == old(self)@.circuits.insert(
                    source@,
                    probe_step(entry_in(old(self)@.circuits, source@), now, old(self)@.cooldown),
                )
            },
    {
        let now = self.now();
        self.is_available_at(source, now)
    }

    /// True when the circuit says "skip this source" at clock reading `now`.
    pub fn should_skip_at(&mut self, source: &str, now: u64) -> (r: bool)
        requires
            old(self).wf(),
        ensures
            final(self).wf(),
            final(self)@.threshold == old(self)@.threshold,
            final(self)@.cooldown == old(self)@.cooldown,
            r == !available(entry_in(old(self)@.circuits, source@), now, old(self)@.cooldown),
            final(self)@.circuits == old(self)@.circuits.insert(
                source@,
                probe_step(entry_in(old(self)@.circuits, source@), now, old(self)@.cooldown),
            ),
    {
        !self.is_available_at(source, now)
    }

    /// True when the circuit says "skip this source" right now.
    pub fn should_skip(&mut self, source: &str) -> (r: bool)
        requires
            old(self).wf(),
        ensures
            final(self).wf(),
            final(self)@.threshold == old(self)@.threshold,
            final(self)@.cooldown == old(self)@.cooldown,
            exists|now: u64| {
                &&& r == !available(entry_in(old(self)@.circuits, source@), now, old(self)@.cooldown)
                &&& final(self)@.circuits == old(self)@.circuits.insert(
                    source@,
                    probe_step(entry_in(old(self)@.circuits, source@), now, old(self)@.cooldown),
                )
            },
    {
        let now = self.now();
        self.should_skip_at(source, now)
    }

    /// A success closes the circuit and resets its failure count.
    pub fn record_success(&mut self, source: &str)
        requires
            old(self).wf(),
        ensures
            final(self).wf(),
            final(self)@.threshold == old(self)@.threshold,
            final(self)@.cooldown == old(self)@.cooldown,
            final(self)@.circuits == old(self)@.circuits.insert(source@, fresh()),
    {
        let i = self.slot(source);
        let ghost mid = self@.circuits;
        self.store(i, Entry { consecutive_failures: 0, state: State::Closed, opened_at: None });
        proof {
            assert(self@.circuits =~= old(self)@.circuits.insert(source@, fresh()));
        }
    }

    /// A live-source failure observed at clock reading `now`. A half-open
    /// circuit re-opens at once; a closed one opens when the count reaches the
    /// threshold.
    pub fn record_failure_at(&mut self, source: &str, now: u64)
        requires
            old(self).wf(),
        ensures
            final(self).wf(),
            final(self)@.threshold == old(self)@.threshold,
            final(self)@.cooldown == old(self)@.cooldown,
            final(self)@.circuits == old(self)@.circuits.insert(
                source@,
                failure_step(entry_in(old(self)@.circuits, source@), now, old(self)@.threshold),
            ),
    {
        let i = self.slot(source);
        let e = self.entries[i].1;
        let t = self.threshold;
        let ne = if e.state == State::HalfOpen {
            Entry { consecutive_failures: t, state: State::Open, opened_at: Some(now) }
        } else {
            let f = if e.consecutive_failures == u32::MAX { u32::MAX } else { e.consecutive_failures + 1 };
            if f >= t && e.state == State::Closed {
                Entry { consecutive_failures: f, state: State::Open, opened_at: Some(now) }
            } else {
                Entry { consecutive_failures: f, state: e.state, opened_at: e.opened_at }
            }
        };
        proof {
            assert(entry_ok(e));
        }
        self.store(i, ne);
        proof {
            assert(self@.circuits =~= old(self)@.circuits.insert(source@, ne));
        }
    }

    /// A live-source failure observed now.
    pub fn record_failure(&mut self, source: &str)
        requires
            old(self).wf(),
        ensures
            final(self).wf(),
            final(self)@.threshold == old(self)@.threshold,
            final(self)@.cooldown == old(self)@.cooldown,
            exists|now: u64|
                final(self)@.circuits == old(self)@.circuits.insert(
                    source@,
                    #[trigger] failure_step(entry_in(old(self)@.circuits, source@), now, old(self)@.threshold),
                ),
    {
        let now = self.now();
        self.record_failure_at(source, now);
    }

    /// The entry the breaker holds for `source`, fresh when unknown.
    fn lookup(&self, source: &str) -> (r: Entry)
        requires
            self.wf(),
        ensures
            r == entry_in(self@.circuits, source@),
    {
        let key = source.to_owned();
        match find_key(&self.entries, &key) {
            Some(i) => {
                proof { lemma_view_at(self.entries@, i as int); }
                self.entries[i].1
            },
            None => Entry { consecutive_failures: 0, state: State::Closed, opened_at: None },
        }
    }

    /// Rank of `source` at clock reading `now`: (unavailable, failures).
    fn rank_of(&self, source: &str, now: u64) -> (r: (u64, u64))
        requires
            self.wf(),
        ensures
            r.0 as int == order_key(self@.circuits, now, self@.cooldown, source@).0,
            r.1 as int == order_key(self@.circuits, now, self@.cooldown, source@).1,
    {
        let e = self.lookup(source);
        let avail = match e.state {
            State::Closed => true,
            State::HalfOpen => true,
            State::Open => match e.opened_at {
                Some(o) => {
                    let el: u64 = if now >= o { now - o } else { 0 };
                    el >= self.cooldown
                },
                None => false,
            },
        };
        (if avail { 0 } else { 1 }, e.consecutive_failures as u64)
    }

    /// Flip-flop ordering at clock reading `now`: a stable rearrangement of
    /// `candidates` with available sources first, then fewer consecutive
    /// failures, then the caller's own order.
    pub fn ordered_at<'a>(&self, candidates: &[&'a str], now: u64) -> (r: Vec<&'a str>)
        requires
            self.wf(),
        ensures
            exists|p: Seq<int>| stable_order_by(candidates@, self@.circuits, now, self@.cooldown, r@, p),
    {
        let ghost m = self@.circuits;
        let ghost cd = self@.cooldown;
        let ghost c = candidates@;
        let n = candidates.len();
        let mut out: Vec<&'a str> = Vec::new();
        let mut keys: Vec<(u64, u64)> = Vec::new();
        let ghost mut p: Seq<int> = Seq::empty();
        let mut i: usize = 0;
        while i < n
            invariant
                self.wf(),
                n == c.len(),
                c == candidates@,
                m == self@.circuits,
                cd == self@.cooldown,
                0 <= i <= n,
                out@.len() == i,
                keys@.len() == i,
                p.len() == i,
                forall|j: int| 0 <= j < i ==> 0 <= #[trigger] p[j] < i,
                forall|j1: int, j2: int| 0 <= j1 < i && 0 <= j2 < i && j1 != j2 ==> #[trigger] p[j1] != #[trigger] p[j2],
                forall|j: int| 0 <= j < i ==> #[trigger] out@[j] == c[p[j]],
                forall|j: int| 0 <= j < i ==> (#[trigger] keys@[j]).0 as int == order_key(m, now, cd, c[p[j]]@).0
                    && keys@[j].1 as int == order_key(m, now, cd, c[p[j]]@).1,
                forall|j1: int, j2: int| 0 <= j1 < j2 < i ==> rank_lt(
                    order_key(m, now, cd, c[#[trigger] p[j1]]@),
                    p[j1],
                    order_key(m, now, cd, c[#[trigger] p[j2]]@),
                    p[j2],
                ),
            decreases n - i,
        {
            let k = self.rank_of(candidates[i], now);
            let mut pos: usize = 0;
            while pos < out.len() && (keys[pos].0 < k.0 || (keys[pos].0 == k.0 && keys[pos].1 <= k.1))
                invariant
                    0 <= pos <= out@.len(),
                    out@.len() == i,
                    keys@.len() == i,
                    forall|j: int| 0 <= j < pos ==> (#[trigger] keys@[j]).0 < k.0 || (keys@[j].0 == k.0 && keys@[j].1 <= k.1),
                decreases out@.len() - pos,
            {
                pos = pos + 1;
            }
            let ghost old_p = p;
            let ghost old_out = out@;
            let ghost old_keys = keys@;
            out.insert(pos, candidates[i]);
            keys.insert(pos, k);
            proof {
                p = old_p.insert(pos as int, i as int);
                assert forall|j: int| 0 <= j <= i implies 0 <= #[trigger] p[j] <= i by {
                    if j < pos { assert(p[j] == old_p[j]); } else if j > pos { assert(p[j] == old_p[j - 1]); }
                }
                assert forall|j1: int, j2: int| 0 <= j1 <= i && 0 <= j2 <= i && j1 != j2 implies #[trigger] p[j1] != #[trigger] p[j2] by {
                    if j1 != pos && j2 != pos {
                        let o1 = if j1 < pos { j1 } else { j1 - 1 };
                        let o2 = if j2 < pos { j2 } else { j2 - 1 };
                        assert(p[j1] == old_p[o1]);
                        assert(p[j2] == old_p[o2]);
                    } else if j1 == pos {
                        let o2 = if j2 < pos { j2 } else { j2 - 1 };
                        assert(p[j2] == old_p[o2]);
                    } else {
                        let o1 = if j1 < pos { j1 } else { j1 - 1 };
                        assert(p[j1] == old_p[o1]);
                    }
                }
                assert forall|j: int| 0 <= j <= i implies #[trigger] out@[j] == c[p[j]] by {
                    if j < pos { assert(out@[j] == old_out[j]); } else if j > pos { assert(out@[j] == old_out[j - 1]); }
                }
                assert forall|j: int| 0 <= j <= i implies (#[trigger] keys@[j]).0 as int == order_key(m, now, cd, c[p[j]]@).0
                    && keys@[j].1 as int == order_key(m, now, cd, c[p[j]]@).1 by {
                    if j < pos { assert(keys@[j] == old_keys[j]); } else if j > pos { assert(keys@[j] == old_keys[j - 1]); }
                }
                assert forall|j1: int, j2: int| 0 <= j1 < j2 <= i implies rank_lt(
                    order_key(m, now, cd, c[#[trigger] p[j1]]@),
                    p[j1],
                    order_key(m, now, cd, c[#[trigger] p[j2]]@),
                    p[j2],
                ) by {
                    if j2 < pos {
                        assert(p[j1] == old_p[j1] && p[j2] == old_p[j2]);
                    } else if j1 > pos {
                        assert(p[j1] == old_p[j1 - 1] && p[j2] == old_p[j2 - 1]);
                    } else if j2 == pos {
                        assert(p[j1] == old_p[j1]);
                        assert(keys@[j1] == old_keys[j1]);
                    } else if j1 == pos {
                        assert(p[j2] == old_p[j2 - 1]);
                        assert(keys@[j2] == old_keys[j2 - 1]);
                        // the element now at j2 sits at or after the first larger key
                        assert(pos < old_keys.len());
                        let q = j2 - 1;
                        if q > pos as int {
                            // pos (old index) precedes q, so its rank is below q's
                            assert(rank_lt(
                                order_key(m, now, cd, c[old_p[pos as int]]@),
                                old_p[pos as int],
                                order_key(m, now, cd, c[old_p[q]]@),
                                old_p[q],
                            ));
                        }
                    } else {
                        assert(p[j1] == old_p[j1]);
                        assert(p[j2] == old_p[j2 - 1]);
                        if j1 < j2 - 1 {
                        } else {
                        }
                    }
                }
            }
            i = i + 1;
        }
        proof {
            assert(stable_order_by(candidates@, self@.circuits, now, self@.cooldown, out@, p));
        }
        out
    }

    /// Flip-flop ordering now.
    pub fn ordered<'a>(&self, candidates: &[&'a str]) -> (r: Vec<&'a str>)
        requires
            self.wf(),
        ensures
            exists|now: u64, p: Seq<int>| stable_order_by(candidates@, self@.circuits, now, self@.cooldown, r@, p),
    {
        let now = self.now();
        self.ordered_at(candidates, now)
    }

    /// The observability row of table position `i`.
    fn row_at(&self, i: usize, now: u64) -> (r: Snapshot)
        requires
            self.wf(),
            i < self.entries@.len(),
        ensures
            r.source@ == self.entries@[i as int].0@,
            self@.circuits.contains_key(r.source@),
            snapshot_row(r.source@, self@.circuits[r.source@], now, self@.cooldown, r),
    {
        let key = self.entries[i].0.clone();
        let e = self.entries[i].1;
        proof { lemma_view_at(self.entries@, i as int); }
        let avail = match e.state {
            State::Closed => true,
            State::HalfOpen => true,
            State::Open => match e.opened_at {
                Some(o) => {
                    let el: u64 = if now >= o { now - o } else { 0 };
                    el >= self.cooldown
                },
                None => false,
            },
        };
        let open_secs = match e.opened_at {
            Some(o) => {
                let el: u64 = if now >= o { now - o } else { 0 };
                Some(el / 1_000_000_000)
            },
            None => None,
        };
        Snapshot { source: key, state: e.state, consecutive_failures: e.consecutive_failures, available: avail, open_secs }
    }

    /// Observability rows at clock reading `now`: one per known source, in
    /// increasing order of source name.
    pub fn snapshot_at(&self, now: u64) -> (r: Vec<Snapshot>)
        requires
            self.wf(),
        ensures
            snapshot_of(self@.circuits, now, self@.cooldown, r@),
    {
        let ghost m = self@.circuits;
        let mut out: Vec<Snapshot> = Vec::new();
        let mut i: usize = 0;
        while i < self.entries.len()
            invariant
                self.wf(),
                m == self@.circuits,
                0 <= i <= self.entries@.len(),
                forall|j: int| 0 <= j < out@.len() ==> m.contains_key(#[trigger] out@[j].source@)
                    && snapshot_row(out@[j].source@, m[out@[j].source@], now, self@.cooldown, out@[j]),
                forall|e: int| 0 <= e < i ==> exists|j: int| 0 <= j < out@.len() && #[trigger] out@[j].source@ == (#[trigger] self.entries@[e]).0@,
                forall|j: int| 0 <= j < out@.len() ==> exists|e: int| 0 <= e < i && #[trigger] out@[j].source@ == (#[trigger] self.entries@[e]).0@,
                rows_sorted(out@),
            decreases self.entries@.len() - i,
        {
            let row = self.row_at(i, now);
            let ghost old_out = out@;
            proof {
                assert forall|j: int| 0 <= j < old_out.len() implies #[trigger] old_out[j].source@ != row.source@ by {
                    let ee = choose|ee: int| 0 <= ee < i && #[trigger] old_out[j].source@ == (#[trigger] self.entries@[ee]).0@;
                    assert(self.entries@[ee].0@ != self.entries@[i as int].0@);
                }
            }
            let pos = insert_row(&mut out, row);
            proof {
                assert forall|ee: int| 0 <= ee < i + 1 implies exists|j: int| 0 <= j < out@.len() && #[trigger] out@[j].source@ == (#[trigger] self.entries@[ee]).0@ by {
                    if ee < i {
                        let j = choose|j: int| 0 <= j < old_out.len() && #[trigger] old_out[j].source@ == (#[trigger] self.entries@[ee]).0@;
                        if j < pos { assert(out@[j] == old_out[j]); } else { assert(out@[j + 1] == old_out[j]); }
                    } else {
                        assert(out@[pos as int] == row);
                    }
                }
                assert forall|j: int| 0 <= j < out@.len() implies exists|ee: int| 0 <= ee < i + 1 && #[trigger] out@[j].source@ == (#[trigger] self.entries@[ee]).0@ by {
                    if j != pos {
                        let oj = if j < pos { j } else { j - 1 };
                        assert(out@[j] == old_out[oj]);
                        let ee = choose|ee: int| 0 <= ee < i && #[trigger] old_out[oj].source@ == (#[trigger] self.entries@[ee]).0@;
                    } else {
                        assert(out@[j].source@ == self.entries@[i as int].0@);
                    }
                }
                assert forall|j: int| 0 <= j < out@.len() implies m.contains_key(#[trigger] out@[j].source@)
                    && snapshot_row(out@[j].source@, m[out@[j].source@], now, self@.cooldown, out@[j]) by {
                    if j != pos {
                        let oj = if j < pos { j } else { j - 1 };
                        assert(out@[j] == old_out[oj]);
                    }
                }
            }
            i = i + 1;
        }
        proof {
            assert forall|k: Seq<char>| #[trigger] m.contains_key(k) implies exists|j: int| 0 <= j < out@.len() && #[trigger] out@[j].source@ == k by {
                let e = choose|e: int| 0 <= e < self.entries@.len() && #[trigger] self.entries@[e].0@ == k;
                let j = choose|j: int| 0 <= j < out@.len() && #[trigger] out@[j].source@ == (#[trigger] self.entries@[e]).0@;
            }
        }
        out
    }

    /// Observability rows now.
    pub fn snapshot(&self) -> (r: Vec<Snapshot>)
        requires
            self.wf(),
        ensures
            exists|now: u64| #[trigger] snapshot_of(self@.circuits, now, self@.cooldown, r@),
    {
        let now = self.now();
        self.snapshot_at(now)
    }


}


/// Failures reported at the given clock readings, in order.
pub open spec fn failures_from(e: Entry, times: Seq<u64>, threshold: u32) -> Entry
    decreases times.len(),
{
    if times.len() == 0 {
        e
    } else {
        failure_step(failures_from(e, times.drop_last(), threshold), times.last(), threshold)
    }
}

/// A success closes a circuit whatever its state: the source is available at
/// every clock reading and its failure count is zero.
pub proof fn law_success_closes(m: Map<Seq<char>, Entry>, k: Seq<char>, now: u64, cooldown: u64)
    ensures
        available(entry_in(m.insert(k, fresh()), k), now, cooldown),
        entry_in(m.insert(k, fresh()), k).consecutive_failures == 0,
        entry_in(m.insert(k, fresh()), k).state == State::Closed,
{
}

/// Fewer than `threshold` failures keep a fresh circuit closed (and the source
/// available); the `threshold`-th failure opens it at that failure's reading,
/// and it then stays unavailable until the cooldown has elapsed.
pub proof fn law_trips_at_threshold(times: Seq<u64>, threshold: u32, now: u64, cooldown: u64)
    requires
        1 <= threshold < u32::MAX,
        times.len() <= threshold,
    ensures
        times.len() < threshold ==> {
            &&& failures_from(fresh(), times, threshold).state == State::Closed
            &&& failures_from(fresh(), times, threshold).consecutive_failures == times.len()
            &&& available(failures_from(fresh(), times, threshold), now, cooldown)
        },
        times.len() == threshold ==> {
            &&& failures_from(fresh(), times, threshold).state == State::Open
            &&& failures_from(fresh(), times, threshold).opened_at == Some(times.last())
            &&& (available(failures_from(fresh(), times, threshold), now, cooldown)
                <==> elapsed(times.last(), now) >= cooldown)
        },
    decreases times.len(),
{
    if times.len() > 0 {
        law_trips_at_threshold(times.drop_last(), threshold, now, cooldown);
    }
}

/// An availability check never changes a closed circuit, and leaves an open
/// circuit open (and unavailable) until its cooldown has run out.
pub proof fn law_open_until_cooldown(e: Entry, now: u64, cooldown: u64)
    requires
        e.state == State::Open,
        e.opened_at is Some,
    ensures
        available(e, now, cooldown) <==> elapsed(e.opened_at->0, now) >= cooldown,
        !available(e, now, cooldown) ==> probe_step(e, now, cooldown) == e,
        available(e, now, cooldown) ==> probe_step(e, now, cooldown).state == State::HalfOpen,
{
}

/// A failure of the half-open probe re-opens the circuit at once: with a
/// positive cooldown the source is unavailable at the moment of the failure.
pub proof fn law_half_open_failure_reopens(e: Entry, probe_at: u64, fail_at: u64, threshold: u32, cooldown: u64)
    requires
        e.state == State::Open,
        cooled(e, probe_at, cooldown),
        cooldown > 0,
    ensures
        probe_step(e, probe_at, cooldown).state == State::HalfOpen,
        failure_step(probe_step(e, probe_at, cooldown), fail_at, threshold).state == State::Open,
        failure_step(probe_step(e, probe_at, cooldown), fail_at, threshold).opened_at == Some(fail_at),
        !available(failure_step(probe_step(e, probe_at, cooldown), fail_at, threshold), fail_at, cooldown),
{
}

/// In a failover order, every available source comes before every skipped
/// one, and among sources with the same availability and failure count the
/// caller's order is kept.
pub proof fn law_ordered_available_first(
    c: Seq<&str>,
    m: Map<Seq<char>, Entry>,
    now: u64,
    cooldown: u64,
    r: Seq<&str>,
    p: Seq<int>,
)
    requires
        stable_order_by(c, m, now, cooldown, r, p),
    ensures
        forall|j1: int, j2: int|
            0 <= j1 < j2 < r.len() && #[trigger] available(entry_in(m, r[j2]@), now, cooldown)
                ==> #[trigger] available(entry_in(m, r[j1]@), now, cooldown),
        forall|j1: int, j2: int|
            0 <= j1 < j2 < r.len() && order_key(m, now, cooldown, #[trigger] r[j1]@) == order_key(m, now, cooldown, #[trigger] r[j2]@)
                ==> p[j1] < p[j2],
{
    assert forall|j1: int, j2: int|
        0 <= j1 < j2 < r.len() && #[trigger] available(entry_in(m, r[j2]@), now, cooldown)
            implies #[trigger] available(entry_in(m, r[j1]@), now, cooldown) by {
        assert(r[j1] == c[p[j1]]);
        assert(r[j2] == c[p[j2]]);
    }
    assert forall|j1: int, j2: int|
        0 <= j1 < j2 < r.len() && order_key(m, now, cooldown, #[trigger] r[j1]@) == order_key(m, now, cooldown, #[trigger] r[j2]@)
            implies p[j1] < p[j2] by {
        assert(r[j1] == c[p[j1]]);
        assert(r[j2] == c[p[j2]]);
    }
}

} // verus!