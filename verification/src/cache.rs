//! Bounded TTL cache of JSON answers keyed by query strings.
//!
//! Expired entries are dropped lazily on read and swept on every write; when
//! the cache is full a new key evicts one other entry, so the number of
//! entries never exceeds the configured capacity. `get_stale` serves an
//! expired entry without extending it (stale-while-error grace).
//!
//! Time is the monotonic clock in nanoseconds since the cache was built; each
//! timed operation has an `_at` form that takes the reading as an argument.
use vstd::prelude::*;

pub mod keys;
use std::time::{Duration, Instant};
use serde_json::Value;
use crate::metrics::{lookup_counted, Metrics};
use crate::clock::{clamp_nanos, duration_nanos, duration_nanos_u64, instant_now, nanos_since};
use crate::keyed::{
    find_key, has_key, keys_unique, lemma_view_at, lemma_view_len, lemma_view_push, lemma_view_remove,
    lemma_view_set, table_view,
};

verus! {

#[verifier::external_type_specification]
#[verifier::external_body]
pub struct ExValue(Value);

/// `serde_json::Value` derives `Clone`: a clone is the same value.
pub assume_specification[ <Value as Clone>::clone ](v: &Value) -> (r: Value)
    ensures
        r == *v,
;

/// One cached answer and the clock reading (ns) at which it expires.
#[derive(Debug)]
pub struct CacheEntry {
    pub value: Value,
    pub expires_at: u64,
}

/// Abstract state of a cache.
pub struct CacheView {
    pub ttl: u64,
    pub max_entries: usize,
    pub entries: Map<Seq<char>, CacheEntry>,
}

/// Bounded TTL cache.
pub struct Cache {
    ttl: u64,
    max_entries: usize,
    origin: Instant,
    entries: Vec<(String, CacheEntry)>,
}

impl View for Cache {
    type V = CacheView;

    closed spec fn view(&self) -> CacheView {
        CacheView { ttl: self.ttl, max_entries: self.max_entries, entries: table_view(self.entries@) }
    }
}

/// Addition that stops at `u64::MAX`.
pub open spec fn sat_add(a: u64, b: u64) -> u64 {
    if a + b > u64::MAX { u64::MAX } else { (a + b) as u64 }
}

/// The entries that are still fresh at clock reading `now`.
pub open spec fn live_at(m: Map<Seq<char>, CacheEntry>, now: u64) -> Map<Seq<char>, CacheEntry> {
    Map::new(|k: Seq<char>| m.contains_key(k) && m[k].expires_at > now, |k: Seq<char>| m[k])
}

/// What a write of `key` leaves, given the live entries and the entry evicted
/// to make room (`victim`, only consulted when the cache is full and `key` is
/// new).
pub open spec fn after_write(
    live: Map<Seq<char>, CacheEntry>,
    max_entries: usize,
    key: Seq<char>,
    e: CacheEntry,
    victim: Seq<char>,
) -> Map<Seq<char>, CacheEntry> {
    if live.dom().len() >= max_entries && !live.contains_key(key) {
        live.remove(victim).insert(key, e)
    } else {
        live.insert(key, e)
    }
}

/// `victim` is a fair choice: it is a live entry whenever one must go.
pub open spec fn victim_ok(live: Map<Seq<char>, CacheEntry>, max_entries: usize, key: Seq<char>, victim: Seq<char>) -> bool {
    (live.dom().len() >= max_entries && !live.contains_key(key)) ==> live.contains_key(victim)
}

/// What a read of `key` at `now` answers and leaves: a fresh entry is
/// served, an expired one is dropped.
pub open spec fn read_outcome(
    m: Map<Seq<char>, CacheEntry>,
    key: Seq<char>,
    now: u64,
    r: Option<Value>,
    after: Map<Seq<char>, CacheEntry>,
) -> bool {
    &&& r == (if m.contains_key(key) && m[key].expires_at > now { Some(m[key].value) } else { None::<Value> })
    &&& after == (if m.contains_key(key) && m[key].expires_at <= now { m.remove(key) } else { m })
}

impl Cache {
    /// Distinct keys, at least one slot, and never more entries than slots.
    pub closed spec fn wf(&self) -> bool {
        &&& keys_unique(self.entries@)
        &&& self.max_entries >= 1
        &&& self.entries@.len() <= self.max_entries
    }

    /// The number of entries never exceeds the capacity.
    pub proof fn lemma_bounded(&self)
        requires
            self.wf(),
        ensures
            self@.entries.dom().finite(),
            self@.entries.dom().len() <= self@.max_entries,
            self@.max_entries >= 1,
    {
        lemma_view_len(self.entries@);
    }

    /// An empty cache with time-to-live `ttl` and room for 2048 entries.
    pub fn new(ttl: Duration) -> (r: Self)
        ensures
            r.wf(),
            r@.ttl == clamp_nanos(duration_nanos(ttl)),
            r@.max_entries == 2048,
            r@.entries == Map::<Seq<char>, CacheEntry>::empty(),
    {
        Self::with_capacity(ttl, 2048)
    }

    /// An empty cache with time-to-live `ttl` and room for `max_entries`
    /// entries (at least one).
    pub fn with_capacity(ttl: Duration, max_entries: usize) -> (r: Self)
        ensures
            r.wf(),
            r@.ttl == clamp_nanos(duration_nanos(ttl)),
            r@.max_entries == (if max_entries == 0 { 1 } else { max_entries }),
            r@.entries == Map::<Seq<char>, CacheEntry>::empty(),
    {
        let r = Cache {
            ttl: duration_nanos_u64(&ttl),
            max_entries: if max_entries == 0 { 1 } else { max_entries },
            origin: instant_now(),
            entries: Vec::new(),
        };
        proof {
            assert(table_view(r.entries@) =~= Map::<Seq<char>, CacheEntry>::empty());
        }
        r
    }

    /// Current clock reading, in nanoseconds since the cache was built.
    pub fn now(&self) -> u64 {
        nanos_since(&self.origin)
    }

    /// The value under `key` if it is still fresh at `now`. An expired entry
    /// is dropped.
    pub fn get_at(&mut self, key: &str, now: u64) -> (r: Option<Value>)
        requires
            old(self).wf(),
        ensures
            final(self).wf(),
            final(self)@.ttl == old(self)@.ttl,
            final(self)@.max_entries == old(self)@.max_entries,
            read_outcome(old(self)@.entries, key@, now, r, final(self)@.entries),
    {
        let k = key.to_owned();
        match find_key(&self.entries, &k) {
            Some(i) => {
                proof { lemma_view_at(self.entries@, i as int); }
                if self.entries[i].1.expires_at > now {
                    Some(self.entries[i].1.value.clone())
                } else {
                    let ghost before = self.entries@;
                    proof { lemma_view_remove(before, i as int); }
                    self.entries.remove(i);
                    None
                }
            },
            None => None,
        }
    }

    /// The value under `key` if it is still fresh now.
    pub fn get(&mut self, key: &str) -> (r: Option<Value>)
        requires
            old(self).wf(),
        ensures
            final(self).wf(),
            final(self)@.ttl == old(self)@.ttl,
            final(self)@.max_entries == old(self)@.max_entries,
            exists|now: u64| #[trigger] read_outcome(old(self)@.entries, key@, now, r, final(self)@.entries),
    {
        let now = self.now();
        self.get_at(key, now)
    }

    /// The value under `key` if it is still fresh at `now`, with the lookup
    /// counted in `metrics`: one hit where a value comes back, one miss
    /// otherwise (an expired entry is dropped, as in `get_at`).
    pub fn get_at_counted(&mut self, key: &str, now: u64, metrics: &mut Metrics) -> (r: Option<Value>)
        requires
            old(self).wf(),
        ensures
            final(self).wf(),
            final(self)@.ttl == old(self)@.ttl,
            final(self)@.max_entries == old(self)@.max_entries,
            read_outcome(old(self)@.entries, key@, now, r, final(self)@.entries),
            *final(metrics) == lookup_counted(*old(metrics), r is Some),
    {
        let r = self.get_at(key, now);
        if r.is_some() {
            metrics.record_cache_hit();
        } else {
            metrics.record_cache_miss();
        }
        r
    }

    /// The value under `key` if it is still fresh now, with the lookup
    /// counted in `metrics` as a hit or a miss.
    pub fn get_counted(&mut self, key: &str, metrics: &mut Metrics) -> (r: Option<Value>)
        requires
            old(self).wf(),
        ensures
            final(self).wf(),
            final(self)@.ttl == old(self)@.ttl,
            final(self)@.max_entries == old(self)@.max_entries,
            exists|now: u64| #[trigger] read_outcome(old(self)@.entries, key@, now, r, final(self)@.entries),
            *final(metrics) == lookup_counted(*old(metrics), r is Some),
    {
        let now = self.now();
        self.get_at_counted(key, now, metrics)
    }

    /// Drop every entry that has expired at `now`.
    fn sweep(&mut self, now: u64)
        requires
            old(self).wf(),
        ensures
            final(self).wf(),
            final(self)@.ttl == old(self)@.ttl,
            final(self)@.max_entries == old(self)@.max_entries,
            final(self)@.entries == live_at(old(self)@.entries, now),
    {
        let ghost orig = self.entries@;
        let ghost m0 = table_view(orig);
        let mut i: usize = self.entries.len();
        while i > 0
            invariant
                keys_unique(self.entries@),
                self.max_entries >= 1,
                self.entries@.len() <= self.max_entries,
                self.ttl == old(self).ttl,
                self.max_entries == old(self).max_entries,
                orig == old(self).entries@,
                keys_unique(orig),
                m0 == table_view(orig),
                0 <= i <= self.entries@.len(),
                i <= orig.len(),
                self.entries@.subrange(0, i as int) == orig.subrange(0, i as int),
                table_view(self.entries@) == Map::new(
                    |k: Seq<char>| m0.contains_key(k) && ((exists|j: int| 0 <= j < i && #[trigger] orig[j].0@ == k) || m0[k].expires_at > now),
                    |k: Seq<char>| m0[k],
                ),
            decreases i,
        {
            let ghost before = self.entries@;
            let ghost idx = (i - 1) as int;
            assert(before[idx] == orig[idx]) by {
                assert(before.subrange(0, i as int)[idx] == orig.subrange(0, i as int)[idx]);
            }
            proof { lemma_view_at(orig, idx); }
            if self.entries[i - 1].1.expires_at <= now {
                proof { lemma_view_remove(before, idx); }
                self.entries.remove(i - 1);
                proof {
                    assert(self.entries@.subrange(0, idx) =~= orig.subrange(0, idx));
                    let target = Map::new(
                        |k: Seq<char>| m0.contains_key(k) && ((exists|j: int| 0 <= j < idx && #[trigger] orig[j].0@ == k) || m0[k].expires_at > now),
                        |k: Seq<char>| m0[k],
                    );
                    assert forall|k: Seq<char>| #[trigger] table_view(self.entries@).contains_key(k) <==> target.contains_key(k) by {
                        if exists|j: int| 0 <= j < idx && #[trigger] orig[j].0@ == k {
                            let j = choose|j: int| 0 <= j < idx && #[trigger] orig[j].0@ == k;
                            assert(orig[j].0@ != orig[idx].0@);
                        }
                        if exists|j: int| 0 <= j < i && #[trigger] orig[j].0@ == k {
                            let j = choose|j: int| 0 <= j < i && #[trigger] orig[j].0@ == k;
                            if j == idx {
                                assert(k == orig[idx].0@);
                            } else {
                                assert(0 <= j < idx);
                            }
                        }
                    }
                    assert(table_view(self.entries@) =~= target);
                }
            } else {
                proof {
                    assert(self.entries@.subrange(0, idx) =~= orig.subrange(0, idx));
                    let target = Map::new(
                        |k: Seq<char>| m0.contains_key(k) && ((exists|j: int| 0 <= j < idx && #[trigger] orig[j].0@ == k) || m0[k].expires_at > now),
                        |k: Seq<char>| m0[k],
                    );
                    assert forall|k: Seq<char>| #[trigger] table_view(self.entries@).contains_key(k) <==> target.contains_key(k) by {
                        if exists|j: int| 0 <= j < i && #[trigger] orig[j].0@ == k {
                            let j = choose|j: int| 0 <= j < i && #[trigger] orig[j].0@ == k;
                            if j == idx {
                                assert(m0[k].expires_at > now);
                            } else {
                                assert(0 <= j < idx);
                            }
                        }
                    }
                    assert(table_view(self.entries@) =~= target);
                }
            }
            i = i - 1;
        }
        proof {
            assert forall|k: Seq<char>| #[trigger] table_view(self.entries@).contains_key(k) <==> live_at(m0, now).contains_key(k) by {
                if exists|j: int| 0 <= j < 0 && #[trigger] orig[j].0@ == k {
                    let j = choose|j: int| 0 <= j < 0 && #[trigger] orig[j].0@ == k;
                }
            }
            assert(table_view(self.entries@) =~= live_at(m0, now));
        }
    }

    /// Store `value` under `key` at clock reading `now`, expiring `ttl`
    /// later. Expired entries are swept first; when the cache is still full
    /// and `key` is new, one live entry is evicted to make room.
    pub fn set_with_ttl_at(&mut self, key: &str, value: Value, ttl: Duration, now: u64)
        requires
            old(self).wf(),
        ensures
            final(self).wf(),
            final(self)@.ttl == old(self)@.ttl,
            final(self)@.max_entries == old(self)@.max_entries,
            exists|victim: Seq<char>| {
                &&& victim_ok(live_at(old(self)@.entries, now), old(self)@.max_entries, key@, victim)
                &&& final(self)@.entries == #[trigger] after_write(
                    live_at(old(self)@.entries, now),
                    old(self)@.max_entries,
                    key@,
                    CacheEntry { value, expires_at: sat_add(now, clamp_nanos(duration_nanos(ttl))) },
                    victim,
                )
            },
    {
        let t = duration_nanos_u64(&ttl);
        self.write_at(key, value, t, now);
    }

    /// Store `value` under `key` now, expiring `ttl` later.
    pub fn set_with_ttl(&mut self, key: &str, value: Value, ttl: Duration)
        requires
            old(self).wf(),
        ensures
            final(self).wf(),
            final(self)@.ttl == old(self)@.ttl,
            final(self)@.max_entries == old(self)@.max_entries,
            exists|now: u64, victim: Seq<char>| {
                &&& victim_ok(live_at(old(self)@.entries, now), old(self)@.max_entries, key@, victim)
                &&& final(self)@.entries == #[trigger] after_write(
                    live_at(old(self)@.entries, now),
                    old(self)@.max_entries,
                    key@,
                    CacheEntry { value, expires_at: sat_add(now, clamp_nanos(duration_nanos(ttl))) },
                    victim,
                )
            },
    {
        let now = self.now();
        self.set_with_ttl_at(key, value, ttl, now);
    }

    /// Sweep, make room, and store `value` under `key` expiring `ttl` ns
    /// after `now`.
    fn write_at(&mut self, key: &str, value: Value, t: u64, now: u64)
        requires
            old(self).wf(),
        ensures
            final(self).wf(),
            final(self)@.ttl == old(self)@.ttl,
            final(self)@.max_entries == old(self)@.max_entries,
            exists|victim: Seq<char>| {
                &&& victim_ok(live_at(old(self)@.entries, now), old(self)@.max_entries, key@, victim)
                &&& final(self)@.entries == #[trigger] after_write(
                    live_at(old(self)@.entries, now),
                    old(self)@.max_entries,
                    key@,
                    CacheEntry { value, expires_at: sat_add(now, t) },
                    victim,
                )
            },
    {
        self.sweep(now);
        let ghost live = self@.entries;
        let k = key.to_owned();
        let found = find_key(&self.entries, &k);
        proof { lemma_view_len(self.entries@); }
        let ghost mut victim: Seq<char> = k@;
        if found.is_none() && self.entries.len() >= self.max_entries {
            proof {
                victim = self.entries@[0].0@;
                lemma_view_at(self.entries@, 0);
                lemma_view_remove(self.entries@, 0);
            }
            self.entries.remove(0);
        }
        let exp: u64 = if now > u64::MAX - t { u64::MAX } else { now + t };
        let e = CacheEntry { value, expires_at: exp };
        let ghost ge = e;
        match find_key(&self.entries, &k) {
            Some(i) => {
                let ghost before = self.entries@;
                let kk = self.entries[i].0.clone();
                proof { lemma_view_set(before, i as int, e); }
                self.entries.set(i, (kk, e));
                proof {
                    assert(self.entries@ =~= before.update(i as int, (before[i as int].0, ge)));
                }
            },
            None => {
                let ghost before = self.entries@;
                proof {
                    lemma_view_push(before, k, e);
                    lemma_view_len(before);
                }
                self.entries.push((k, e));
            },
        }
        proof {
            lemma_view_len(self.entries@);
            assert(victim_ok(live, self.max_entries, key@, victim));
            assert(self@.entries == after_write(live, self.max_entries, key@, ge, victim));
        }
    }

    /// Store `value` under `key` at `now` with the cache's own time-to-live.
    pub fn set_at(&mut self, key: &str, value: Value, now: u64)
        requires
            old(self).wf(),
        ensures
            final(self).wf(),
            final(self)@.ttl == old(self)@.ttl,
            final(self)@.max_entries == old(self)@.max_entries,
            exists|victim: Seq<char>| {
                &&& victim_ok(live_at(old(self)@.entries, now), old(self)@.max_entries, key@, victim)
                &&& final(self)@.entries == #[trigger] after_write(
                    live_at(old(self)@.entries, now),
                    old(self)@.max_entries,
                    key@,
                    CacheEntry { value, expires_at: sat_add(now, old(self)@.ttl) },
                    victim,
                )
            },
    {
        let t = self.ttl;
        self.write_at(key, value, t, now);
    }

    /// Store `value` under `key` now with the cache's own time-to-live.
    pub fn set(&mut self, key: &str, value: Value)
        requires
            old(self).wf(),
        ensures
            final(self).wf(),
            final(self)@.ttl == old(self)@.ttl,
            final(self)@.max_entries == old(self)@.max_entries,
            exists|now: u64, victim: Seq<char>| {
                &&& victim_ok(live_at(old(self)@.entries, now), old(self)@.max_entries, key@, victim)
                &&& final(self)@.entries == #[trigger] after_write(
                    live_at(old(self)@.entries, now),
                    old(self)@.max_entries,
                    key@,
                    CacheEntry { value, expires_at: sat_add(now, old(self)@.ttl) },
                    victim,
                )
            },
    {
        let now = self.now();
        self.set_at(key, value, now);
    }

    /// The value under `key` even if it has expired (stale-while-error
    /// grace); its expiry is left alone.
    pub fn get_stale(&self, key: &str) -> (r: Option<Value>)
        requires
            self.wf(),
        ensures
            r == (if self@.entries.contains_key(key@) { Some(self@.entries[key@].value) } else { None::<Value> }),
    {
        let k = key.to_owned();
        match find_key(&self.entries, &k) {
            Some(i) => {
                proof { lemma_view_at(self.entries@, i as int); }
                Some(self.entries[i].1.value.clone())
            },
            None => None,
        }
    }

    /// Forget `key`.
    pub fn remove(&mut self, key: &str)
        requires
            old(self).wf(),
        ensures
            final(self).wf(),
            final(self)@.ttl == old(self)@.ttl,
            final(self)@.max_entries == old(self)@.max_entries,
            final(self)@.entries == old(self)@.entries.remove(key@),
    {
        let k = key.to_owned();
        match find_key(&self.entries, &k) {
            Some(i) => {
                proof { lemma_view_remove(self.entries@, i as int); }
                self.entries.remove(i);
            },
            None => {
                proof {
                    assert(old(self)@.entries.remove(key@) =~= old(self)@.entries);
                }
            },
        }
    }

    /// Number of entries held, fresh or expired.
    pub fn len(&self) -> (r: usize)
        requires
            self.wf(),
        ensures
            r == self@.entries.dom().len(),
            r <= self@.max_entries,
    {
        proof { lemma_view_len(self.entries@); }
        self.entries.len()
    }

    /// Whether the cache holds no entry.
    pub fn is_empty(&self) -> (r: bool)
        requires
            self.wf(),
        ensures
            r == (self@.entries.dom().len() == 0),
    {
        self.len() == 0
    }

    /// Forget every entry.
    pub fn clear(&mut self)
        requires
            old(self).wf(),
        ensures
            final(self).wf(),
            final(self)@.ttl == old(self)@.ttl,
            final(self)@.max_entries == old(self)@.max_entries,
            final(self)@.entries == Map::<Seq<char>, CacheEntry>::empty(),
    {
        self.entries.clear();
        proof {
            assert(table_view(self.entries@) =~= Map::<Seq<char>, CacheEntry>::empty());
        }
    }
}


/// A read of a key just written, before its expiry, answers the written
/// value and changes nothing.
pub proof fn law_read_after_write(
    live: Map<Seq<char>, CacheEntry>,
    max_entries: usize,
    key: Seq<char>,
    e: CacheEntry,
    victim: Seq<char>,
    read_at: u64,
)
    requires
        read_at < e.expires_at,
    ensures
        read_outcome(
            after_write(live, max_entries, key, e, victim),
            key,
            read_at,
            Some(e.value),
            after_write(live, max_entries, key, e, victim),
        ),
{
}

/// A read at or after a key's expiry answers nothing and drops the key.
pub proof fn law_expired_read_misses(
    live: Map<Seq<char>, CacheEntry>,
    max_entries: usize,
    key: Seq<char>,
    e: CacheEntry,
    victim: Seq<char>,
    read_at: u64,
)
    requires
        read_at >= e.expires_at,
    ensures
        read_outcome(
            after_write(live, max_entries, key, e, victim),
            key,
            read_at,
            None,
            after_write(live, max_entries, key, e, victim).remove(key),
        ),
{
}

/// Writing one key leaves every other live key as it was, except the single
/// entry evicted when a full cache takes a new key; expired keys are gone.
pub proof fn law_keys_independent(
    m: Map<Seq<char>, CacheEntry>,
    now: u64,
    max_entries: usize,
    key: Seq<char>,
    e: CacheEntry,
    victim: Seq<char>,
    other: Seq<char>,
)
    requires
        other != key,
    ensures
        after_write(live_at(m, now), max_entries, key, e, victim).contains_key(other) ==> {
            &&& m.contains_key(other)
            &&& m[other].expires_at > now
            &&& after_write(live_at(m, now), max_entries, key, e, victim)[other] == m[other]
        },
        (m.contains_key(other) && m[other].expires_at > now && (other != victim
            || !(live_at(m, now).dom().len() >= max_entries && !live_at(m, now).contains_key(key))))
            ==> after_write(live_at(m, now), max_entries, key, e, victim).contains_key(other),
{
}

/// A cache never holds more entries than its capacity, and a write into a
/// cache within capacity stays within it.
pub proof fn law_bounded(
    live: Map<Seq<char>, CacheEntry>,
    max_entries: usize,
    key: Seq<char>,
    e: CacheEntry,
    victim: Seq<char>,
)
    requires
        live.dom().finite(),
        live.dom().len() <= max_entries,
        max_entries >= 1,
        victim_ok(live, max_entries, key, victim),
    ensures
        after_write(live, max_entries, key, e, victim).dom().finite(),
        after_write(live, max_entries, key, e, victim).dom().len() <= max_entries,
{
    if live.dom().len() >= max_entries && !live.contains_key(key) {
        assert(live.remove(victim).dom() == live.dom().remove(victim));
        assert(live.remove(victim).insert(key, e).dom() == live.dom().remove(victim).insert(key));
    } else if live.contains_key(key) {
        assert(live.insert(key, e).dom() =~= live.dom());
    } else {
        assert(live.insert(key, e).dom() == live.dom().insert(key));
    }
}

} // verus!
