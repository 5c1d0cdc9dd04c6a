//! Hedged fan-out over several live sources: which candidates are raced and
//! in what order, what each attempt's failure leads to, and the one error
//! reported when no candidate wins. The racing itself (futures, timers, the
//! concurrency permits) is driven by the caller.
use vstd::prelude::*;
use std::time::Duration;
use std::hash::{Hash, Hasher};
use crate::error::AppError;
use crate::failover::{available, entry_in, probe_step, Entry, Failover};
use crate::text::{decimal, join_with, push_decimal, push_joined, push_str, str_eq, string_of, strings_view};
use crate::error::message_of;

verus! {

/// Per-source budget of one attempt, in milliseconds.
pub const PER_SOURCE_TIMEOUT_MS: u64 = 5000;

/// Budget of the whole race, in milliseconds.
pub const OVERALL_TIMEOUT_MS: u64 = 10500;

/// Base pause before the single retry of a failed attempt, in milliseconds.
pub const RETRY_DELAY_MS: u64 = 200;

/// Upper bound (exclusive) of the jitter added to the retry pause, in
/// milliseconds.
pub const RETRY_JITTER_MAX_MS: u64 = 100;

/// Longest wait for a concurrency permit before an attempt gives up, in
/// milliseconds.
pub const PERMIT_WAIT_MS: u64 = 800;

/// What `Duration::as_nanos` gives for `Duration::from_millis(ms)`.
pub open spec fn millis_nanos(ms: u64) -> int {
    ms as int * 1_000_000
}

/// `Duration::from_millis`: a duration of `ms` milliseconds.
#[verifier::external_body]
pub(crate) fn duration_from_millis(ms: u64) -> (r: Duration)
    ensures
        crate::clock::duration_nanos(r) == millis_nanos(ms),
{
    Duration::from_millis(ms)
}

/// `DefaultHasher::new()` fed with `query`, then `metric`, and finished.
/// Nothing is claimed about the hash value.
#[verifier::external_body]
fn query_metric_hash(query: &str, metric: &str) -> u64 {
    let mut h = std::collections::hash_map::DefaultHasher::new();
    query.hash(&mut h);
    metric.hash(&mut h);
    h.finish()
}

/// The pause before retrying `metric` for `query`: 200 ms plus a jitter
/// below 100 ms taken from a hash of the two, so the same pair always
/// waits the same.
pub fn jitter_delay(query: &str, metric: &str) -> (r: Duration)
    ensures
        millis_nanos(RETRY_DELAY_MS) <= crate::clock::duration_nanos(r) < millis_nanos(
            (RETRY_DELAY_MS + RETRY_JITTER_MAX_MS) as u64,
        ),
{
    let h = query_metric_hash(query, metric);
    let jitter = h % RETRY_JITTER_MAX_MS;
    duration_from_millis(RETRY_DELAY_MS + jitter)
}

/// Position of the first label of `ordered` equal to `l`; the length where
/// there is none.
pub open spec fn label_pos(ordered: Seq<Seq<char>>, l: Seq<char>) -> int
    decreases ordered.len(),
{
    if ordered.len() == 0 {
        0
    } else if ordered[0] == l {
        0
    } else {
        1 + label_pos(ordered.drop_first(), l)
    }
}

/// The views of some labels.
pub open spec fn labels_view(s: Seq<&str>) -> Seq<Seq<char>> {
    s.map_values(|l: &str| l@)
}

/// `order` lists `i`.
pub open spec fn lists(order: Seq<usize>, i: int) -> bool {
    exists|j: int| 0 <= j < order.len() && #[trigger] order[j] == i
}

/// `order` lists each index below `n` exactly once, sorted by the key of the
/// index and, for equal keys, by the index itself.
pub open spec fn sorted_by_key(order: Seq<usize>, keys: Seq<int>, n: int) -> bool {
    &&& forall|j: int| 0 <= j < order.len() ==> #[trigger] order[j] < n
    &&& forall|i: int| 0 <= i < n ==> #[trigger] lists(order, i)
    &&& forall|j1: int, j2: int|
        0 <= j1 < j2 < order.len() ==> {
            let a = #[trigger] order[j1] as int;
            let b = #[trigger] order[j2] as int;
            keys[a] < keys[b] || (keys[a] == keys[b] && a < b)
        }
}

/// Position of the first label equal to `l`, the count where there is none.
fn first_pos(ordered: &[&str], l: &str) -> (r: usize)
    ensures
        r == label_pos(labels_view(ordered@), l@),
        r <= ordered@.len(),
{
    let ghost v = labels_view(ordered@);
    let mut j: usize = 0;
    proof {
        assert(v.skip(0) =~= v);
    }
    while j < ordered.len()
        invariant
            0 <= j <= ordered@.len(),
            v == labels_view(ordered@),
            label_pos(v, l@) == j + label_pos(v.skip(j as int), l@),
        decreases ordered@.len() - j,
    {
        proof {
            assert(v.skip(j as int).drop_first() =~= v.skip(j + 1));
            assert(v.skip(j as int)[0] == ordered@[j as int]@);
        }
        if str_eq(ordered[j], l) {
            return j;
        }
        j = j + 1;
    }
    proof {
        assert(v.skip(j as int).len() == 0);
    }
    j
}

/// Candidate positions in launch order: sorted by where each candidate's
/// label first appears in `ordered`, candidates with the same position in
/// their given order.
pub fn launch_order(labels: &[&str], ordered: &[&str]) -> (r: Vec<usize>)
    ensures
        sorted_by_key(
            r@,
            Seq::new(labels@.len(), |i: int| label_pos(labels_view(ordered@), labels@[i]@)),
            labels@.len() as int,
        ),
{
    let n = labels.len();
    let m = ordered.len();
    let ghost keys = Seq::new(labels@.len(), |i: int| label_pos(labels_view(ordered@), labels@[i]@));
    let mut k: Vec<usize> = Vec::new();
    let mut i: usize = 0;
    while i < n
        invariant
            0 <= i <= n,
            n == labels@.len(),
            m == ordered@.len(),
            keys == Seq::new(labels@.len(), |i: int| label_pos(labels_view(ordered@), labels@[i]@)),
            k@.len() == i,
            forall|t: int| 0 <= t < i ==> #[trigger] k@[t] == keys[t] && k@[t] <= m,
        decreases n - i,
    {
        let p = first_pos(ordered, labels[i]);
        k.push(p);
        i = i + 1;
    }
    let mut order: Vec<usize> = Vec::new();
    let mut v: usize = 0;
    proof {
        assert forall|t: int| 0 <= t < n implies #[trigger] keys[t] >= 0 by {
            assert(k@[t] == keys[t]);
        }
    }
    loop
        invariant_except_break
            forall|j: int| 0 <= j < order@.len() ==> #[trigger] order@[j] < n && keys[order@[j] as int] < v,
            forall|t: int| 0 <= t < n && keys[t] < v ==> #[trigger] lists(order@, t),
        invariant
            0 <= v <= m,
            forall|t: int| 0 <= t < n ==> #[trigger] keys[t] >= 0,
            keys == Seq::new(labels@.len(), |i: int| label_pos(labels_view(ordered@), labels@[i]@)),
            n == labels@.len(),
            m == ordered@.len(),
            k@.len() == n,
            forall|t: int| 0 <= t < n ==> #[trigger] k@[t] == keys[t] && k@[t] <= m,
            forall|j1: int, j2: int|
                0 <= j1 < j2 < order@.len() ==> {
                    let a = #[trigger] order@[j1] as int;
                    let b = #[trigger] order@[j2] as int;
                    keys[a] < keys[b] || (keys[a] == keys[b] && a < b)
                },
        ensures
            forall|j: int| 0 <= j < order@.len() ==> #[trigger] order@[j] < n,
            forall|t: int| 0 <= t < n ==> #[trigger] lists(order@, t),
            forall|j1: int, j2: int|
                0 <= j1 < j2 < order@.len() ==> {
                    let a = #[trigger] order@[j1] as int;
                    let b = #[trigger] order@[j2] as int;
                    keys[a] < keys[b] || (keys[a] == keys[b] && a < b)
                },
        decreases m - v,
    {
        let mut t: usize = 0;
        while t < n
            invariant
                0 <= t <= n,
                0 <= v <= m,
                keys == Seq::new(labels@.len(), |i: int| label_pos(labels_view(ordered@), labels@[i]@)),
                n == labels@.len(),
                k@.len() == n,
                forall|x: int| 0 <= x < n ==> #[trigger] k@[x] == keys[x] && k@[x] <= m,
                forall|j: int|
                    0 <= j < order@.len() ==> #[trigger] order@[j] < n && (keys[order@[j] as int] < v || (
                    keys[order@[j] as int] == v && order@[j] < t)),
                forall|x: int|
                    0 <= x < n && (keys[x] < v || (keys[x] == v && x < t)) ==> #[trigger] lists(order@, x),
                forall|j1: int, j2: int|
                    0 <= j1 < j2 < order@.len() ==> {
                        let a = #[trigger] order@[j1] as int;
                        let b = #[trigger] order@[j2] as int;
                        keys[a] < keys[b] || (keys[a] == keys[b] && a < b)
                    },
            decreases n - t,
        {
            if k[t] == v {
                let ghost before = order@;
                order.push(t);
                proof {
                    assert(order@[before.len() as int] == t);
                    assert forall|x: int|
                        0 <= x < n && (keys[x] < v || (keys[x] == v && x < t + 1)) implies #[trigger] lists(order@, x) by {
                        if x == t {
                            assert(order@[before.len() as int] == x);
                        } else {
                            assert(lists(before, x));
                            let j = choose|j: int| 0 <= j < before.len() && #[trigger] before[j] == x;
                            assert(order@[j] == x);
                        }
                    }
                }
            }
            t = t + 1;
        }
        if v == m {
            proof {
                assert forall|t: int| 0 <= t < n implies #[trigger] lists(order@, t) by {
                    assert(k@[t] == keys[t]);
                }
            }
            break;
        }
        v = v + 1;
    }
    order
}

/// The skip marks of a launch pass: each candidate in launch order is
/// checked against its circuit in turn (a check may turn a cooled circuit
/// half-open), and is skipped where its circuit is not available.
pub open spec fn skip_marks(
    m: Map<Seq<char>, Entry>,
    ls: Seq<Seq<char>>,
    now: u64,
    cooldown: u64,
) -> (Map<Seq<char>, Entry>, Seq<bool>)
    decreases ls.len(),
{
    if ls.len() == 0 {
        (m, Seq::empty())
    } else {
        let (m1, marks) = skip_marks(m, ls.drop_last(), now, cooldown);
        let l = ls.last();
        (
            m1.insert(l, probe_step(entry_in(m1, l), now, cooldown)),
            marks.push(!available(entry_in(m1, l), now, cooldown)),
        )
    }
}

/// The labels of the candidates, in launch order.
pub open spec fn in_order(labels: Seq<&str>, order: Seq<usize>) -> Seq<Seq<char>> {
    Seq::new(order.len(), |j: int| labels[order[j] as int]@)
}

/// The note recorded for a skipped candidate.
pub open spec fn skip_note(l: Seq<char>) -> Seq<char> {
    l + ": circuit open (cooldown)"@
}

/// Which candidates are raced, in order, and the notes of those skipped.
pub struct LaunchPlan {
    /// Positions of all candidates, in launch order.
    pub order: Vec<usize>,
    /// Positions of the candidates to race, in launch order.
    pub launch: Vec<usize>,
    /// One note per skipped candidate, in launch order.
    pub skipped: Vec<String>,
}

/// The launched positions and skip notes that marks give.
pub open spec fn plan_is(
    p: LaunchPlan,
    labels: Seq<&str>,
    order: Seq<usize>,
    marks: Seq<bool>,
) -> bool {
    &&& p.launch@ == launched(order, marks)
    &&& p.skipped@.map_values(|s: String| s@) == skipped_notes(labels, order, marks)
}

/// Positions not marked, in order.
pub open spec fn launched(order: Seq<usize>, marks: Seq<bool>) -> Seq<usize>
    decreases order.len(),
{
    if order.len() == 0 || marks.len() != order.len() {
        Seq::empty()
    } else if marks.last() {
        launched(order.drop_last(), marks.drop_last())
    } else {
        launched(order.drop_last(), marks.drop_last()).push(order.last())
    }
}

/// Notes of the marked positions, in order.
pub open spec fn skipped_notes(labels: Seq<&str>, order: Seq<usize>, marks: Seq<bool>) -> Seq<Seq<char>>
    decreases order.len(),
{
    if order.len() == 0 || marks.len() != order.len() {
        Seq::empty()
    } else if marks.last() {
        skipped_notes(labels, order.drop_last(), marks.drop_last()).push(skip_note(labels[order.last() as int]@))
    } else {
        skipped_notes(labels, order.drop_last(), marks.drop_last())
    }
}

/// The key of each candidate: where its label first appears in `ordered`.
pub open spec fn keys_for(labels: Seq<&str>, ordered: Seq<&str>) -> Seq<int> {
    Seq::new(labels.len(), |i: int| label_pos(labels_view(ordered), labels[i]@))
}

/// A launch pass marks each candidate it checks.
proof fn lemma_skip_marks_len(m: Map<Seq<char>, Entry>, ls: Seq<Seq<char>>, now: u64, cooldown: u64)
    ensures
        skip_marks(m, ls, now, cooldown).1.len() == ls.len(),
    decreases ls.len(),
{
    if ls.len() > 0 {
        lemma_skip_marks_len(m, ls.drop_last(), now, cooldown);
    }
}

/// Plan a race at clock reading `now`: candidates in healthy-first order
/// (the breaker's order, by first appearance of each label), each checked
/// against its circuit in that order; an open circuit skips its candidate
/// without any call, and leaves a note.
pub fn plan_launch_at(failover: &mut Failover, labels: &[&str], now: u64) -> (r: LaunchPlan)
    requires
        old(failover).wf(),
    ensures
        final(failover).wf(),
        final(failover)@.threshold == old(failover)@.threshold,
        final(failover)@.cooldown == old(failover)@.cooldown,
        exists|ord: Seq<&str>, p: Seq<int>|
            crate::failover::stable_order_by(
                labels@,
                old(failover)@.circuits,
                now,
                old(failover)@.cooldown,
                ord,
                p,
            ) && sorted_by_key(r.order@, keys_for(labels@, ord), labels@.len() as int),
        final(failover)@.circuits == skip_marks(
            old(failover)@.circuits,
            in_order(labels@, r.order@),
            now,
            old(failover)@.cooldown,
        ).0,
        plan_is(
            r,
            labels@,
            r.order@,
            skip_marks(old(failover)@.circuits, in_order(labels@, r.order@), now, old(failover)@.cooldown).1,
        ),
{
    let ordered = failover.ordered_at(labels, now);
    let order = launch_order(labels, ordered.as_slice());
    let ghost m0 = failover@.circuits;
    let ghost cd = failover@.cooldown;
    let ghost ls = in_order(labels@, order@);
    let mut launch: Vec<usize> = Vec::new();
    let mut skipped: Vec<String> = Vec::new();
    let mut j: usize = 0;
    proof {
        assert(ls.take(0) =~= Seq::<Seq<char>>::empty());
        assert(order@.take(0) =~= Seq::<usize>::empty());
        assert(skipped@.map_values(|s: String| s@) =~= Seq::<Seq<char>>::empty());
    }
    while j < order.len()
        invariant
            0 <= j <= order@.len(),
            failover.wf(),
            failover@.cooldown == cd,
            failover@.threshold == old(failover)@.threshold,
            m0 == old(failover)@.circuits,
            ls == in_order(labels@, order@),
            forall|x: int| 0 <= x < order@.len() ==> #[trigger] order@[x] < labels@.len(),
            failover@.circuits == skip_marks(m0, ls.take(j as int), now, cd).0,
            launch@ == launched(order@.take(j as int), skip_marks(m0, ls.take(j as int), now, cd).1),
            skipped@.map_values(|s: String| s@) == skipped_notes(
                labels@,
                order@.take(j as int),
                skip_marks(m0, ls.take(j as int), now, cd).1,
            ),
        decreases order@.len() - j,
    {
        let idx = order[j];
        let l = labels[idx];
        let ghost mj = skip_marks(m0, ls.take(j as int), now, cd);
        proof {
            lemma_skip_marks_len(m0, ls.take(j as int), now, cd);
            lemma_skip_marks_len(m0, ls.take(j + 1), now, cd);
            assert(ls.take(j + 1).drop_last() =~= ls.take(j as int));
            assert(ls.take(j + 1).last() == l@);
            assert(order@.take(j + 1).drop_last() =~= order@.take(j as int));
        }
        let skip = failover.should_skip_at(l, now);
        let ghost mk = skip_marks(m0, ls.take(j + 1), now, cd);
        proof {
            assert(mk.1.drop_last() =~= mj.1);
            assert(mk.1.last() == skip);
        }
        if skip {
            let mut note: Vec<char> = Vec::new();
            push_str(&mut note, l);
            push_str(&mut note, ": circuit open (cooldown)");
            let ghost sv = skipped@.map_values(|s: String| s@);
            let ns = string_of(note.as_slice());
            skipped.push(ns);
            proof {
                assert(skipped@.map_values(|s: String| s@) =~= sv.push(ns@));
            }
        } else {
            launch.push(idx);
        }
        j = j + 1;
    }
    proof {
        assert(ls.take(order@.len() as int) =~= ls);
        assert(order@.take(order@.len() as int) =~= order@);
    }
    LaunchPlan { order, launch, skipped }
}

/// Plan a race now: `plan_launch_at` at the breaker's current clock reading.
pub fn plan_launch(failover: &mut Failover, labels: &[&str]) -> (r: LaunchPlan)
    requires
        old(failover).wf(),
    ensures
        final(failover).wf(),
        final(failover)@.threshold == old(failover)@.threshold,
        final(failover)@.cooldown == old(failover)@.cooldown,
        exists|now: u64, ord: Seq<&str>, p: Seq<int>|
            {
                &&& crate::failover::stable_order_by(
                    labels@,
                    old(failover)@.circuits,
                    now,
                    old(failover)@.cooldown,
                    ord,
                    p,
                )
                &&& sorted_by_key(r.order@, keys_for(labels@, ord), labels@.len() as int)
                &&& final(failover)@.circuits == skip_marks(
                    old(failover)@.circuits,
                    in_order(labels@, r.order@),
                    now,
                    old(failover)@.cooldown,
                ).0
                &&& plan_is(
                    r,
                    labels@,
                    r.order@,
                    skip_marks(old(failover)@.circuits, in_order(labels@, r.order@), now, old(failover)@.cooldown).1,
                )
            },
{
    let now = failover.now();
    plan_launch_at(failover, labels, now)
}

/// The error of a race with no candidate at all.
pub fn no_candidates_error() -> (r: AppError)
    ensures
        r matches AppError::Internal(m) && m@ == "fanout: no candidates"@,
{
    AppError::internal("fanout: no candidates")
}

/// The error of a race whose candidates were all skipped.
pub open spec fn all_skipped_reason(skipped: Seq<Seq<char>>) -> Seq<char> {
    if skipped.len() == 0 {
        "all candidates skipped"@
    } else {
        "all candidates circuit-open: "@ + join_with(skipped, " | "@)
    }
}

/// The error of a race whose candidates were all skipped: a failure of
/// `all-sources` listing the skip notes.
pub fn all_skipped_error(skipped: &[String]) -> (r: AppError)
    ensures
        r matches AppError::SourceUnavailable { source, reason } && source@ == "all-sources"@ && reason@
            == all_skipped_reason(strings_view(skipped@)),
{
    let mut m: Vec<char> = Vec::new();
    if skipped.len() == 0 {
        push_str(&mut m, "all candidates skipped");
    } else {
        push_str(&mut m, "all candidates circuit-open: ");
        push_joined(&mut m, skipped, " | ");
    }
    AppError::source_unavailable("all-sources", string_of(m.as_slice()).as_str())
}

/// The error of an attempt that did not answer within its budget.
pub fn attempt_timeout_error(metric: &str) -> (r: AppError)
    ensures
        r matches AppError::SourceUnavailable { source, reason } && source@ == metric@ && reason@
            == "timeout after "@ + decimal(PER_SOURCE_TIMEOUT_MS as nat) + "ms"@,
{
    let mut m: Vec<char> = Vec::new();
    push_str(&mut m, "timeout after ");
    push_decimal(&mut m, PER_SOURCE_TIMEOUT_MS);
    push_str(&mut m, "ms");
    AppError::source_unavailable(metric, string_of(m.as_slice()).as_str())
}

/// The error of an attempt that got no concurrency permit in time. It is
/// back-pressure, not a health signal: it never trips the breaker.
pub fn permit_timeout_error(metric: &str) -> (r: AppError)
    ensures
        r matches AppError::SourceUnavailable { source, reason } && source@ == metric@ && reason@
            == "semaphore acquire timeout (fanout back-pressure)"@,
{
    AppError::source_unavailable(metric, "semaphore acquire timeout (fanout back-pressure)")
}

/// The error of a race that ran out of its overall budget.
pub fn overall_timeout_error(query: &str) -> (r: AppError)
    ensures
        r matches AppError::SourceUnavailable { source, reason } && source@ == "all-sources"@ && reason@
            == "fanout overall timeout after "@ + decimal(OVERALL_TIMEOUT_MS as nat) + "ms for '"@ + query@
            + "'"@,
{
    let mut m: Vec<char> = Vec::new();
    push_str(&mut m, "fanout overall timeout after ");
    push_decimal(&mut m, OVERALL_TIMEOUT_MS);
    push_str(&mut m, "ms for '");
    push_str(&mut m, query);
    push_str(&mut m, "'");
    AppError::source_unavailable("all-sources", string_of(m.as_slice()).as_str())
}

/// What follows a failed attempt.
#[derive(Debug, Clone, Copy, PartialEq, Eq, Structural)]
pub enum AttemptAction {
    /// Pause for the jitter delay and try the same source once more.
    Retry,
    /// Give the error up for this candidate; `trip` counts one failure
    /// against the source's circuit.
    Fail { trip: bool },
}

/// A live failure: the source was unreachable or broke. A "not found", a bad
/// request or a captcha says nothing about the source's health.
pub open spec fn is_live_failure(e: AppError) -> bool {
    e is SourceUnavailable || e is Internal
}

/// What follows a failure on attempt `attempt` (0 or 1).
pub open spec fn after_failure_spec(attempt: u32, e: AppError) -> AttemptAction {
    if is_live_failure(e) {
        if attempt == 0 { AttemptAction::Retry } else { AttemptAction::Fail { trip: true } }
    } else {
        AttemptAction::Fail { trip: false }
    }
}

/// A live failure is retried once, and the second one counts as a single
/// failure of the source; any other error ends the candidate at once and
/// never trips its circuit.
pub fn after_failure(attempt: u32, err: &AppError) -> (r: AttemptAction)
    ensures
        r == after_failure_spec(attempt, *err),
{
    let live = match err {
        AppError::SourceUnavailable { .. } => true,
        AppError::Internal(_) => true,
        _ => false,
    };
    if live {
        if attempt == 0 {
            AttemptAction::Retry
        } else {
            AttemptAction::Fail { trip: true }
        }
    } else {
        AttemptAction::Fail { trip: false }
    }
}

/// Two live failures of one candidate are one logical failure: the first is
/// retried, the second trips the circuit once.
pub proof fn law_one_trip_per_candidate(first: AppError, second: AppError)
    requires
        is_live_failure(first),
        is_live_failure(second),
    ensures
        after_failure_spec(0, first) == AttemptAction::Retry,
        after_failure_spec(1, second) == (AttemptAction::Fail { trip: true }),
{
}

/// A "not found" never trips a circuit and is never retried.
pub proof fn law_not_found_never_trips(attempt: u32, msg: String)
    ensures
        after_failure_spec(attempt, AppError::NotFound(msg)) == (AttemptAction::Fail { trip: false }),
{
}

/// The outcomes of the candidates that lost a race, as they come in.
pub struct FanoutTally {
    failures: Vec<String>,
    not_founds: Vec<String>,
    captcha: Option<AppError>,
}

/// A tally as plain values: failure notes, "not found" messages, and the
/// captcha challenge if one came.
pub struct TallyV {
    pub failures: Seq<Seq<char>>,
    pub not_founds: Seq<Seq<char>>,
    pub captcha: Option<AppError>,
}

impl View for FanoutTally {
    type V = TallyV;

    closed spec fn view(&self) -> TallyV {
        TallyV {
            failures: strings_view(self.failures@),
            not_founds: strings_view(self.not_founds@),
            captcha: self.captcha,
        }
    }
}

/// The note of a failed candidate: its source (or `source` where the error
/// names none) and the error's message.
pub open spec fn failure_note(e: AppError) -> Seq<char> {
    match e {
        AppError::SourceUnavailable { source, .. } => source@ + ": "@ + message_of(e),
        _ => "source"@ + ": "@ + message_of(e),
    }
}

/// The tally after one more outcome.
pub open spec fn noted_outcome(t: TallyV, e: AppError) -> TallyV {
    match e {
        AppError::NotFound(m) => TallyV { not_founds: t.not_founds.push(m@), ..t },
        AppError::CaptchaRequired(_) => TallyV { captcha: Some(e), ..t },
        _ => TallyV { failures: t.failures.push(failure_note(e)), ..t },
    }
}

/// The "not found" messages, marked as such.
pub open spec fn marked_not_founds(ms: Seq<Seq<char>>) -> Seq<Seq<char>> {
    ms.map_values(|m: Seq<char>| "not_found: "@ + m)
}

/// The one error of a race that nobody won: a captcha challenge wins; "not
/// found" everywhere is a clean `NotFound`; anything else is a failure of
/// `all-sources` listing every candidate's outcome.
pub open spec fn race_error_holds(t: TallyV, query: Seq<char>, r: AppError) -> bool {
    match t.captcha {
        Some(c) => r == c,
        None => if t.not_founds.len() > 0 && t.failures.len() == 0 {
            r matches AppError::NotFound(m) && m@ == join_with(t.not_founds, " | "@)
        } else {
            let all = t.failures + marked_not_founds(t.not_founds);
            r matches AppError::SourceUnavailable { source, reason } && source@ == "all-sources"@ && reason@
                == "fanout: "@ + decimal(all.len()) + " candidates failed for '"@ + query + "': "@ + join_with(
                all,
                " | "@,
            )
        },
    }
}

impl FanoutTally {
    /// A tally that starts from the notes of the skipped candidates.
    pub fn new(skipped: Vec<String>) -> (r: Self)
        ensures
            r@.failures == strings_view(skipped@),
            r@.not_founds == Seq::<Seq<char>>::empty(),
            r@.captcha is None,
    {
        let r = FanoutTally { failures: skipped, not_founds: Vec::new(), captcha: None };
        proof {
            assert(strings_view(r.not_founds@) =~= Seq::<Seq<char>>::empty());
        }
        r
    }

    /// Record a losing candidate's error.
    pub fn note(&mut self, err: AppError)
        ensures
            final(self)@ == noted_outcome(old(self)@, err),
    {
        let ghost e0 = err;
        let ghost f0 = self.failures@;
        let ghost n0 = self.not_founds@;
        match err {
            AppError::NotFound(m) => {
                self.not_founds.push(m);
                proof {
                    assert(strings_view(self.not_founds@) =~= strings_view(n0).push(m@));
                }
            },
            AppError::CaptchaRequired(c) => {
                self.captcha = Some(AppError::CaptchaRequired(c));
            },
            other => {
                let mut v: Vec<char> = Vec::new();
                match &other {
                    AppError::SourceUnavailable { source, .. } => push_str(&mut v, source.as_str()),
                    _ => push_str(&mut v, "source"),
                }
                push_str(&mut v, ": ");
                let msg = other.message();
                push_str(&mut v, msg.as_str());
                let note = string_of(v.as_slice());
                self.failures.push(note);
                proof {
                    assert(strings_view(self.failures@) =~= strings_view(f0).push(failure_note(e0)));
                }
            },
        }
    }

    /// The error to report once every candidate has lost.
    pub fn finish(self, query: &str) -> (r: AppError)
        ensures
            race_error_holds(self@, query@, r),
    {
        let FanoutTally { failures, not_founds, captcha } = self;
        if let Some(c) = captcha {
            return c;
        }
        if not_founds.len() > 0 && failures.len() == 0 {
            let mut m: Vec<char> = Vec::new();
            push_joined(&mut m, not_founds.as_slice(), " | ");
            return AppError::NotFound(string_of(m.as_slice()));
        }
        let mut all = failures;
        let ghost f0 = strings_view(all@);
        let mut i: usize = 0;
        while i < not_founds.len()
            invariant
                0 <= i <= not_founds@.len(),
                strings_view(all@) == f0 + marked_not_founds(strings_view(not_founds@)).take(i as int),
            decreases not_founds@.len() - i,
        {
            let mut v: Vec<char> = Vec::new();
            push_str(&mut v, "not_found: ");
            push_str(&mut v, not_founds[i].as_str());
            let ghost av = strings_view(all@);
            let s = string_of(v.as_slice());
            all.push(s);
            proof {
                assert(strings_view(all@) =~= av.push(s@));
                assert(marked_not_founds(strings_view(not_founds@)).take(i + 1) =~= marked_not_founds(
                    strings_view(not_founds@),
                ).take(i as int).push("not_found: "@ + not_founds@[i as int]@));
            }
            i = i + 1;
        }
        proof {
            assert(marked_not_founds(strings_view(not_founds@)).take(not_founds@.len() as int)
                =~= marked_not_founds(strings_view(not_founds@)));
        }
        let mut m: Vec<char> = Vec::new();
        push_str(&mut m, "fanout: ");
        push_decimal(&mut m, all.len() as u64);
        push_str(&mut m, " candidates failed for '");
        push_str(&mut m, query);
        push_str(&mut m, "': ");
        push_joined(&mut m, all.as_slice(), " | ");
        AppError::source_unavailable("all-sources", string_of(m.as_slice()).as_str())
    }
}

} // verus!
