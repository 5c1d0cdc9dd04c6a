//! Service-level objectives: the pattern notes shown beside the health
//! surfaces, and the request tallies the availability indicator is built on.
use vstd::prelude::*;

verus! {

/// Rolling window over which the SLO is evaluated, in days.
pub const SLO_WINDOW_DAYS: u32 = 28;

/// In-flight request saturation: above this the service should shed load.
pub const SATURATION_IN_FLIGHT_THRESHOLD: u64 = 1000;

/// Availability target, in thousandths of all requests: 999 of every 1000
/// must succeed (99.9 %).
pub const SLO_AVAILABILITY_TARGET_PER_MILLE: u64 = 999;

/// Error budget, in thousandths of all requests: what the availability
/// target leaves over (0.1 %).
pub const SLO_ERROR_BUDGET_PER_MILLE: u64 = 1;

/// Latency objective: p95 must stay below this many milliseconds.
pub const SLO_LATENCY_P95_TARGET_MS: u64 = 800;

/// Latency objective: p99 must stay below this many milliseconds.
pub const SLO_LATENCY_P99_TARGET_MS: u64 = 2000;

/// The p95 latency objective under its shorter name.
pub const SLO_LATENCY_P95_MS: u64 = SLO_LATENCY_P95_TARGET_MS;

/// The p99 latency objective under its shorter name.
pub const SLO_LATENCY_P99_MS: u64 = SLO_LATENCY_P99_TARGET_MS;

/// CPU saturation, in thousandths of one core: above 800 the host is
/// considered saturated.
pub const SATURATION_CPU_THRESHOLD_PER_MILLE: u64 = 800;

/// Memory saturation, in MiB: above this the process is under memory
/// pressure.
pub const SATURATION_MEMORY_THRESHOLD_MB: u64 = 2048;

/// Request-rate saturation, in requests per second, for capacity planning.
pub const SATURATION_RPS_THRESHOLD: u64 = 500;

pub const FIN_PRINT_SLO: &'static str = "SRE Pattern: Service Level Objective (SLO) — 99.9% availability over 28d rolling window; error budget 0.1% — burn-rate alerting [Google SRE Ch.4]";
pub const FINE_PRINT_SLO: &'static str = FIN_PRINT_SLO;
pub const FIN_PRINT_SLI: &'static str = "SRE Pattern: Service Level Indicator (SLI) — availability SLI = (2xx+3xx)/total, latency SLI from histogram p95/p99 [Google SRE Ch.4]";
pub const FINE_PRINT_SLI: &'static str = FIN_PRINT_SLI;
pub const FIN_PRINT_ERROR_BUDGET: &'static str = "SRE Pattern: Error Budget — 0.1% (1 - 99.9% SLO); burn rate = error_rate / budget; remaining = 1 - consumed; freeze releases when exhausted [Google SRE Ch.4]";
pub const FINE_PRINT_ERROR_BUDGET: &'static str = FIN_PRINT_ERROR_BUDGET;
pub const FIN_PRINT_FOUR_GOLDEN_SIGNALS: &'static str = "SRE Pattern: Four Golden Signals — Latency, Traffic, Errors, Saturation — the minimum to page on [Google SRE Ch.6]";
pub const FINE_PRINT_FOUR_GOLDEN_SIGNALS: &'static str = FIN_PRINT_FOUR_GOLDEN_SIGNALS;
pub const FIN_PRINT_RED: &'static str = "SRE Pattern: RED — Rate, Errors, Duration — request-scoped health for microservices (Tom Wilkie) [Google SRE Ch.6]";
pub const FINE_PRINT_RED: &'static str = FIN_PRINT_RED;
pub const FIN_PRINT_USE: &'static str = "SRE Pattern: USE — Utilization, Saturation, Errors — resource-scoped health for hosts/queues (Brendan Gregg) [Google SRE Ch.6]";
pub const FINE_PRINT_USE: &'static str = FIN_PRINT_USE;
pub const FIN_PRINT_CIRCUIT_BREAKER: &'static str = "SRE Pattern: Circuit Breaker — fail-fast when downstream error rate exceeds threshold; probe half-open after cooldown [Nygard Release It! / Google SRE Ch.22]";
pub const FINE_PRINT_CIRCUIT_BREAKER: &'static str = FIN_PRINT_CIRCUIT_BREAKER;
pub const FIN_PRINT_BULKHEAD: &'static str = "SRE Pattern: Bulkhead — isolate failure domains (thread pools, connection pools) so one slow source cannot sink the ship [Nygard / Google SRE Ch.22]";
pub const FINE_PRINT_BULKHEAD: &'static str = FIN_PRINT_BULKHEAD;
pub const FIN_PRINT_RETRY_WITH_JITTER: &'static str = "SRE Pattern: Retry with Jitter — exponential backoff + jitter prevents thundering herd; idempotent GETs only, capped at 2 attempts [Google SRE Ch.22]";
pub const FINE_PRINT_RETRY_WITH_JITTER: &'static str = FIN_PRINT_RETRY_WITH_JITTER;
pub const FIN_PRINT_TIMEOUT_BUDGET: &'static str = "SRE Pattern: Timeout Budget — per-request deadline propagation; connect 8s, request budgets fan out to upstreams so user never waits forever [Google SRE Ch.22]";
pub const FINE_PRINT_TIMEOUT_BUDGET: &'static str = FIN_PRINT_TIMEOUT_BUDGET;
pub const FIN_PRINT_HEDGING: &'static str = "SRE Pattern: Hedging / Fan-out N×2 — race N upstreams, cancel losers; p95 fan-out reduces tail latency without multiplying load [Google SRE Ch.22]";
pub const FINE_PRINT_HEDGING: &'static str = FIN_PRINT_HEDGING;
pub const FIN_PRINT_HEDGING_FANOUT: &'static str = FIN_PRINT_HEDGING;
pub const FINE_PRINT_HEDGING_FANOUT: &'static str = FIN_PRINT_HEDGING;
pub const FIN_PRINT_FANOUT_NX2: &'static str = FIN_PRINT_HEDGING;
pub const FINE_PRINT_FANOUT_NX2: &'static str = FIN_PRINT_HEDGING;
pub const FIN_PRINT_HEDGING_FAN_OUT_N_X2: &'static str = FIN_PRINT_HEDGING;
pub const FIN_PRINT_GRACEFUL_DEGRADATION: &'static str = "SRE Pattern: Graceful Degradation — serve stale cache or partial results when primaries fail; never fail a read that a fallback can answer [Google SRE Ch.22]";
pub const FINE_PRINT_GRACEFUL_DEGRADATION: &'static str = FIN_PRINT_GRACEFUL_DEGRADATION;
pub const FIN_PRINT_LOAD_SHEDDING: &'static str = "SRE Pattern: Load Shedding — when saturation thresholds breach, shed low-priority work (404 fast-path, 429/503) to preserve SLO [Google SRE Ch.23]";
pub const FINE_PRINT_LOAD_SHEDDING: &'static str = FIN_PRINT_LOAD_SHEDDING;
pub const FIN_PRINT_CAPACITY_PLANNING: &'static str = "SRE Pattern: Capacity Planning — model rps × latency × in_flight headroom; autoscale at 80% saturation, load-test before launch [Google SRE Ch.27]";
pub const FINE_PRINT_CAPACITY_PLANNING: &'static str = FIN_PRINT_CAPACITY_PLANNING;
pub const FIN_PRINT_OBSERVABILITY_PIPELINE: &'static str = "SRE Pattern: Observability Pipeline — Metrics (Prometheus) + Logs (ring) + Traces → Telemetry.sample() → /metrics & /rail-api/observability [Google SRE Ch.10]";
pub const FINE_PRINT_OBSERVABILITY_PIPELINE: &'static str = FIN_PRINT_OBSERVABILITY_PIPELINE;

/// How many responses carried one HTTP status code.
#[derive(Debug, Clone, Copy)]
pub struct StatusCodeCount {
    pub code: u16,
    pub count: u64,
}

/// Total count of the tallies whose code lies in `lo..hi`.
pub open spec fn count_in(s: Seq<StatusCodeCount>, lo: u16, hi: u16) -> nat
    decreases s.len(),
{
    if s.len() == 0 {
        0
    } else {
        count_in(s.drop_last(), lo, hi) + if lo <= s.last().code && s.last().code < hi { s.last().count as nat } else { 0 }
    }
}

/// Total count of all tallies.
pub open spec fn count_all(s: Seq<StatusCodeCount>) -> nat
    decreases s.len(),
{
    if s.len() == 0 { 0 } else { count_all(s.drop_last()) + s.last().count as nat }
}

/// A range's share never exceeds the whole.
pub proof fn lemma_count_in_le_all(s: Seq<StatusCodeCount>, lo: u16, hi: u16)
    ensures
        count_in(s, lo, hi) <= count_all(s),
    decreases s.len(),
{
    if s.len() > 0 {
        lemma_count_in_le_all(s.drop_last(), lo, hi);
    }
}

/// Prefix tallies never exceed the whole.
proof fn lemma_count_all_prefix(s: Seq<StatusCodeCount>, i: int)
    requires
        0 <= i <= s.len(),
    ensures
        count_all(s.take(i)) <= count_all(s),
    decreases s.len() - i,
{
    if i < s.len() {
        lemma_count_all_prefix(s, i + 1);
        assert(s.take(i + 1).drop_last() =~= s.take(i));
    } else {
        assert(s.take(i) =~= s);
    }
}

/// Sum of the counts whose code lies in `lo..hi`.
pub(crate) fn count_in_range(s: &[StatusCodeCount], lo: u16, hi: u16) -> (r: u64)
    requires
        count_all(s@) <= u64::MAX,
    ensures
        r == count_in(s@, lo, hi),
{
    let mut total: u64 = 0;
    let mut i: usize = 0;
    while i < s.len()
        invariant
            0 <= i <= s@.len(),
            count_all(s@) <= u64::MAX,
            total == count_in(s@.take(i as int), lo, hi),
        decreases s@.len() - i,
    {
        proof {
            assert(s@.take(i + 1).drop_last() =~= s@.take(i as int));
            lemma_count_in_le_all(s@.take(i + 1), lo, hi);
            lemma_count_all_prefix(s@, i + 1);
        }
        let c = s[i];
        if lo <= c.code && c.code < hi {
            total = total + c.count;
        }
        i = i + 1;
    }
    proof {
        assert(s@.take(s@.len() as int) =~= s@);
    }
    total
}

/// Sum of all counts.
fn count_total(s: &[StatusCodeCount]) -> (r: u64)
    requires
        count_all(s@) <= u64::MAX,
    ensures
        r == count_all(s@),
{
    let mut total: u64 = 0;
    let mut i: usize = 0;
    while i < s.len()
        invariant
            0 <= i <= s@.len(),
            count_all(s@) <= u64::MAX,
            total == count_all(s@.take(i as int)),
        decreases s@.len() - i,
    {
        proof {
            assert(s@.take(i + 1).drop_last() =~= s@.take(i as int));
            lemma_count_all_prefix(s@, i + 1);
        }
        total = total + s[i].count;
        i = i + 1;
    }
    proof {
        assert(s@.take(s@.len() as int) =~= s@);
    }
    total
}

/// Requests answered 2xx or 3xx.
pub fn availability_good_count(status_by_code: &[StatusCodeCount]) -> (r: u64)
    requires
        count_all(status_by_code@) <= u64::MAX,
    ensures
        r == count_in(status_by_code@, 200, 400),
{
    count_in_range(status_by_code, 200, 400)
}

/// Requests answered anything but 2xx or 3xx: the total less the good ones.
pub fn availability_bad_count(status_by_code: &[StatusCodeCount]) -> (r: u64)
    requires
        count_all(status_by_code@) <= u64::MAX,
    ensures
        r == count_all(status_by_code@) - count_in(status_by_code@, 200, 400),
{
    let total = count_total(status_by_code);
    let good = availability_good_count(status_by_code);
    proof {
        lemma_count_in_le_all(status_by_code@, 200, 400);
    }
    total - good
}

} // verus!
