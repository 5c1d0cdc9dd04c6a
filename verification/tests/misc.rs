use railway_rs::fuzzy::levenshtein;
use railway_rs::railyatri::minutes_to_hhmm;
use railway_rs::resilience::should_shed;
use railway_rs::sre::{
    availability_bad_count, availability_good_count, StatusCodeCount, FINE_PRINT_ERROR_BUDGET, FINE_PRINT_HEDGING,
    FINE_PRINT_SLI, FINE_PRINT_SLO, FIN_PRINT_ERROR_BUDGET, FIN_PRINT_FANOUT_NX2, FIN_PRINT_HEDGING, FIN_PRINT_SLI,
    FIN_PRINT_SLO, SATURATION_CPU_THRESHOLD_PER_MILLE, SATURATION_IN_FLIGHT_THRESHOLD, SATURATION_MEMORY_THRESHOLD_MB,
    SATURATION_RPS_THRESHOLD, SLO_AVAILABILITY_TARGET_PER_MILLE, SLO_ERROR_BUDGET_PER_MILLE, SLO_LATENCY_P95_MS,
    SLO_LATENCY_P95_TARGET_MS, SLO_LATENCY_P99_MS, SLO_LATENCY_P99_TARGET_MS, SLO_WINDOW_DAYS,
};

#[test]
fn minutes_format_and_overflow() {
    assert_eq!(minutes_to_hhmm(Some(0)), "00:00");
    assert_eq!(minutes_to_hhmm(Some(855)), "14:15");
    assert_eq!(minutes_to_hhmm(Some(1440 + 5)), "00:05");
    assert_eq!(minutes_to_hhmm(None), "");
    assert_eq!(minutes_to_hhmm(Some(-30)), "23:30");
}

#[test]
fn minutes_wrap_at_the_extremes() {
    assert_eq!(minutes_to_hhmm(Some(i64::MIN)), "05:52");
    assert_eq!(minutes_to_hhmm(Some(i64::MAX)), "18:07");
    assert_eq!(minutes_to_hhmm(Some(-1440)), "00:00");
}

#[test]
fn levenshtein_basics() {
    assert_eq!(levenshtein("kitten", "sitting"), 3);
    assert_eq!(levenshtein("abc", "abc"), 0);
    assert_eq!(levenshtein("abc", "abd"), 1);
}

#[test]
fn levenshtein_edges() {
    assert_eq!(levenshtein("", "abc"), 3);
    assert_eq!(levenshtein("abc", ""), 3);
    assert_eq!(levenshtein("flaw", "lawn"), 2);
    assert_eq!(levenshtein("ab", "ba"), levenshtein("ba", "ab"));
}

#[test]
fn load_shed_decision() {
    assert!(should_shed(801, 800, 0, 0));
    assert!(!should_shed(799, 800, 0, 0));
    assert!(should_shed(0, 800, 3_000_000_000, 2_000_000_000));
    assert!(!should_shed(0, 800, 1_000_000_000, 2_000_000_000));
}

#[test]
fn fine_print_aliases_match() {
    assert_eq!(FIN_PRINT_SLO, FINE_PRINT_SLO);
    assert_eq!(FIN_PRINT_SLI, FINE_PRINT_SLI);
    assert_eq!(FIN_PRINT_ERROR_BUDGET, FINE_PRINT_ERROR_BUDGET);
    assert_eq!(FIN_PRINT_HEDGING, FIN_PRINT_FANOUT_NX2);
    assert_eq!(FIN_PRINT_HEDGING, FINE_PRINT_HEDGING);
}

#[test]
fn slo_integer_constants() {
    assert_eq!(SLO_WINDOW_DAYS, 28);
    assert_eq!(SATURATION_IN_FLIGHT_THRESHOLD, 1000);
}

#[test]
fn availability_counts_split_good_and_bad() {
    let s = [
        StatusCodeCount { code: 200, count: 7 },
        StatusCodeCount { code: 304, count: 2 },
        StatusCodeCount { code: 404, count: 3 },
        StatusCodeCount { code: 502, count: 1 },
    ];
    assert_eq!(availability_good_count(&s), 9);
    assert_eq!(availability_bad_count(&s), 4);
    assert_eq!(availability_good_count(&[]), 0);
}

#[test]
fn slo_constants_are_sane() {
    let availability = SLO_AVAILABILITY_TARGET_PER_MILLE as f64 / 1000.0;
    let budget = SLO_ERROR_BUDGET_PER_MILLE as f64 / 1000.0;
    assert!((availability - 0.999).abs() < 1e-9);
    assert!((budget - 0.001).abs() < 1e-9);
    assert_eq!(SLO_WINDOW_DAYS, 28);
    assert_eq!(SLO_LATENCY_P95_TARGET_MS as f64, 800.0);
    assert_eq!(SLO_LATENCY_P99_TARGET_MS as f64, 2000.0);
    assert!(availability + budget - 1.0 < 1e-9);
}

#[test]
fn saturation_thresholds_are_sane() {
    assert!((SATURATION_CPU_THRESHOLD_PER_MILLE as f64 / 1000.0 - 0.80).abs() < 1e-9);
    assert_eq!(SATURATION_IN_FLIGHT_THRESHOLD, 1000);
    assert!(SATURATION_RPS_THRESHOLD as f64 > 0.0);
    assert!(SATURATION_MEMORY_THRESHOLD_MB as f64 > 0.0);
}

#[test]
fn slo_target_and_budget_make_the_whole() {
    assert_eq!(SLO_AVAILABILITY_TARGET_PER_MILLE + SLO_ERROR_BUDGET_PER_MILLE, 1000);
    assert_eq!(SLO_LATENCY_P95_MS, SLO_LATENCY_P95_TARGET_MS);
    assert_eq!(SLO_LATENCY_P99_MS, SLO_LATENCY_P99_TARGET_MS);
}
