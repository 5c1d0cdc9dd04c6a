use railway_rs::metrics::{red_4xx_count, red_5xx_count, red_errors_total, red_success_count, Metrics, MAX_PATHS};

#[test]
fn in_flight_guard_round_trips() {
    let mut m = Metrics::new();
    m.begin_request();
    assert_eq!(m.in_flight, 1);
    m.end_request();
    assert_eq!(m.in_flight, 0);
    assert_eq!(m.requests_total, 1);
}

#[test]
fn status_codes_are_tallied() {
    let mut m = Metrics::new();
    m.record_status(200);
    m.record_status(200);
    m.record_status(500);
    let codes = m.status_by_code();
    assert_eq!(codes.len(), 2);
    assert!(codes.iter().any(|s| s.code == 200 && s.count == 2));
    assert!(codes.iter().any(|s| s.code == 500 && s.count == 1));
    assert_eq!(codes[0].code, 200, "most frequent first");
}

#[test]
fn cache_counters_are_kept() {
    let mut m = Metrics::new();
    m.record_cache_hit();
    m.record_cache_miss();
    m.record_cache_miss();
    assert_eq!(m.cache_hits, 1);
    assert_eq!(m.cache_misses, 2);
}

#[test]
fn red_helpers_count_errors() {
    let mut m = Metrics::new();
    m.record_status(200);
    m.record_status(200);
    m.record_status(404);
    m.record_status(500);
    let codes = m.status_by_code();
    assert_eq!(red_success_count(&codes), 2);
    assert_eq!(red_4xx_count(&codes), 1);
    assert_eq!(red_5xx_count(&codes), 1);
    assert_eq!(red_errors_total(&codes), 2);
}

#[test]
fn paths_are_counted_busiest_first_and_capped() {
    let mut m = Metrics::new();
    m.record_path("/a");
    m.record_path("/b");
    m.record_path("/b");
    let paths = m.requests_by_path();
    assert_eq!(paths[0].path, "/b");
    assert_eq!(paths[0].count, 2);
    assert_eq!(paths[1].path, "/a");
    for i in 0..(MAX_PATHS + 5) {
        m.record_path(&format!("/p{i}"));
    }
    assert_eq!(m.requests_by_path().len(), MAX_PATHS);
    m.record_path("/a");
    assert!(m.requests_by_path().iter().any(|p| p.path == "/a" && p.count == 2), "tracked paths still count");
}

#[test]
fn sources_are_listed_by_name() {
    let mut m = Metrics::new();
    m.record_fanout();
    m.record_fanout_win("ntes");
    m.record_fanout_win("erail");
    m.record_fanout_win("ntes");
    m.record_source_failure("zeta");
    m.record_source_failure("alpha");
    m.record_fanout_overall_timeout();
    m.add_bytes(10);
    m.add_bytes(5);
    let wins = m.fanout_wins();
    assert_eq!(wins.len(), 2);
    assert_eq!((wins[0].source.as_str(), wins[0].wins), ("erail", 1));
    assert_eq!((wins[1].source.as_str(), wins[1].wins), ("ntes", 2));
    let fails = m.source_failures();
    assert_eq!(fails[0].source, "alpha");
    assert_eq!(fails[1].source, "zeta");
    assert_eq!(m.fanout_total, 1);
    assert_eq!(m.fanout_overall_timeouts, 1);
    assert_eq!(m.bytes_out, 15);
}
