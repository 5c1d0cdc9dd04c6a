use railway_rs::failover::{Failover, State};
use std::time::Duration;

#[test]
fn closed_is_available() {
    let mut f = Failover::new(3, Duration::from_secs(30));
    assert!(f.is_available("ntes"));
    assert!(!f.should_skip("ntes"));
}

#[test]
fn trips_after_threshold() {
    let mut f = Failover::new(3, Duration::from_secs(30));
    f.record_failure("ntes");
    f.record_failure("ntes");
    assert!(f.is_available("ntes"));
    f.record_failure("ntes");
    assert!(!f.is_available("ntes"));
    assert!(f.should_skip("ntes"));
    let snap = f.snapshot();
    let ntes = snap.iter().find(|s| s.source == "ntes").unwrap();
    assert_eq!(ntes.state, State::Open);
    assert_eq!(ntes.consecutive_failures, 3);
}

#[test]
fn success_resets_counter() {
    let mut f = Failover::new(3, Duration::from_secs(30));
    f.record_failure("ntes");
    f.record_failure("ntes");
    f.record_success("ntes");
    assert!(f.is_available("ntes"));
    let snap = f.snapshot();
    let ntes = snap.iter().find(|s| s.source == "ntes").unwrap();
    assert_eq!(ntes.consecutive_failures, 0);
    assert_eq!(ntes.state, State::Closed);
}

#[test]
fn half_open_probe_on_cooldown_expiry() {
    let mut f = Failover::new(2, Duration::from_millis(30));
    f.record_failure_at("ntes", 0);
    f.record_failure_at("ntes", 0);
    assert!(!f.is_available_at("ntes", 10_000_000));
    assert!(f.is_available_at("ntes", 40_000_000));
    let snap = f.snapshot_at(40_000_000);
    let ntes = snap.iter().find(|s| s.source == "ntes").unwrap();
    assert_eq!(ntes.state, State::HalfOpen);
    f.record_success("ntes");
    assert!(f.is_available_at("ntes", 41_000_000));
    assert_eq!(f.snapshot_at(41_000_000).iter().find(|s| s.source == "ntes").unwrap().state, State::Closed);
}

#[test]
fn half_open_failure_reopens_immediately() {
    let mut f = Failover::new(2, Duration::from_millis(20));
    f.record_failure_at("ntes", 0);
    f.record_failure_at("ntes", 0);
    assert!(f.is_available_at("ntes", 30_000_000));
    f.record_failure_at("ntes", 30_000_000);
    assert!(!f.is_available_at("ntes", 31_000_000));
    assert_eq!(f.snapshot_at(31_000_000).iter().find(|s| s.source == "ntes").unwrap().state, State::Open);
}

#[test]
fn ordered_flip_flops_when_primary_open() {
    let mut f = Failover::new(2, Duration::from_secs(30));
    f.record_failure("ntes");
    f.record_failure("ntes");
    let order = f.ordered(&["ntes", "railyatri"]);
    assert_eq!(order, vec!["railyatri", "ntes"]);
    let g = Failover::new(3, Duration::from_secs(30));
    assert_eq!(g.ordered(&["ntes", "railyatri"]), vec!["ntes", "railyatri"]);
    let mut h = Failover::new(1, Duration::from_secs(30));
    h.record_failure("ntes");
    h.record_failure("railyatri");
    assert_eq!(h.ordered(&["ntes", "railyatri"]), vec!["ntes", "railyatri"]);
}

#[test]
fn ordered_prefers_less_failed() {
    let mut f = Failover::new(10, Duration::from_secs(30));
    f.record_failure("ntes");
    f.record_failure("ntes");
    f.record_failure("railyatri");
    let order = f.ordered(&["ntes", "railyatri", "corover-api"]);
    assert_eq!(order, vec!["corover-api", "railyatri", "ntes"]);
}

#[test]
fn three_source_chain_flip_flops() {
    let mut f = Failover::new(2, Duration::from_secs(30));
    f.record_failure("corover-api");
    f.record_failure("corover-api");
    assert_eq!(f.ordered(&["corover-api", "ntes", "railyatri"]), vec!["ntes", "railyatri", "corover-api"]);
    f.record_failure("ntes");
    f.record_failure("ntes");
    assert_eq!(f.ordered(&["corover-api", "ntes", "railyatri"]), vec!["railyatri", "corover-api", "ntes"]);
}

#[test]
fn snapshot_sorted_and_complete() {
    let mut f = Failover::new(3, Duration::from_secs(30));
    f.record_failure("zebra");
    f.record_success("apple");
    let snap = f.snapshot();
    assert_eq!(snap[0].source, "apple");
    assert_eq!(snap[1].source, "zebra");
}

#[test]
fn zero_threshold_behaves_as_one() {
    let mut f = Failover::new(0, Duration::from_secs(30));
    f.record_failure_at("ntes", 5);
    assert!(f.should_skip_at("ntes", 6));
    let snap = f.snapshot_at(2_000_000_005);
    assert_eq!(snap[0].open_secs, Some(2));
}
