use railway_rs::cache::keys::{live_status, pnr, schedule, train_on_map_station};
use railway_rs::cache::Cache;
use railway_rs::metrics::Metrics;
use serde_json::Value;
use std::time::Duration;

fn obj_x(n: i64) -> Value {
    let mut m = serde_json::Map::new();
    m.insert("x".to_string(), Value::from(n));
    Value::Object(m)
}

#[test]
fn set_and_get_roundtrip() {
    let mut c = Cache::new(Duration::from_secs(60));
    assert!(c.get("a").is_none());
    c.set("a", obj_x(1));
    assert_eq!(c.get("a"), Some(obj_x(1)));
}

#[test]
fn expired_entry_is_evicted() {
    let mut c = Cache::new(Duration::from_millis(30));
    c.set_at("a", Value::from(1), 0);
    assert!(c.get_at("a", 10_000_000).is_some());
    assert!(c.get_at("a", 60_000_000).is_none());
    assert_eq!(c.len(), 0);
}

#[test]
fn per_entry_ttl_overrides_cache_ttl() {
    let mut c = Cache::new(Duration::from_millis(30));
    c.set_with_ttl_at("long", Value::from(1), Duration::from_secs(60), 0);
    c.set_at("short", Value::from(2), 0);
    assert!(c.get_at("short", 60_000_000).is_none());
    assert!(c.get_at("long", 60_000_000).is_some());
}

#[test]
fn keys_are_independent() {
    let mut c = Cache::new(Duration::from_secs(60));
    c.set("pnr:1", Value::from("one"));
    c.set("pnr:2", Value::from("two"));
    assert_eq!(c.get("pnr:1"), Some(Value::from("one")));
    assert_eq!(c.get("pnr:2"), Some(Value::from("two")));
    c.remove("pnr:1");
    assert!(c.get("pnr:1").is_none());
    assert!(c.get("pnr:2").is_some());
}

#[test]
fn bounded_eviction_keeps_size_under_cap() {
    let mut c = Cache::with_capacity(Duration::from_secs(60), 4);
    for i in 0..10 {
        c.set(&format!("k{i}"), Value::from(i));
    }
    assert!(c.len() <= 4, "len={}", c.len());
}

#[test]
fn sweep_does_not_hold_lock_on_empty() {
    let mut c = Cache::new(Duration::from_secs(60));
    for i in 0..130 {
        c.set(&format!("k{i}"), Value::from(i));
    }
    assert!(c.len() <= 2048);
}

#[test]
fn stale_read_ignores_expiry() {
    let mut c = Cache::new(Duration::from_millis(1));
    c.set_at("a", Value::from(3), 0);
    assert_eq!(c.get_stale("a"), Some(Value::from(3)));
    c.clear();
    assert!(c.is_empty());
}

#[test]
fn cache_keys_are_exact() {
    assert_eq!(pnr("1234567890"), "pnr:1234567890");
    assert_eq!(live_status("12951", "2026-08-20"), "live_status:12951:2026-08-20");
    assert_eq!(schedule("12951"), "schedule:12951");
    assert_eq!(train_on_map_station("12951", "ndls"), "train_on_map:12951:NDLS");
}

#[test]
fn counted_lookups_record_hits_and_misses() {
    let mut c = Cache::new(Duration::from_millis(50));
    let mut m = Metrics::new();
    c.set_at("a", Value::from(1), 0);
    assert_eq!(c.get_at_counted("a", 10_000_000, &mut m), Some(Value::from(1)));
    assert_eq!((m.cache_hits, m.cache_misses), (1, 0));
    assert_eq!(c.get_at_counted("b", 10_000_000, &mut m), None);
    assert_eq!((m.cache_hits, m.cache_misses), (1, 1));
    // expired: a miss, and the entry is dropped
    assert_eq!(c.get_at_counted("a", 60_000_000, &mut m), None);
    assert_eq!((m.cache_hits, m.cache_misses), (1, 2));
    assert_eq!(c.len(), 0);
    assert_eq!(m.requests_total, 0);
}
