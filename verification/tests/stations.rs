use railway_rs::data::{
    filter_stations, filter_trains, rank_stations, search_stations, station_code_by_name, station_name, suggest,
    train_name, StationEntry, TrainRecord,
};

fn station(code: &str, name: &str) -> StationEntry {
    StationEntry { code: code.into(), name: name.into(), name_hi: None, name_gu: None, district: None }
}

fn sample_stations() -> Vec<StationEntry> {
    vec![
        station("NDLS", "New Delhi"),
        station("BCT", "Mumbai Central"),
        station("MUM", "Mumbai"),
        station("NZM", "Hazrat Nizamuddin"),
    ]
}

fn sample_trains() -> Vec<TrainRecord> {
    vec![
        TrainRecord { number: "12951".into(), name: "MUMBAI RAJDHANI".into() },
        TrainRecord { number: "12952".into(), name: "MUMBAI RAJDHANI".into() },
        TrainRecord { number: "12001".into(), name: "NDLS SHATABDI".into() },
    ]
}

#[test]
fn stations_search_by_code_and_name() {
    let s = sample_stations();
    assert_eq!(filter_stations(&s, "NDLS", 5).len(), 1);
    assert_eq!(filter_stations(&s, "mumbai", 5).len(), 2);
    assert_eq!(filter_stations(&s, "delhi", 5).len(), 1);
    assert_eq!(filter_stations(&s, "  ", 5).len(), 0);
    assert_eq!(filter_stations(&s, "zzz", 5).len(), 0);
}

#[test]
fn trains_search_matches_number_and_name() {
    let t = sample_trains();
    assert_eq!(filter_trains(&t, "12951", 5)[0].number, "12951");
    assert_eq!(filter_trains(&t, "rajdhani", 5).len(), 2);
    assert_eq!(filter_trains(&t, "SHATABDI", 5)[0].name, "NDLS SHATABDI");
}

#[test]
fn stations_code_prefix_outranks_name_contains() {
    let hits = search_stations(&sample_stations(), "MUM", 5);
    assert_eq!(hits[0].code, "MUM");
}

#[test]
fn station_tiers_in_order() {
    let s = vec![
        station("MUMBAI", "Other"),
        station("XYZ", "mum"),
        station("MUMB", "Third"),
        station("MUM", "Exact"),
        station("ABC", "Mumbai Central"),
        station("AAA", "Mumbai"),
    ];
    let order = rank_stations(&s, " mum ");
    // exact code, exact name, code prefixes (shorter first), name prefixes
    // (shorter first).
    assert_eq!(order, vec![3, 1, 2, 0, 5, 4]);
    assert!(rank_stations(&s, "   ").is_empty());
}

#[test]
fn suggest_returns_both_kinds() {
    let (s, t) = (sample_stations(), sample_trains());
    let hits = suggest(&s, &t, "12951", 10);
    assert!(hits.iter().any(|h| h.kind == "train" && h.number.as_deref() == Some("12951")));
    let hits = suggest(&s, &t, "NDLS", 10);
    assert!(hits.iter().any(|h| h.kind == "station" && h.code.as_deref() == Some("NDLS")));
    // The station scores 1000 and comes first; the train named after it follows.
    assert_eq!(hits[0].code.as_deref(), Some("NDLS"));
    assert_eq!(hits[1].number.as_deref(), Some("12001"));
}

#[test]
fn suggest_empty_query_is_empty() {
    let (s, t) = (sample_stations(), sample_trains());
    assert!(suggest(&s, &t, "   ", 10).is_empty());
    assert!(suggest(&s, &t, "zzzznothing", 10).is_empty());
}

#[test]
fn lookups_by_code_name_and_number() {
    let s = sample_stations();
    assert_eq!(station_name(&s, "ndls").as_deref(), Some("New Delhi"));
    assert_eq!(station_name(&s, "DDN"), None);
    assert_eq!(station_code_by_name(&s, "MUMBAI").as_deref(), Some("MUM"));
    assert_eq!(station_code_by_name(&s, "Mumbai C"), None);
    assert_eq!(train_name(&sample_trains(), "12952").as_deref(), Some("MUMBAI RAJDHANI"));
}
