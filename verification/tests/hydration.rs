use railway_rs::data::hydration::{merge_hydration, HydrationRow, StationRecord};

fn station(code: &str, name: &str, state: &str, zone: &str) -> StationRecord {
    StationRecord {
        code: code.into(),
        name: name.into(),
        state: state.into(),
        zone: zone.into(),
        name_hi: None,
        name_gu: None,
        district: None,
        address: None,
        train_count: None,
        lat: None,
        lng: None,
    }
}

fn row(code: &str) -> HydrationRow {
    HydrationRow {
        code: code.into(),
        name_hi: None,
        name_gu: None,
        district: None,
        address: None,
        train_count: None,
        latitude: None,
        longitude: None,
    }
}

fn sample_stations() -> Vec<StationRecord> {
    vec![
        station("NDLS", "NEW DELHI", "Delhi", "NR"),
        station("BCT", "MUMBAI CENTRAL", "Maharashtra", "WR"),
        station("HWH", "HOWRAH JN", "West Bengal", "ER"),
    ]
}

fn bits(v: f64) -> Option<u64> {
    Some(v.to_bits())
}

#[test]
fn hydration_keeps_local_identity_fields() {
    let local = vec![station("NDLS", "NEW DELHI", "Delhi", "NR")];
    let upstream = vec![HydrationRow {
        name_hi: Some("नई दिल्ली".into()),
        district: Some("Central".into()),
        train_count: Some("244".into()),
        ..row("ndls")
    }];
    let (records, report) = merge_hydration(local, &upstream);
    assert_eq!(report.hydrated, 1);
    assert_eq!(report.total, 1);
    assert!(report.unmatched.is_empty());
    let ndls = &records[0];
    assert_eq!(ndls.code, "NDLS");
    assert_eq!(ndls.name, "NEW DELHI");
    assert_eq!(ndls.state, "Delhi", "local state always wins");
    assert_eq!(ndls.zone, "NR", "local zone always wins");
    assert_eq!(ndls.name_hi.as_deref(), Some("नई दिल्ली"));
    assert_eq!(ndls.district.as_deref(), Some("Central"));
    assert_eq!(ndls.train_count.as_deref(), Some("244"));
}

#[test]
fn hydration_reports_unmatched_codes() {
    let local = vec![station("NDLS", "NEW DELHI", "Delhi", "NR")];
    let upstream = vec![row("NDLS"), row("ZZZZ"), row("YYYY")];
    let (records, report) = merge_hydration(local, &upstream);
    assert_eq!(report.hydrated, 1);
    assert_eq!(report.total, 3);
    assert_eq!(report.unmatched, vec!["ZZZZ", "YYYY"]);
    assert!(records[0].name_hi.is_none());
}

#[test]
fn hydration_tolerates_blank_fields_and_bad_coordinates() {
    let local: Vec<StationRecord> = ["AA", "BB", "CC", "DD"].iter().map(|c| station(c, "X", "", "")).collect();
    let upstream = vec![
        HydrationRow { name_hi: Some("".into()), district: Some("  ".into()), ..row("aa") },
        HydrationRow { address: Some("".into()), longitude: bits(28.64), ..row("BB") },
        HydrationRow { train_count: Some("0".into()), latitude: bits(f64::NAN), ..row("cc") },
    ];
    let (records, report) = merge_hydration(local, &upstream);
    assert_eq!(report.hydrated, 3);
    assert!(records[0].name_hi.is_none());
    assert!(records[0].district.is_none());
    assert_eq!(records[0].lat, None);
    assert_eq!(records[0].lng, None);
    assert!(records[1].address.is_none());
    assert_eq!(records[1].lat, None);
    assert_eq!(records[1].lng.map(f64::from_bits), Some(28.64));
    assert_eq!(records[2].train_count.as_deref(), Some("0"));
    assert_eq!(records[2].lat, None, "non-finite coordinate dropped");
    assert!(records[3].train_count.is_none());
}

#[test]
fn hydration_collapses_duplicate_upstream_codes() {
    let local = sample_stations();
    let upstream = vec![
        HydrationRow { district: Some("Wrong".into()), ..row("NDLS") },
        HydrationRow { district: Some("Central".into()), ..row("NDLS") },
    ];
    let (records, report) = merge_hydration(local, &upstream);
    assert_eq!(report.total, 1);
    assert_eq!(report.hydrated, 1);
    assert_eq!(records[0].district.as_deref(), Some("Central"));
}

#[test]
fn hydration_is_idempotent() {
    let local = sample_stations();
    let upstream = vec![
        HydrationRow {
            name_hi: Some("नई दिल्ली".into()),
            district: Some("Central".into()),
            latitude: bits(28.6426),
            longitude: bits(77.2197),
            ..row("NDLS")
        },
        HydrationRow { address: Some("Mumbai".into()), ..row("BCT") },
    ];
    let (once, _) = merge_hydration(local, &upstream);
    let first = format!("{once:?}");
    let (twice, report) = merge_hydration(once, &upstream);
    let second = format!("{twice:?}");
    assert_eq!(first, second, "re-run must be identical");
    assert_eq!(report.hydrated, 2);
}

#[test]
fn hydration_trims_kept_texts_and_unmatched_codes() {
    let local = vec![station("HWH", "HOWRAH JN", "West Bengal", "ER")];
    let upstream = vec![
        HydrationRow { address: Some("  Howrah  ".into()), ..row(" hwh ") },
        row("  "),
        row(" qq "),
    ];
    let (records, report) = merge_hydration(local, &upstream);
    assert_eq!(records[0].address.as_deref(), Some("Howrah"));
    assert_eq!(report.total, 2, "a blank code is no code");
    assert_eq!(report.hydrated, 1);
    assert_eq!(report.unmatched, vec!["qq"]);
}
