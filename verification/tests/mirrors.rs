use railway_rs::error::AppError;
use railway_rs::http::page_outcome;
use railway_rs::{confirmtkt, erail, indiarailinfo};

#[test]
fn mirror_pages_are_addressed_with_encoded_segments() {
    assert_eq!(erail::schedule_url("https://erail.in/", "12951"), "https://erail.in/train/12951");
    assert_eq!(erail::between_url("https://erail.in", "NDLS", "B C"), "https://erail.in/trains/NDLS/to/B%20C");
    assert_eq!(
        confirmtkt::availability_url("https://www.confirmtkt.com", "NDLS", "AGC", "2026-08-27"),
        "https://www.confirmtkt.com/train-booking/trains-between-stations/NDLS/AGC?date=2026-08-27"
    );
    assert_eq!(indiarailinfo::live_url("https://indiarailinfo.com//", "12951"), "https://indiarailinfo.com/train/12951");
}

#[test]
fn a_page_counts_only_when_it_mentions_every_needle() {
    assert!(page_outcome("Erail", "u", None, "route NDLS to BCT", &["NDLS", "BCT"], "no trains").is_ok());
    match page_outcome("Erail", "u", None, "route NDLS only", &["NDLS", "BCT"], "no trains in Erail response") {
        Err(AppError::SourceUnavailable { source, reason }) => {
            assert_eq!(source, "Erail");
            assert_eq!(reason, "no trains in Erail response");
        },
        other => panic!("unexpected {other:?}"),
    }
    match page_outcome("Erail", "https://x/y", Some("503 Service Unavailable"), "NDLS BCT", &["NDLS"], "m") {
        Err(AppError::SourceUnavailable { reason, .. }) => {
            assert_eq!(reason, "GET https://x/y returned 503 Service Unavailable")
        },
        other => panic!("unexpected {other:?}"),
    }
}

#[test]
fn confirmtkt_pages_count_with_either_table_heading() {
    assert!(confirmtkt::availability_outcome("u", None, "<th>Train No</th>").is_ok());
    assert!(confirmtkt::availability_outcome("u", None, "{\"trainNumber\":1}").is_ok());
    match confirmtkt::availability_outcome("u", None, "<html>empty</html>") {
        Err(AppError::SourceUnavailable { source, reason }) => {
            assert_eq!(source, "ConfirmTkt");
            assert_eq!(reason, "no train table in ConfirmTkt response");
        },
        other => panic!("unexpected {other:?}"),
    }
}
