use railway_rs::error::AppError;
use railway_rs::paytm::{iso_time, no_trains_or_outage, search_url, urlencode};

#[test]
fn urlencode_leaves_station_codes_untouched() {
    assert_eq!(urlencode("MAO"), "MAO");
    assert_eq!(urlencode("ndls"), "ndls");
    assert_eq!(urlencode("4 XYZ"), "4%20XYZ");
}

#[test]
fn urlencode_escapes_each_utf8_byte() {
    assert_eq!(urlencode("a-b_c.d~e"), "a-b_c.d~e");
    assert_eq!(urlencode("é"), "%C3%A9");
    assert_eq!(urlencode("/?&"), "%2F%3F%26");
}

#[test]
fn no_direct_trains_message_maps_to_clean_not_found() {
    let e = no_trains_or_outage(
        "HYB",
        "AL",
        "2026-08-29",
        false,
        "GET https://travel.paytm.com/api/trains/v5/search returned 451 Unavailable For Legal Reasons: There are no direct trains running between these two stations for your travel date.",
        "There are no direct trains running between these two stations for your travel date. Please try an alternative route or a different date.",
    );
    assert!(matches!(e, AppError::NotFound(_)));
    let msg = e.message();
    assert!(msg.contains("No direct trains"), "{msg}");
    assert!(!msg.contains("http"), "no upstream URL noise in user error: {msg}");
}

#[test]
fn no_trains_message_names_route_and_date() {
    let e = no_trains_or_outage("HYB", "AL", "2026-08-29", true, "x", "y");
    assert_eq!(
        e.message(),
        "No direct trains run between HYB and AL on 2026-08-29. Try a nearby station pair or a different date."
    );
}

#[test]
fn http_451_alone_counts_as_definitive_no_trains() {
    let e = no_trains_or_outage("HYB", "AL", "2026-08-29", true, "GET … returned 451", "nope");
    assert!(matches!(e, AppError::NotFound(_)));
}

#[test]
fn genuine_paytm_rejection_stays_source_unavailable() {
    let e = no_trains_or_outage(
        "MAO",
        "NDLS",
        "2026-10-20",
        false,
        "GET https://travel.paytm.com returned 500 Internal Server Error: boom",
        "boom",
    );
    assert!(matches!(e, AppError::SourceUnavailable { .. }));
    match e {
        AppError::SourceUnavailable { source, reason } => {
            assert_eq!(source, "Paytm");
            assert_eq!(reason, "GET https://travel.paytm.com returned 500 Internal Server Error: boom");
        }
        _ => unreachable!(),
    }
}

#[test]
fn search_url_maps_source_and_destination_correctly() {
    let url = search_url("https://travel.paytm.com", "MAO", "NDLS", "2026-10-20");
    assert!(url.starts_with("https://travel.paytm.com/api/trains/v5/search?"));
    assert!(url.contains("departureDate=20261020"));
    assert!(url.contains("destination=NDLS"), "dst must map to destination: {url}");
    assert!(url.contains("source=MAO"), "src must map to source: {url}");
    assert!(!url.contains("source=NDLS") && !url.contains("destination=MAO"));
}

#[test]
fn search_url_is_exact() {
    let url = search_url("https://travel.paytm.com/", "MAO", "NDLS", "20/10/2026");
    assert_eq!(
        url,
        "https://travel.paytm.com/api/trains/v5/search?departureDate=20261020&designVersion=v3&destination=NDLS&dimension114=seo-home&isAscOfferEligible=false&isH5=true&is_new_user=null&quota=GN&show_empty=true&source=MAO&client=web&deviceIdentifier=Mozilla%20Firefox-151.0.0.0"
    );
}

#[test]
fn iso_time_extracts_wall_clock() {
    assert_eq!(iso_time("2026-10-20T10:00:00+00:00"), "10:00");
    assert_eq!(iso_time("2026-10-21T14:10:00+00:00"), "14:10");
    assert_eq!(iso_time("17:40"), "17:40");
    assert_eq!(iso_time(""), "");
    assert_eq!(iso_time("garbage"), "");
}
