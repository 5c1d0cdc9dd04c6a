use railway_rs::corover::{fetch_step, yn_flag, yn_text, CoroverClient, FetchOutcome, FetchStep, SettingsFlag};
use railway_rs::json::{read_json, Json};

fn yn(raw: Json) -> bool {
    yn_flag(&raw).expect("probe parses")
}

#[test]
fn de_yn_bool_maps_both_directions_and_rejects_garbage() {
    assert!(yn(Json::Str("Y".into())));
    assert!(!yn(Json::Str("N".into())));
    // Case-insensitive and native-bool tolerance.
    assert!(yn(Json::Bool(true)));
    assert!(!yn(Json::Str("n".into())));

    let bad = yn_flag(&Json::Str("maybe".into()));
    assert!(bad.is_none());
}

#[test]
fn url_building_encodes_segments_and_omits_absent_params() {
    let client = CoroverClient::new("https://api.disha.corover.ai/", "https://cdn.corover.ai/");

    assert_eq!(client.corover_base, "https://api.disha.corover.ai");
    assert_eq!(client.cdn_base, "https://cdn.corover.ai");

    assert_eq!(
        client.search_station_url("new delhi"),
        "https://api.disha.corover.ai/dishaAPI/bot/searchStation/new%20delhi"
    );
    assert_eq!(
        client.schedule_url("12951", Some("2026-08-22"), Some("BCT")),
        "https://api.disha.corover.ai/dishaAPI/bot/trnscheduleEnq/12951?journeyDate=2026-08-22&startingStationCode=BCT"
    );
    assert_eq!(
        client.schedule_url("12951", None, None),
        "https://api.disha.corover.ai/dishaAPI/bot/trnscheduleEnq/12951"
    );
    assert_eq!(client.faqs_url("hi"), "https://cdn.corover.ai/askdisha-bucket/hi.json");
    assert_eq!(client.settings_url(), "https://cdn.corover.ai/askdisha-bucket/getSettings.json");
}

#[test]
fn parses_settings_flags() {
    let doc = read_json(r#"{"id":1,"isDisabled":false,"booking":true}"#).expect("settings sample parses");
    let settings = SettingsFlag::from_json(&doc).expect("settings sample reads");
    assert_eq!(settings.id, 1);
    assert!(!settings.is_disabled);
    assert!(settings.booking);
}

#[test]
fn settings_flags_refuse_missing_or_mistyped_members() {
    let missing = read_json(r#"{"id":1,"isDisabled":false}"#).unwrap();
    assert!(SettingsFlag::from_json(&missing).is_none());
    let mistyped = read_json(r#"{"id":"1","isDisabled":false,"booking":true}"#).unwrap();
    assert!(SettingsFlag::from_json(&mistyped).is_none());
    let extra = read_json(r#"{"id":-7,"isDisabled":true,"booking":false,"x":[1]}"#).unwrap();
    let s = SettingsFlag::from_json(&extra).unwrap();
    assert_eq!(s.id, -7);
    assert!(s.is_disabled);
    assert!(!s.booking);
}

#[test]
fn schedule_url_with_one_parameter_starts_the_query_with_it() {
    let client = CoroverClient::new("https://api.example", "https://cdn.example//");
    assert_eq!(client.cdn_base, "https://cdn.example");
    assert_eq!(
        client.schedule_url("12 951", None, Some("BCT")),
        "https://api.example/dishaAPI/bot/trnscheduleEnq/12%20951?startingStationCode=BCT"
    );
    assert_eq!(
        client.schedule_url("12951", Some("2026-08-22"), None),
        "https://api.example/dishaAPI/bot/trnscheduleEnq/12951?journeyDate=2026-08-22"
    );
    assert_eq!(client.faqs_url("g u"), "https://cdn.example/askdisha-bucket/g%20u.json");
}

#[test]
fn yn_text_reads_one_letter_only() {
    assert_eq!(yn_text("y"), Some(true));
    assert_eq!(yn_text("N"), Some(false));
    assert_eq!(yn_text("YES"), None);
    assert_eq!(yn_text(""), None);
    assert_eq!(yn_flag(&Json::Null), None);
    assert_eq!(yn_flag(&Json::Number("1".into())), None);
}

#[test]
fn fetch_step_retries_once_on_transient_failures_only() {
    assert_eq!(fetch_step(0, &FetchOutcome::Status(200)), FetchStep::Decode);
    assert_eq!(fetch_step(1, &FetchOutcome::Status(204)), FetchStep::Decode);
    assert_eq!(fetch_step(0, &FetchOutcome::Status(503)), FetchStep::Retry);
    assert_eq!(fetch_step(1, &FetchOutcome::Status(503)), FetchStep::Fail);
    assert_eq!(fetch_step(0, &FetchOutcome::Status(404)), FetchStep::Fail);
    assert_eq!(fetch_step(0, &FetchOutcome::Status(302)), FetchStep::Fail);
    assert_eq!(fetch_step(0, &FetchOutcome::Transport { transient: true }), FetchStep::Retry);
    assert_eq!(fetch_step(1, &FetchOutcome::Transport { transient: true }), FetchStep::Fail);
    assert_eq!(fetch_step(0, &FetchOutcome::Transport { transient: false }), FetchStep::Fail);
}
