use railway_rs::error::AppError;
use railway_rs::irctc::{availability_trains, chart, deep_get, SOURCE};
use railway_rs::json::{read_json, Json};

fn j(text: &str) -> Json {
    read_json(text).unwrap()
}

#[test]
fn availability_accepts_documented_shape() {
    let data = j(r#"{
        "trainBtwnStnsList": [
            {
                "trainNumber": "12951",
                "trainName": "MUMBAI RAJDHANI",
                "fromStnCode": "MMCT",
                "fromStnName": "MUMBAI CENTRAL",
                "toStnCode": "NDLS",
                "toStnName": "NEW DELHI",
                "departureTime": "17:40",
                "arrivalTime": "08:32",
                "duration": "14:52",
                "distance": "1384",
                "avlClasses": ["3A", "2A"],
                "trainType": "SUF",
                "runDays": ["MON", "TUE", "WED", "THU", "FRI", "SAT", "SUN"]
            },
            {
                "trainNumber": "12009",
                "trainName": "SHATABDI EXP",
                "departureTime": "05:40",
                "arrivalTime": "21:55",
                "runDays": ["MON", "WED", "FRI"]
            }
        ]
    }"#);
    let trains = availability_trains(&data).unwrap();
    assert_eq!(trains.len(), 2);
    assert_eq!(trains[0].number, "12951");
    assert_eq!(trains[0].from_code, "MMCT");
    assert_eq!(trains[0].classes, vec!["3A", "2A"]);
    assert_eq!(trains[0].runs_on, vec![true, true, true, true, true, true, true]);
    assert_eq!(trains[1].runs_on, vec![true, false, true, false, true, false, false]);
}

#[test]
fn availability_accepts_short_run_days_and_numeric_codes() {
    let data = j(r#"{
        "trainList": [
            {"trainNumber": "12951", "trainName": "X", "runDays": ["MO", "WE"]},
            {"trainNo": 12009, "trainName": "Y", "runDays": ["SA", "SU"]}
        ]
    }"#);
    let trains = availability_trains(&data).unwrap();
    assert_eq!(trains[0].number, "12951");
    assert_eq!(trains[0].runs_on, vec![true, false, true, false, false, false, false]);
    assert_eq!(trains[1].number, "12009", "numeric trainNo must stringify");
    assert_eq!(trains[1].runs_on, vec![false, false, false, false, false, true, true]);
}

#[test]
fn availability_rejects_missing_or_empty_list() {
    for text in [r#"{ "some": "thing" }"#, r#"{ "trainBtwnStnsList": [] }"#] {
        let err = availability_trains(&j(text)).unwrap_err();
        assert!(
            matches!(&err, AppError::SourceUnavailable { source, .. } if source == SOURCE),
            "expected SourceUnavailable, got {err:?}"
        );
    }
}

#[test]
fn run_day_flags_stand_in_for_a_missing_list() {
    let data = j(r#"{"trainList": [{"trainNo": "1", "runDays": ["XX"], "runOnTue": true, "runsOnSun": true}]}"#);
    let trains = availability_trains(&data).unwrap();
    assert_eq!(trains[0].runs_on, vec![false, true, false, false, false, false, true]);
    assert!(trains[0].classes.is_empty());
    assert_eq!(trains[0].name, "");
}

#[test]
fn chart_accepts_documented_shape() {
    let data = j(r#"{
        "trainData": {
            "trainNumber": "12951",
            "trainName": "MUMBAI RAJDHANI",
            "coachList": [
                {
                    "coachCode": "B1",
                    "classCode": "3A",
                    "berthList": [
                        {"berthNo": 1, "status": "vacant"},
                        {"berthNo": 2, "status": "occupied"},
                        {"berthNo": 3, "status": "not_reserved"}
                    ]
                },
                {"coachCode": "B2", "classCode": "3A", "berthList": []}
            ]
        }
    }"#);
    let norm = chart(&data).unwrap();
    assert_eq!(norm.train_number, "12951");
    let coaches = &norm.coaches;
    assert_eq!(coaches.len(), 2);
    assert_eq!(coaches[0].code, "B1");
    assert_eq!(coaches[0].class_code, "3A");
    let berths = &coaches[0].berths;
    assert_eq!(berths.len(), 3);
    assert_eq!(berths[0].number, 1);
    assert_eq!(berths[0].status, "vacant");
    assert_eq!(berths[1].status, "occupied");
    assert_eq!(coaches[1].berths.len(), 0);
}

#[test]
fn chart_accepts_flat_list_and_boolean_status() {
    let data = j(r#"{
        "coaches": [
            {"coach": "S1", "class": "SL", "berths": [
                {"berthNo": 1, "vacant": true},
                {"berthNo": 2, "booked": true}
            ]}
        ]
    }"#);
    let norm = chart(&data).unwrap();
    let berths = &norm.coaches[0].berths;
    assert_eq!(berths[0].status, "vacant");
    assert_eq!(berths[1].status, "occupied");
}

#[test]
fn chart_rejects_unrecognized_shape() {
    let err = chart(&j(r#"{ "trainData": { "message": "x" } }"#)).unwrap_err();
    assert!(matches!(&err, AppError::SourceUnavailable { source, .. } if source == SOURCE));
}

#[test]
fn berth_numbers_from_text_and_statuses_lowered() {
    let data = j(r#"{"coachList": [{"coachNo": "A1", "berths": [
        {"berthNumber": "-7", "bookingStatus": "CNF"},
        {"berthNo": "x"}
    ]}]}"#);
    let norm = chart(&data).unwrap();
    let berths = &norm.coaches[0].berths;
    assert_eq!(berths[0].number, -7);
    assert_eq!(berths[0].status, "cnf");
    assert_eq!(berths[1].number, 0);
    assert_eq!(berths[1].status, "unknown");
    assert_eq!(norm.coaches[0].code, "A1");
}

#[test]
fn deep_get_follows_a_key_path() {
    let v = j(r#"{"a": {"b": {"c": "d"}}}"#);
    assert!(matches!(deep_get(&v, &["a", "b", "c"]), Some(Json::Str(s)) if s == "d"));
    assert!(deep_get(&v, &["a", "x"]).is_none());
}

fn members(j: &railway_rs::json::Json) -> Vec<(String, String)> {
    match j {
        railway_rs::json::Json::Object(fs) => fs
            .iter()
            .map(|(k, v)| {
                let v = match v {
                    railway_rs::json::Json::Str(s) => s.clone(),
                    railway_rs::json::Json::Bool(b) => b.to_string(),
                    _ => "?".to_string(),
                };
                (k.clone(), v)
            })
            .collect(),
        _ => Vec::new(),
    }
}

#[test]
fn availability_request_carries_the_fixed_enquiry_flags() {
    let r = railway_rs::irctc::availability_request("NDLS", "BCT", "20-08-2026");
    let m = members(&r);
    assert_eq!(m.len(), 12);
    assert_eq!(m[1], ("srcStn".to_string(), "NDLS".to_string()));
    assert_eq!(m[2], ("destStn".to_string(), "BCT".to_string()));
    assert_eq!(m[4], ("jrnyDate".to_string(), "20260820".to_string()));
    assert_eq!(m[5], ("quotaCode".to_string(), "GN".to_string()));
    assert_eq!(m[6], ("currentBooking".to_string(), "false".to_string()));
    assert_eq!(m[9], ("ticketType".to_string(), "E".to_string()));
    assert_eq!(m[0], ("concessionBooking".to_string(), "false".to_string()));
}

#[test]
fn composition_request_sends_an_iso_date() {
    let r = railway_rs::irctc::composition_request("12951", "20260820", "BCT");
    assert_eq!(
        members(&r),
        vec![
            ("trainNo".to_string(), "12951".to_string()),
            ("jDate".to_string(), "2026-08-20".to_string()),
            ("boardingStation".to_string(), "BCT".to_string()),
        ]
    );
}

#[test]
fn geofenced_and_failed_answers_are_explained() {
    let reason = |r: Result<(), AppError>| match r {
        Err(AppError::SourceUnavailable { source, reason }) => {
            assert_eq!(source, SOURCE);
            reason
        },
        other => panic!("unexpected {other:?}"),
    };
    assert_eq!(
        reason(railway_rs::irctc::answer_check("u", 403, "403 Forbidden", false)),
        "POST u returned 403 Forbidden (IRCTC is Akamai-protected and IP-geofenced; run from an Indian residential IP)"
    );
    assert_eq!(reason(railway_rs::irctc::answer_check("u", 500, "500 Internal Server Error", false)), "POST u returned 500 Internal Server Error");
    assert_eq!(reason(railway_rs::irctc::answer_check("u", 200, "200 OK", true)), "POST u returned an empty body");
    assert!(railway_rs::irctc::answer_check("u", 200, "200 OK", false).is_ok());
}
