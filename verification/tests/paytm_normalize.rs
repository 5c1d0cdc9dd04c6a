use railway_rs::error::AppError;
use railway_rs::json::{read_json, Json};
use railway_rs::paytm::normalize::{availability_trains, day_bools};
use railway_rs::paytm::SOURCE;

fn j(text: &str) -> Json {
    read_json(text).unwrap()
}

fn sample() -> Json {
    j(r#"{
        "status": {"result": "success"},
        "body": {
            "trains": [
                {
                    "departure": "2026-10-20T10:00:00+00:00",
                    "arrival": "2026-10-21T14:10:00+00:00",
                    "trainName": "GOA SMPRK K",
                    "trainNumber": "12449",
                    "source": "MAO",
                    "destination": "NDLS",
                    "source_name": "Madgaon",
                    "destination_name": "New Delhi",
                    "duration": "28:10",
                    "classes": ["SL", "3E", "3A"],
                    "train_type": "o",
                    "runs_on": {"text": "Runs on Tue, Wed"},
                    "availability": [
                        {
                            "code": "SL",
                            "name": "Sleeper Class",
                            "non_formatted_status": "GNWL82/WL59",
                            "status": "GNWL82/WL59",
                            "available_flag": "false",
                            "fare": 875,
                            "quota": "GN",
                            "pnr_prediction": {"value": 95}
                        },
                        {
                            "code": "3A",
                            "name": "AC 3 Tier",
                            "status": "AVAILABLE 0022",
                            "available_flag": true,
                            "fare": "2195"
                        }
                    ]
                }
            ]
        },
        "meta": {"smartFilterTrainType": {"o": "Other Trains"}}
    }"#)
}

#[test]
fn normalizes_trains_with_availability_classes() {
    let trains = availability_trains(&sample()).unwrap();
    assert_eq!(trains.len(), 1);
    let t = &trains[0];
    assert_eq!(t.number, "12449");
    assert_eq!(t.name, "GOA SMPRK K");
    assert_eq!(t.from_code, "MAO");
    assert_eq!(t.from_name, "Madgaon");
    assert_eq!(t.to_code, "NDLS");
    assert_eq!(t.to_name, "New Delhi");
    assert_eq!(t.departure_time, "10:00");
    assert_eq!(t.arrival_time, "14:10");
    assert_eq!(t.duration, "28:10");
    assert_eq!(t.classes, vec!["SL", "3E", "3A"]);
    assert_eq!(t.train_type, "Other Trains");
    assert_eq!(t.runs_on, vec![false, true, true, false, false, false, false]);

    let avl = &t.availability;
    assert_eq!(avl.len(), 2);
    assert_eq!(avl[0].class, "SL");
    assert_eq!(avl[0].class_name, "Sleeper Class");
    assert_eq!(avl[0].status, "GNWL82/WL59");
    assert_eq!(avl[0].available, Some(false));
    assert_eq!(avl[0].fare, Some(875));
    assert_eq!(avl[0].quota.as_deref(), Some("GN"));
    assert_eq!(avl[0].prediction, Some(95));
    assert_eq!(avl[1].class, "3A");
    assert_eq!(avl[1].status, "AVAILABLE 0022");
    assert_eq!(avl[1].available, Some(true));
    assert_eq!(avl[1].fare, Some(2195), "numeric-string fares parse");
    assert!(avl[1].quota.is_none(), "absent quota must stay absent");
}

#[test]
fn rejects_missing_or_empty_train_list() {
    for text in [r#"{"status": {"result": "success"}}"#, r#"{"body": {"trains": []}}"#] {
        let err = availability_trains(&j(text)).unwrap_err();
        assert!(
            matches!(&err, AppError::SourceUnavailable { source, .. } if source == SOURCE),
            "expected SourceUnavailable, got {err:?}"
        );
    }
}

#[test]
fn day_bools_handles_all_days_and_daily() {
    assert_eq!(day_bools(&j(r#"{"runs_on": {"text": "Runs on All Days"}}"#)), vec![true; 7]);
    assert_eq!(day_bools(&j(r#"{"runs_on": {"text": "Runs Daily"}}"#)), vec![true; 7]);
    assert_eq!(
        day_bools(&j(r#"{"runs_on": {"text": "Runs on Tue, Wed"}}"#)),
        vec![false, true, true, false, false, false, false]
    );
    assert_eq!(day_bools(&j("{}")), vec![false; 7]);
}

#[test]
fn type_label_falls_back_to_raw_code() {
    let data = j(r#"{"body": {"trains": [{"trainNumber": "1", "trainName": "X", "train_type": "vb"}]}}"#);
    let trains = availability_trains(&data).unwrap();
    assert_eq!(trains[0].train_type, "VB");
    assert!(trains[0].availability.is_empty());
    assert_eq!(trains[0].distance, "");
}

#[test]
fn entries_without_a_class_code_are_skipped() {
    let data = j(r#"{"body": {"trains": [{"availability": [{"name": "no code"}, {"code": "2S", "available_flag": "maybe", "fare": 1.5}]}]}}"#);
    let trains = availability_trains(&data).unwrap();
    let avl = &trains[0].availability;
    assert_eq!(avl.len(), 1);
    assert_eq!(avl[0].class, "2S");
    assert_eq!(avl[0].available, None);
    assert_eq!(avl[0].fare, None);
    assert_eq!(avl[0].prediction, None);
    assert_eq!(trains[0].train_type, "");
}
