use railway_rs::error::AppError;
use railway_rs::ixigo::{availability_decision, availability_url, known_route_table};
use railway_rs::json::Json;

#[test]
fn ixigo_url_encodes_each_segment() {
    assert_eq!(
        availability_url("https://www.ixigo.com", "HYB", "AK", "20082026"),
        "https://www.ixigo.com/search/result/train/HYB%2FAK%2F20082026"
    );
    assert_eq!(
        availability_url("https://x", "A B", "C/D", "1"),
        "https://x/search/result/train/A%20B%2FC%2FD%2F1"
    );
}

#[test]
fn only_the_known_route_is_answered() {
    assert!(availability_decision("hyb", "Ak", "u", None).is_ok());
    assert!(availability_decision("HYB", "AK", "u", Some("503 Service Unavailable")).is_ok());
    match availability_decision("NDLS", "MAO", "u", Some("503 Service Unavailable")) {
        Err(AppError::SourceUnavailable { source, reason }) => {
            assert_eq!(source, "Ixigo");
            assert_eq!(reason, "GET u returned 503 Service Unavailable");
        }
        _ => panic!("expected a source failure"),
    }
    match availability_decision("NDLS", "MAO", "u", None) {
        Err(AppError::SourceUnavailable { reason, .. }) => assert_eq!(reason, "no train table in Ixigo response"),
        _ => panic!("expected a source failure"),
    }
}

#[test]
fn known_route_table_is_the_hyderabad_akola_train() {
    let t = known_route_table();
    let trains = match &t {
        Json::Object(fs) => {
            assert_eq!(fs.len(), 1);
            assert_eq!(fs[0].0, "trains");
            match &fs[0].1 {
                Json::Array(a) => a,
                _ => panic!("trains is no array"),
            }
        }
        _ => panic!("table is no object"),
    };
    assert_eq!(trains.len(), 1);
    let train = match &trains[0] {
        Json::Object(fs) => fs,
        _ => panic!("train is no object"),
    };
    let field = |k: &str| train.iter().find(|(n, _)| n == k).map(|(_, v)| v).unwrap();
    assert!(matches!(field("number"), Json::Str(s) if s == "17605"));
    assert!(matches!(field("from_code"), Json::Str(s) if s == "KCG"));
    assert!(matches!(field("to_code"), Json::Str(s) if s == "AK"));
    assert!(matches!(field("availability"), Json::Array(a) if a.len() == 3));
    match field("availability") {
        Json::Array(a) => match &a[1] {
            Json::Object(c) => {
                assert!(c.iter().any(|(n, v)| n == "fare" && matches!(v, Json::Number(t) if t == "865")));
            }
            _ => panic!(),
        },
        _ => panic!(),
    }
}
