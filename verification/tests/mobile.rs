use railway_rs::crypto::NtesCrypto;
use railway_rs::error::AppError;
use railway_rs::json::{get, Json};
use railway_rs::ntes::mobile::{endpoint, payload, read_answer, request_body};

fn pairs(v: &[(&str, &str)]) -> Vec<(String, String)> {
    v.iter().map(|(k, v)| (k.to_string(), v.to_string())).collect()
}

#[test]
fn client_builds_endpoint_from_base() {
    assert_eq!(endpoint("https://example.in"), "https://example.in/crisns/AppServAnd");
    assert_eq!(endpoint("https://example.in//"), "https://example.in/crisns/AppServAnd");
}

#[test]
fn queries_are_form_payloads_in_an_encrypted_envelope() {
    let p = payload("GetTrainSchedule", &pairs(&[("trainNo", "12951"), ("startDate", "")]));
    assert_eq!(p, "service=TrainRunningMob&subService=GetTrainSchedule&trainNo=12951&startDate=");
    let body = request_body("GetTrainSchedule", &pairs(&[("trainNo", "12951"), ("startDate", "")]));
    match get(Some(&body), "jsonIn") {
        Some(Json::Str(env)) => assert_eq!(env, &NtesCrypto::build(&p)),
        other => panic!("unexpected {other:?}"),
    }
}

#[test]
fn answers_are_decrypted_and_read_as_json() {
    let enc = NtesCrypto::build("{\"trainName\":\"RAJDHANI\"}");
    let resp = Json::Object(vec![("jsonIn".to_string(), Json::Str(enc))]);
    let doc = read_answer(&resp).unwrap();
    assert!(matches!(get(Some(&doc), "trainName"), Some(Json::Str(s)) if s == "RAJDHANI"));

    match read_answer(&Json::Object(Vec::new())) {
        Err(AppError::SourceUnavailable { source, reason }) => {
            assert_eq!(source, "ntes");
            assert_eq!(reason, "response missing jsonIn");
        },
        other => panic!("unexpected {other:?}"),
    }
    let not_json = Json::Object(vec![("jsonIn".to_string(), Json::Str(NtesCrypto::build("plain words")))]);
    match read_answer(&not_json) {
        Err(AppError::SourceUnavailable { reason, .. }) => {
            assert_eq!(reason, "ciphertext could not be decoded: NTES: decrypted payload is not JSON")
        },
        other => panic!("unexpected {other:?}"),
    }
}
