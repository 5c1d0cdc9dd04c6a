use railway_rs::json::Json;
use railway_rs::railyatri::{
    deep_get, extract_next_data, get_i64, get_string, normalize_run_days, parse_live_status, parse_pnr_getstatus,
    parse_schedule, stop_pair, wrap_ok,
};

fn page(doc: &str) -> String {
    format!("<html><script id=\"__NEXT_DATA__\" type=\"application/json\">{doc}</script></html>")
}

fn doc(text: &str) -> Json {
    extract_next_data(&page(text)).unwrap()
}

#[test]
fn extracts_next_data_from_script() {
    let v = doc(r#"{"props":{"pageProps":{"x":1}}}"#);
    assert!(matches!(deep_get(&v, "props.pageProps.x"), Some(Json::Number(n)) if n == "1"));
}

#[test]
fn extract_next_data_missing_script_is_error() {
    assert!(extract_next_data("<html></html>").is_err());
}

#[test]
fn next_data_failures_say_what_is_wrong() {
    let e = format!("{:?}", extract_next_data("<html></html>").unwrap_err());
    assert!(e.contains("Railyatri: __NEXT_DATA__ script not found"));
    let e = format!(
        "{:?}",
        extract_next_data("<script id=\"__NEXT_DATA__\" type=\"application/json\">{}").unwrap_err()
    );
    assert!(e.contains("Railyatri: __NEXT_DATA__ script not closed"));
    let e = format!("{:?}", extract_next_data(&page("{oops")).unwrap_err());
    assert!(e.contains("Railyatri: __NEXT_DATA__ is not valid JSON: "));
}

#[test]
fn run_days_array_and_object_forms() {
    assert_eq!(normalize_run_days(&doc(r#"["MON", "Tue", "FRI"]"#)), vec!["MON", "TUE", "FRI"]);
    assert_eq!(normalize_run_days(&doc(r#"{"MON": true, "TUE": false, "WED": true}"#)), vec!["MON", "WED"]);
    assert_eq!(normalize_run_days(&doc(r#""nope""#)), Vec::<String>::new());
}

#[test]
fn deep_get_missing_returns_none() {
    let v = doc(r#"{"a": {"b": 1}}"#);
    assert!(matches!(deep_get(&v, "a.b"), Some(Json::Number(n)) if n == "1"));
    assert!(deep_get(&v, "a.c").is_none());
    assert!(deep_get(&v, "x.y").is_none());
}

#[test]
fn scalar_readers() {
    let v = doc(r#"{"s": "abc", "n": -42, "big": 9223372036854775808, "f": 1.5, "min": -9223372036854775808}"#);
    assert_eq!(get_string(deep_get(&v, "s").unwrap()), Some("abc".to_string()));
    assert_eq!(get_string(deep_get(&v, "n").unwrap()), None);
    assert_eq!(get_i64(deep_get(&v, "n").unwrap()), Some(-42));
    assert_eq!(get_i64(deep_get(&v, "big").unwrap()), None);
    assert_eq!(get_i64(deep_get(&v, "f").unwrap()), None);
    assert_eq!(get_i64(deep_get(&v, "min").unwrap()), Some(i64::MIN));
    let stop = doc(r#"{"station_code": "NDLS"}"#);
    assert_eq!(stop_pair(&stop), ("NDLS".to_string(), String::new()));
    assert!(matches!(wrap_ok(Json::Null), Json::Object(f) if f.len() == 1 && f[0].0 == "data"));
}

#[test]
fn schedule_from_timetable_document() {
    let html = page(
        r#"{"props":{"pageProps":{"trainTimeTable":{
            "train_number":"12951","train_name":"RAJDHANI","run_days":["mon","wed"],
            "source_station":"MUMBAI CENTRAL","destination_station":"NEW DELHI",
            "routeGroup":[
                {"routesummary":[{"station_code":"MMCT","station_name":"MUMBAI CENTRAL","std_min":1020,"day":1},
                                 {"station_code":"BRC","station_name":"VADODARA","sta_min":1445,"std_min":1455,"day":2,"stop":false}]},
                {"routesummary":[{"station_code":"BRC","station_name":"DUPLICATE"},
                                 {"station_code":"NDLS","station_name":"NEW DELHI","sta_min":-30}]}
            ]}}}}"#,
    );
    let s = parse_schedule(&html).unwrap();
    assert_eq!(s.train_number, "12951");
    assert_eq!(s.train_name, "RAJDHANI");
    assert_eq!(s.run_days, vec!["MON", "WED"]);
    assert_eq!(s.route_description, "MUMBAI CENTRAL - NEW DELHI Express");
    // The first group's summary has two stops and the merged list three; no
    // list is complete, so the first that has stops is taken.
    assert_eq!(s.stops.len(), 2);
    assert_eq!(s.stops[0].code, "MMCT");
    assert_eq!(s.stops[0].arrival, "");
    assert_eq!(s.stops[0].departure, "17:00");
    assert_eq!(s.stops[0].day, 1);
    assert_eq!(s.stops[0].stop, true);
    assert_eq!(s.stops[1].arrival, "00:05");
    assert_eq!(s.stops[1].departure, "00:15");
    assert_eq!(s.stops[1].day, 2);
    assert_eq!(s.stops[1].stop, false);
}

#[test]
fn schedule_prefers_a_complete_merged_route() {
    let stop = |c: &str| format!(r#"{{"station_code":"{c}","station_name":"{c}"}}"#);
    let first: Vec<String> = ["A", "B"].iter().map(|c| stop(c)).collect();
    let second: Vec<String> = ["B", "C", "D", "E", "F", "G", "H", "I", "J"].iter().map(|c| stop(c)).collect();
    let html = page(&format!(
        r#"{{"props":{{"pageProps":{{"trainTimeTable":{{"routeGroup":[{{"routesummary":[{}]}},{{"routesummary":[{}]}}]}}}}}}}}"#,
        first.join(","),
        second.join(",")
    ));
    let s = parse_schedule(&html).unwrap();
    let codes: Vec<&str> = s.stops.iter().map(|x| x.code.as_str()).collect();
    assert_eq!(codes, vec!["A", "B", "C", "D", "E", "F", "G", "H", "I", "J"]);
    assert_eq!(s.route_description, "");
}

#[test]
fn schedule_without_timetable_is_empty() {
    let s = parse_schedule(&page(r#"{"props":{"pageProps":{}}}"#)).unwrap();
    assert_eq!(s.train_number, "");
    assert!(s.run_days.is_empty());
    assert!(s.stops.is_empty());
}

#[test]
fn live_status_fields_and_route() {
    let html = page(
        r#"{"props":{"pageProps":{
            "ltsData":{"train_number":"12951","at_src":false,"spent_time":12,"title":null,"platform_number":"3"},
            "timeTableData":[{"route":[{"station_code":"MMCT","station_name":"MUMBAI CENTRAL","std_min":1020}]}]}}}"#,
    );
    let s = parse_live_status(&html).unwrap();
    assert_eq!(s.train_number.as_deref(), Some("12951"));
    assert_eq!(s.at_src.as_deref(), Some("false"));
    assert_eq!(s.spent_time.as_deref(), Some("12"));
    assert_eq!(s.title, None);
    assert_eq!(s.train_name, None);
    assert_eq!(s.platform_number.as_deref(), Some("3"));
    assert_eq!(s.stops.len(), 1);
    assert_eq!(s.stops[0].code, "MMCT");
    assert_eq!(s.stops[0].departure, "17:00");
    assert_eq!(s.stops[0].day, 1);
}

#[test]
fn parse_live_status_missing_lts_data_is_error() {
    let html = "<html><script id=\"__NEXT_DATA__\" type=\"application/json\">{\"props\":{\"pageProps\":{}}}</script></html>";
    assert!(parse_live_status(html).is_err());
}

#[test]
fn parse_pnr_getstatus_valid_json_object() {
    let out = parse_pnr_getstatus(r#"{"status":false}"#).unwrap();
    match out {
        Json::Object(f) => {
            assert_eq!(f[0].0, "status");
            assert!(matches!(f[0].1, Json::Bool(false)));
        },
        _ => panic!("not an object"),
    }
}

#[test]
fn parse_pnr_getstatus_non_json_is_error() {
    assert!(parse_pnr_getstatus("not json").is_err());
    assert!(parse_pnr_getstatus("[1]").is_err());
}
