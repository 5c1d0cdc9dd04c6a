use railway_rs::json::{day_bool, read_json, str_field, ValueExt};

#[test]
fn lenient_field_reads() {
    let v = read_json(r#"{"a":"x","e":"","n":7,"s":"-12","bad":"1.5","t":true}"#).unwrap();
    assert_eq!(v.str_field("a"), "x");
    assert_eq!(v.str_field("n"), "");
    assert_eq!(str_field(&v, "missing"), "");
    assert_eq!(v.opt_str("a").as_deref(), Some("x"));
    assert_eq!(v.opt_str("e"), None);
    assert_eq!(v.str_one_of(&["n", "e", "a"]), "");
    assert_eq!(v.str_one_of(&["n", "a"]), "x");
    assert_eq!(v.str_one_of(&["n"]), "");
    assert_eq!(v.i64_one_of(&["a", "n"]), Some(7));
    assert_eq!(v.i64_one_of(&["bad", "s"]), Some(-12));
    assert_eq!(v.i64_one_of(&["bad", "t"]), None);
}

#[test]
fn run_days_read_either_spelling() {
    let v = read_json(r#"{"runOnMon":true,"runsOnTue":true,"runOnWed":false,"runOnThu":"true"}"#).unwrap();
    assert!(day_bool(&v, "Mon"));
    assert!(day_bool(&v, "Tue"));
    assert!(!day_bool(&v, "Wed"));
    assert!(!day_bool(&v, "Thu"));
    assert!(!day_bool(&v, "Fri"));
}
