use railway_rs::cookies::{cookie_str, merge_cookie, parse_set_cookie, CookieJar};

#[test]
fn cookie_jar_replaces_same_name_keeping_order() {
    let mut jar = vec![("TS018d84e5".to_string(), "old".to_string())];
    merge_cookie(&mut jar, "TS018d84e5".to_string(), "new".to_string());
    merge_cookie(&mut jar, "JSESSIONID".to_string(), "s1".to_string());
    merge_cookie(&mut jar, "".to_string(), "ignored".to_string());
    assert_eq!(jar.len(), 2);
    assert_eq!(jar[0], ("TS018d84e5".to_string(), "new".to_string()));
    assert_eq!(jar[1], ("JSESSIONID".to_string(), "s1".to_string()));
}

#[test]
fn cookie_header_joins_pairs() {
    let jar = vec![("a".to_string(), "1".to_string()), ("b".to_string(), "2".to_string())];
    assert_eq!(cookie_str(&jar), "a=1; b=2");
    assert_eq!(cookie_str(&[]), "");
}

#[test]
fn set_cookie_header_is_split_at_first_equals() {
    assert_eq!(
        parse_set_cookie("JSESSIONID = abc=def ; Path=/; HttpOnly"),
        Some(("JSESSIONID".to_string(), "abc=def".to_string()))
    );
    assert_eq!(parse_set_cookie("novalue; Path=/"), None);
    assert_eq!(parse_set_cookie(" =x"), None);
}

#[test]
fn jar_ingests_headers_and_renders_them() {
    let mut jar = CookieJar::new();
    assert_eq!(jar.header_value(), None);
    jar.ingest_set_cookies(&["a=1; Path=/".to_string(), "b=2".to_string(), "a=3".to_string()]);
    assert_eq!(jar.cookie_str(), "a=3; b=2");
    assert_eq!(jar.header_value(), Some("a=3; b=2".to_string()));
    let snap = jar.snapshot();
    let mut other = CookieJar::new();
    other.restore(snap);
    assert_eq!(other.cookie_str(), "a=3; b=2");
}
