use railway_rs::error::AppError;
use railway_rs::ntes::session::{
    body_snippet, challenged, csrf_from_answer, exhausted_error, form_body, form_step, form_url, recovery_for, FormStep,
    Recovery,
};

fn pairs(v: &[(&str, &str)]) -> Vec<(String, String)> {
    v.iter().map(|(k, v)| (k.to_string(), v.to_string())).collect()
}

#[test]
fn form_url_appends_each_query_parameter() {
    let url = form_url(
        "https://enquiry.indianrail.gov.in/mntes",
        "tr",
        "TrainRunning",
        "ShowRunCStn",
        &pairs(&[("trainNo", "12951")]),
    );
    assert_eq!(url, "https://enquiry.indianrail.gov.in/mntes/tr?opt=TrainRunning&subOpt=ShowRunCStn&trainNo=12951");
    assert_eq!(form_url("w", "q", "a", "b", &[]), "w/q?opt=a&subOpt=b");
}

#[test]
fn search_form_body_carries_the_search_fields_then_the_token() {
    let body = form_body("q", &pairs(&[("jFromStationInput", "NDLS")]), "csrf", "abc");
    assert_eq!(
        body,
        pairs(&[
            ("lan", "en"),
            ("appLang", "en"),
            ("find", "Get Trains"),
            ("clear", "Clear"),
            ("jFromStationInput", "NDLS"),
            ("csrf", "abc"),
        ])
    );
    let body = form_body("tr", &pairs(&[("trainNo", "12951")]), "t", "v");
    assert_eq!(body, pairs(&[("lan", "en"), ("trainNo", "12951"), ("t", "v")]));
}

#[test]
fn blank_or_markerless_answers_are_challenged() {
    assert!(challenged("   \n", None));
    assert!(!challenged("<table>", None));
    assert!(challenged("<html>captcha</html>", Some("id=\"train")));
    assert!(!challenged("<div id=\"train12951\">", Some("id=\"train")));
}

#[test]
fn recovery_drops_the_token_first_then_the_session() {
    assert_eq!(recovery_for(0), Recovery::DropToken);
    assert_eq!(recovery_for(1), Recovery::ResetSession);
    assert_eq!(form_step(0, true, false), FormStep::Accept);
    assert_eq!(form_step(0, true, true), FormStep::Retry(Recovery::DropToken));
    assert_eq!(form_step(1, false, false), FormStep::Retry(Recovery::ResetSession));
    assert_eq!(form_step(2, true, true), FormStep::Exhausted(Recovery::ResetSession));
    assert_eq!(form_step(2, false, false), FormStep::Fail);
    match exhausted_error() {
        AppError::SourceUnavailable { source, reason } => {
            assert_eq!(source, "ntes");
            assert_eq!(reason, "NTES web form returned no usable data after a CSRF + session refresh");
        },
        other => panic!("unexpected {other:?}"),
    }
}

#[test]
fn snippets_collapse_whitespace_and_cut_long_bodies() {
    assert_eq!(body_snippet("  a \n b\t c  "), "a b c");
    let long = "x".repeat(130);
    assert_eq!(body_snippet(&long), format!("{}...", "x".repeat(120)));
    assert_eq!(body_snippet(&"y".repeat(120)), "y".repeat(120));
}

#[test]
fn csrf_answers_are_read_or_refused() {
    let ok = csrf_from_answer("<input type='hidden' name='csrfToken' value='abc123'>").unwrap();
    assert_eq!(ok, ("csrfToken".to_string(), "abc123".to_string()));
    match csrf_from_answer("  ") {
        Err(AppError::SourceUnavailable { reason, .. }) => assert_eq!(reason, "empty CSRF response"),
        other => panic!("unexpected {other:?}"),
    }
    match csrf_from_answer("<html>  busy </html>") {
        Err(AppError::SourceUnavailable { reason, .. }) => {
            assert_eq!(reason, "no CSRF token in response: <html> busy </html>")
        },
        other => panic!("unexpected {other:?}"),
    }
}
