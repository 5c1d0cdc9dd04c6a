use railway_rs::aggregator::{all_failed, classify, no_sources_error, route_target, AgentFailure};
use railway_rs::error::{AppError, CaptchaRequiredError};

fn names(v: &[&str]) -> Vec<String> {
    v.iter().map(|s| s.to_string()).collect()
}

#[test]
fn targeted_request_goes_to_the_named_source() {
    assert_eq!(route_target(&names(&["a", "b"]), "b").unwrap(), 1);
    assert_eq!(route_target(&names(&["a", "b", "b"]), "b").unwrap(), 1);
}

#[test]
fn unknown_target_is_a_bad_request() {
    match route_target(&names(&["a"]), "nope") {
        Err(AppError::BadRequest(m)) => assert_eq!(m, "Source nope not found"),
        other => panic!("unexpected {other:?}"),
    }
}

#[test]
fn all_failures_combine_into_one_source_error() {
    let fs = vec![classify(AppError::internal("boom")), classify(AppError::internal("boom"))];
    match all_failed(2, "q", fs) {
        AppError::SourceUnavailable { source, reason } => {
            assert_eq!(source, "all-sources");
            assert_eq!(reason, "2 sub-agents failed to resolve query 'q': boom | boom");
        },
        other => panic!("unexpected {other:?}"),
    }
}

#[test]
fn a_captcha_challenge_wins_over_other_failures() {
    let first = CaptchaRequiredError::new("irctc", "img1", "s1");
    let last = CaptchaRequiredError::new("ntes", "img2", "s2");
    let fs = vec![
        AgentFailure::Captcha(first),
        classify(AppError::source_unavailable("x", "down")),
        classify(AppError::CaptchaRequired(last)),
    ];
    match all_failed(3, "q", fs) {
        AppError::CaptchaRequired(c) => {
            assert_eq!(c.source, "ntes");
            assert_eq!(c.image, "img2");
        },
        other => panic!("unexpected {other:?}"),
    }
}

#[test]
fn failures_are_recorded_by_their_message() {
    match classify(AppError::source_unavailable("x", "down")) {
        AgentFailure::Failed(m) => assert_eq!(m, "Live source x unavailable: down"),
        other => panic!("unexpected {other:?}"),
    }
    match no_sources_error() {
        AppError::Internal(m) => assert_eq!(m, "no data sources configured"),
        other => panic!("unexpected {other:?}"),
    }
}
