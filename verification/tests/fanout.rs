use railway_rs::error::AppError;
use railway_rs::failover::Failover;
use railway_rs::fanout::{
    after_failure, all_skipped_error, attempt_timeout_error, jitter_delay, launch_order, no_candidates_error,
    overall_timeout_error, permit_timeout_error, plan_launch_at, AttemptAction, FanoutTally,
};
use std::time::Duration;

#[test]
fn healthy_sources_launch_first_and_open_ones_are_skipped() {
    let mut f = Failover::new(3, Duration::from_secs(30));
    for _ in 0..3 {
        f.record_failure_at("ntes", 0);
    }
    let plan = plan_launch_at(&mut f, &["ntes", "railyatri"], 1);
    assert_eq!(plan.order, vec![1, 0]);
    assert_eq!(plan.launch, vec![1]);
    assert_eq!(plan.skipped, vec!["ntes: circuit open (cooldown)".to_string()]);
}

#[test]
fn cooled_circuit_is_probed_again() {
    let mut f = Failover::new(1, Duration::from_secs(1));
    f.record_failure_at("ntes", 0);
    let plan = plan_launch_at(&mut f, &["ntes"], 2_000_000_000);
    assert_eq!(plan.launch, vec![0]);
    assert!(plan.skipped.is_empty());
}

#[test]
fn duplicate_labels_launch_together() {
    assert_eq!(launch_order(&["a", "b", "a"], &["a", "b", "a"]), vec![0, 2, 1]);
    assert_eq!(launch_order(&["a", "b"], &["b", "a"]), vec![1, 0]);
}

#[test]
fn live_failures_retry_once_then_trip() {
    let e = AppError::source_unavailable("ntes", "down");
    assert_eq!(after_failure(0, &e), AttemptAction::Retry);
    assert_eq!(after_failure(1, &e), AttemptAction::Fail { trip: true });
    assert_eq!(after_failure(0, &AppError::internal("x")), AttemptAction::Retry);
    assert_eq!(after_failure(0, &AppError::not_found("x")), AttemptAction::Fail { trip: false });
    assert_eq!(after_failure(1, &AppError::bad_request("x")), AttemptAction::Fail { trip: false });
}

#[test]
fn jitter_stays_within_its_window_and_is_stable() {
    let d = jitter_delay("q", "ntes");
    assert!(d >= Duration::from_millis(200) && d < Duration::from_millis(300));
    assert_eq!(d, jitter_delay("q", "ntes"));
}

#[test]
fn all_not_found_is_not_found() {
    let mut t = FanoutTally::new(Vec::new());
    t.note(AppError::not_found("no train"));
    t.note(AppError::not_found("no train"));
    match t.finish("q") {
        AppError::NotFound(m) => assert_eq!(m, "no train | no train"),
        _ => panic!("expected not found"),
    }
}

#[test]
fn all_fail_returns_combined_error() {
    let mut t = FanoutTally::new(vec!["ntes: circuit open (cooldown)".to_string()]);
    t.note(AppError::source_unavailable("railyatri", "down"));
    t.note(AppError::not_found("nothing"));
    t.note(AppError::internal("oops"));
    match t.finish("q") {
        AppError::SourceUnavailable { source, reason } => {
            assert_eq!(source, "all-sources");
            assert_eq!(
                reason,
                "fanout: 4 candidates failed for 'q': ntes: circuit open (cooldown) | railyatri: Live source railyatri unavailable: down | source: oops | not_found: nothing"
            );
        }
        _ => panic!("expected source unavailable"),
    }
}

#[test]
fn captcha_wins_over_other_failures() {
    let mut t = FanoutTally::new(Vec::new());
    t.note(AppError::source_unavailable("ntes", "down"));
    t.note(AppError::CaptchaRequired(railway_rs::error::CaptchaRequiredError::new("irctc", "img", "sid")));
    assert!(matches!(t.finish("q"), AppError::CaptchaRequired(_)));
}

#[test]
fn race_error_messages() {
    assert_eq!(no_candidates_error().message(), "fanout: no candidates");
    assert_eq!(all_skipped_error(&[]).message(), "Live source all-sources unavailable: all candidates skipped");
    assert_eq!(
        all_skipped_error(&["a: circuit open (cooldown)".to_string(), "b: circuit open (cooldown)".to_string()]).message(),
        "Live source all-sources unavailable: all candidates circuit-open: a: circuit open (cooldown) | b: circuit open (cooldown)"
    );
    assert_eq!(attempt_timeout_error("ntes").message(), "Live source ntes unavailable: timeout after 5000ms");
    assert_eq!(
        permit_timeout_error("ntes").message(),
        "Live source ntes unavailable: semaphore acquire timeout (fanout back-pressure)"
    );
    assert_eq!(
        overall_timeout_error("q").message(),
        "Live source all-sources unavailable: fanout overall timeout after 10500ms for 'q'"
    );
}
