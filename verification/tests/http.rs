use railway_rs::corover::{FetchOutcome, FetchStep};
use railway_rs::http::{get_step, retry_delay};

#[test]
fn get_retries_once_except_on_client_errors() {
    assert_eq!(get_step(0, &FetchOutcome::Status(200)), FetchStep::Decode);
    assert_eq!(get_step(0, &FetchOutcome::Status(404)), FetchStep::Fail);
    assert_eq!(get_step(0, &FetchOutcome::Status(503)), FetchStep::Retry);
    assert_eq!(get_step(0, &FetchOutcome::Status(302)), FetchStep::Retry);
    assert_eq!(get_step(1, &FetchOutcome::Status(503)), FetchStep::Fail);
    assert_eq!(get_step(0, &FetchOutcome::Transport { transient: false }), FetchStep::Retry);
    assert_eq!(get_step(1, &FetchOutcome::Transport { transient: true }), FetchStep::Fail);
}

#[test]
fn retry_pause_is_between_200_and_300_ms_and_stable_per_url() {
    let a = retry_delay("https://example.in/x");
    assert!(a.as_millis() >= 200 && a.as_millis() < 300);
    assert_eq!(a, retry_delay("https://example.in/x"));
}
