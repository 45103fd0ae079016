use paper_dump::cache::{
    image_content_type, on_create_outcome, resolve_end, CacheStep, CreateOutcome, ResolveEnd,
};
use paper_dump::pipeline::{on_output_create, WriteOutcome, WriteStep};
use paper_dump::retry::{FetchOutcome, RetryDecision, RetryState, MAX_ATTEMPTS};

fn b(s: &str) -> Vec<u8> {
    s.as_bytes().to_vec()
}

#[test]
fn transient_failures_are_attempted_exactly_three_times() {
    let mut st = RetryState::new();
    let mut attempts = 0;
    loop {
        if st.exhausted() {
            break;
        }
        attempts += 1;
        let d = st.record(FetchOutcome::TransportError);
        assert_eq!(d, RetryDecision::RetryAfterBackoff);
    }
    assert_eq!(attempts, MAX_ATTEMPTS as u32);
    assert!(st.exhausted());
}

#[test]
fn api_error_is_never_retried() {
    let mut st = RetryState::new();
    assert!(!st.exhausted());
    let d = st.record(FetchOutcome::ApiError);
    assert_eq!(d, RetryDecision::Abandon);
    assert!(!st.exhausted());
}

#[test]
fn success_finishes_and_unavailable_backs_off() {
    let mut st = RetryState::new();
    assert_eq!(st.record(FetchOutcome::ServiceUnavailable), RetryDecision::RetryAfterBackoff);
    assert_eq!(st.record(FetchOutcome::Success), RetryDecision::Finish);
}

#[test]
fn create_outcomes_map_to_cache_steps() {
    assert_eq!(on_create_outcome(false, CreateOutcome::Created), CacheStep::Fetch);
    assert_eq!(on_create_outcome(false, CreateOutcome::AlreadyExists), CacheStep::ReuseExisting);
    assert_eq!(on_create_outcome(true, CreateOutcome::AlreadyExists), CacheStep::ReuseExisting);
    assert_eq!(on_create_outcome(false, CreateOutcome::NameTooLong), CacheStep::RetryHashOnly);
    assert_eq!(on_create_outcome(true, CreateOutcome::NameTooLong), CacheStep::Fail);
    assert_eq!(on_create_outcome(false, CreateOutcome::OtherFailure), CacheStep::Fail);
}

#[test]
fn content_type_must_be_an_image() {
    assert!(image_content_type(&b("image/png")));
    assert!(image_content_type(&b("image/svg+xml")));
    assert!(!image_content_type(&b("text/html")));
    assert!(!image_content_type(&b("")));
    assert!(!image_content_type(&b("imag")));
}

#[test]
fn non_image_response_is_removed_not_cached() {
    assert_eq!(resolve_end(&Some(b("text/html; charset=utf-8")), true), ResolveEnd::AbandonRemoved);
    assert_eq!(resolve_end(&Some(b("text/html")), false), ResolveEnd::AbandonRemoved);
}

#[test]
fn failed_stream_is_removed_successful_stream_is_kept() {
    assert_eq!(resolve_end(&Some(b("image/png")), false), ResolveEnd::AbandonRemoved);
    assert_eq!(resolve_end(&Some(b("image/png")), true), ResolveEnd::Cached);
    assert_eq!(resolve_end(&None, true), ResolveEnd::AbandonRemoved);
}

#[test]
fn output_create_outcomes_map_to_write_steps() {
    assert_eq!(on_output_create(WriteOutcome::Created), WriteStep::WriteBody);
    assert_eq!(on_output_create(WriteOutcome::AlreadyExists), WriteStep::SkipAlreadyOnDisk);
    assert_eq!(on_output_create(WriteOutcome::OtherFailure), WriteStep::FailDocument);
}
