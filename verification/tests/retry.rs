//! When a request is sent again.

use codex_core::error::CodexErr;
use codex_core::retry::{
    budget_after, decide, parse_retry_after, rejection, wait_is_writable, Attempts, PostOutcome,
    RetryAction,
};

fn reply(status: u16, retry_after_secs: Option<u64>) -> PostOutcome {
    PostOutcome::Reply {
        status,
        status_text: format!("{status} Reason"),
        retry_after_secs,
    }
}

fn failed(timed_out: bool) -> PostOutcome {
    PostOutcome::Failed {
        message: "no route".to_string(),
        timed_out,
    }
}

#[test]
fn a_success_is_streamed() {
    for status in [200, 204, 299] {
        assert_eq!(
            decide("Anthropic", 9, 3, &reply(status, Some(1))),
            RetryAction::Stream
        );
    }
}

#[test]
fn most_statuses_are_rejected_at_once() {
    for status in [100, 199, 300, 400, 401, 404, 428, 430, 499, 600] {
        assert_eq!(decide("Nemotron", 1, 3, &reply(status, None)), RetryAction::Reject);
    }
    assert_eq!(
        rejection("Nemotron", "404 Not Found", "no such model"),
        CodexErr::UnsupportedOperation(
            "Nemotron API returned 404 Not Found: no such model".to_string()
        )
    );
}

#[test]
fn too_many_requests_and_faults_are_retried() {
    for status in [429, 500, 503, 599] {
        assert_eq!(
            decide("Anthropic", 3, 3, &reply(status, None)),
            RetryAction::Backoff { attempt: 3 }
        );
        assert_eq!(
            decide("Anthropic", 4, 3, &reply(status, Some(7))),
            RetryAction::GiveUp(CodexErr::UnsupportedOperation(format!(
                "Anthropic API retry limit reached (status {status} Reason)"
            )))
        );
    }
}

#[test]
fn the_wait_is_the_one_asked_for() {
    assert_eq!(
        decide("Anthropic", 1, 3, &reply(429, Some(7))),
        RetryAction::Wait { millis: 7000 }
    );
    assert_eq!(
        decide("Anthropic", 1, 3, &reply(503, Some(0))),
        RetryAction::Wait { millis: 0 }
    );
}

#[test]
fn a_failed_connection_is_retried() {
    assert_eq!(
        decide("Nemotron", 1, 1, &failed(false)),
        RetryAction::Backoff { attempt: 1 }
    );
    assert_eq!(
        decide("Nemotron", 2, 1, &failed(true)),
        RetryAction::GiveUp(CodexErr::UnsupportedOperation(
            "Nemotron connection failed after retries: no route".to_string()
        ))
    );
}

#[test]
fn without_retries_there_is_one_attempt() {
    assert_eq!(
        decide("Nemotron", 1, 0, &failed(false)),
        RetryAction::GiveUp(CodexErr::UnsupportedOperation(
            "Nemotron connection failed after retries: no route".to_string()
        ))
    );
}

#[test]
fn a_timeout_halves_the_budget_down_to_the_least() {
    assert_eq!(budget_after(4096, &failed(true)), 2048);
    assert_eq!(budget_after(2049, &failed(true)), 1024);
    assert_eq!(budget_after(2047, &failed(true)), 1024);
    assert_eq!(budget_after(1024, &failed(true)), 1024);
    assert_eq!(budget_after(4096, &failed(false)), 4096);
    assert_eq!(budget_after(4096, &reply(503, None)), 4096);
}

#[test]
fn a_retry_after_is_a_number_of_seconds() {
    assert_eq!(parse_retry_after(Some("30")), Some(30));
    assert_eq!(parse_retry_after(Some("+30")), Some(30));
    assert_eq!(parse_retry_after(Some("18446744073709551615")), Some(u64::MAX));
    assert_eq!(parse_retry_after(Some("18446744073709551616")), None);
    assert_eq!(parse_retry_after(Some(" 30")), None);
    assert_eq!(parse_retry_after(Some("Wed, 21 Oct 2015 07:28:00 GMT")), None);
    assert_eq!(parse_retry_after(None), None);
}

#[test]
fn a_wait_has_to_be_writable_only_where_there_is_one() {
    let longest = u64::MAX / 1000;
    assert!(wait_is_writable(1, 3, &reply(429, Some(longest))));
    assert!(!wait_is_writable(1, 3, &reply(429, Some(longest + 1))));
    assert!(!wait_is_writable(3, 3, &reply(500, Some(u64::MAX))));
    assert!(wait_is_writable(4, 3, &reply(500, Some(u64::MAX))));
    assert!(wait_is_writable(1, 3, &reply(200, Some(u64::MAX))));
    assert!(wait_is_writable(1, 3, &reply(404, Some(u64::MAX))));
    assert!(wait_is_writable(1, 3, &failed(true)));
}

#[test]
fn attempts_are_counted_until_none_is_left() {
    let mut attempts = Attempts::new(2, 5000);
    assert!(attempts.can_count(&failed(true)));
    assert_eq!(
        attempts.count("Nemotron", &failed(true)),
        RetryAction::Backoff { attempt: 1 }
    );
    assert_eq!(attempts.thinking_budget, 2500);
    assert_eq!(
        attempts.count("Nemotron", &reply(429, Some(1))),
        RetryAction::Wait { millis: 1000 }
    );
    assert_eq!(attempts.thinking_budget, 2500);
    assert!(matches!(
        attempts.count("Nemotron", &failed(true)),
        RetryAction::GiveUp(_)
    ));
    // The last timeout leaves the budget alone: there is no other attempt.
    assert_eq!(
        attempts,
        Attempts {
            made: 3,
            max_retries: 2,
            thinking_budget: 2500
        }
    );
}

#[test]
fn an_attempt_that_cannot_be_counted_is_told() {
    let attempts = Attempts {
        made: u64::MAX,
        max_retries: u64::MAX,
        thinking_budget: 1024,
    };
    assert!(!attempts.can_count(&failed(false)));
    assert!(!Attempts::new(1, 1024).can_count(&reply(503, Some(u64::MAX))));
}
