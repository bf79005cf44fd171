use rustscan::address::{IpAddress, SocketTarget};
use rustscan::probe::{
    is_fatal_error, mentions_exhaustion, AttemptResult, Probe, ProbeOutcome, ProbeStep,
};

fn target() -> SocketTarget {
    SocketTarget::new(IpAddress::V4(0x7f00_0001), 80)
}

fn refused() -> AttemptResult {
    AttemptResult::Failed("Connection refused (os error 111)".to_string())
}

#[test]
fn connection_opens_the_target() {
    let probe = Probe::new(target(), 3);
    match probe.attempt(AttemptResult::Connected, "127.0.0.1") {
        ProbeStep::Done(ProbeOutcome::Open(found)) => assert_eq!(found, target()),
        other => panic!("unexpected step {other:?}"),
    }
}

#[test]
fn single_try_closes_on_first_failure() {
    let probe = Probe::new(target(), 1);
    match probe.attempt(refused(), "127.0.0.1") {
        ProbeStep::Done(ProbeOutcome::Closed(text)) => {
            assert_eq!(text, "Connection refused (os error 111) 127.0.0.1")
        }
        other => panic!("unexpected step {other:?}"),
    }
}

#[test]
fn zero_tries_count_as_one() {
    let probe = Probe::new(target(), 0);
    assert_eq!(probe.tries, 1);
    assert_eq!(probe.failures, 0);
    assert!(matches!(
        probe.attempt(refused(), "::1"),
        ProbeStep::Done(ProbeOutcome::Closed(_))
    ));
    let bare = Probe { target: target(), tries: 0, failures: 0 };
    assert!(matches!(
        bare.attempt(refused(), "::1"),
        ProbeStep::Done(ProbeOutcome::Closed(_))
    ));
}

#[test]
fn failures_are_retried_until_the_last_try() {
    let mut probe = Probe::new(target(), 3);
    let mut attempts: u8 = 0;
    let outcome = loop {
        attempts += 1;
        match probe.attempt(
            AttemptResult::Failed(format!("timed out, attempt {attempts}")),
            "10.0.0.7",
        ) {
            ProbeStep::Retry(next) => {
                assert_eq!(next.target, target());
                assert_eq!(next.tries, 3);
                assert_eq!(next.failures, attempts);
                probe = next;
            }
            ProbeStep::Done(outcome) => break outcome,
        }
    };
    assert_eq!(attempts, 3);
    match outcome {
        ProbeOutcome::Closed(text) => assert_eq!(text, "timed out, attempt 3 10.0.0.7"),
        other => panic!("unexpected outcome {other:?}"),
    }
}

#[test]
fn retry_can_still_open() {
    let probe = Probe::new(target(), 2);
    let next = match probe.attempt(refused(), "127.0.0.1") {
        ProbeStep::Retry(next) => next,
        other => panic!("unexpected step {other:?}"),
    };
    assert!(matches!(
        next.attempt(AttemptResult::Connected, "127.0.0.1"),
        ProbeStep::Done(ProbeOutcome::Open(_))
    ));
}

#[test]
fn maximal_tries_do_not_overflow() {
    let probe = Probe { target: target(), tries: 255, failures: 254 };
    assert!(matches!(
        probe.attempt(refused(), "127.0.0.1"),
        ProbeStep::Done(ProbeOutcome::Closed(_))
    ));
    let early = Probe { target: target(), tries: 255, failures: 253 };
    match early.attempt(refused(), "127.0.0.1") {
        ProbeStep::Retry(next) => assert_eq!(next.failures, 254),
        other => panic!("unexpected step {other:?}"),
    }
    let past = Probe { target: target(), tries: 2, failures: 255 };
    assert!(matches!(
        past.attempt(refused(), "127.0.0.1"),
        ProbeStep::Done(ProbeOutcome::Closed(_))
    ));
}

#[test]
fn exhaustion_is_fatal_on_any_try() {
    let probe = Probe::new(target(), 5);
    match probe.attempt(
        AttemptResult::Failed("Too many open files (os error 24)".to_string()),
        "127.0.0.1",
    ) {
        ProbeStep::Done(ProbeOutcome::Fatal(text)) => {
            assert_eq!(text, "Too many open files (os error 24)")
        }
        other => panic!("unexpected step {other:?}"),
    }
}

#[test]
fn caller_may_judge_the_error() {
    let probe = Probe::new(target(), 5);
    assert!(matches!(
        probe.attempt_with(refused(), true, "127.0.0.1"),
        ProbeStep::Done(ProbeOutcome::Fatal(_))
    ));
    assert!(matches!(
        probe.attempt_with(
            AttemptResult::Failed("too many open files".to_string()),
            false,
            "127.0.0.1"
        ),
        ProbeStep::Retry(_)
    ));
    assert!(matches!(
        probe.attempt_with(AttemptResult::Connected, true, "127.0.0.1"),
        ProbeStep::Done(ProbeOutcome::Open(_))
    ));
}

#[test]
fn fatal_text_is_found_in_any_case() {
    assert!(is_fatal_error("too many open files"));
    assert!(is_fatal_error("Too Many Open Files (os error 24)"));
    assert!(is_fatal_error("connect: TOO MANY OPEN FILES"));
    assert!(!is_fatal_error("Connection refused (os error 111)"));
    assert!(!is_fatal_error("too many open file"));
    assert!(!is_fatal_error(""));
}

#[test]
fn lowered_text_is_searched_as_it_is() {
    assert!(mentions_exhaustion("too many open files"));
    assert!(mentions_exhaustion("error: too many open files (os error 24)"));
    assert!(!mentions_exhaustion("Too many open files"));
    assert!(!mentions_exhaustion("too many open  files"));
}
