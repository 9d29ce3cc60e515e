use gxr::classify::{Platform, Verdict};
use gxr::latency::Latency;
use gxr::probe::{
    probe_arguments, AttemptEvent, NextStep, PingResult, ProbeExecutor, ProbeOutcome, Status,
};

fn unanswered() -> AttemptEvent {
    AttemptEvent::Completed(Verdict { success: false, latency: None })
}

fn answered(numeral: &str) -> AttemptEvent {
    AttemptEvent::Completed(Verdict { success: true, latency: Latency::parse(numeral) })
}

#[test]
fn test_ping_result_creation() {
    let success = PingResult::success("192.168.1.1".to_string(), Latency::parse("10.5"));
    assert!(success.is_success());
    assert_eq!(success.ip, "192.168.1.1");
    assert_eq!(success.response_time.map(|l| l.as_str().parse::<f64>().unwrap()), Some(10.5));

    let failure = PingResult::failure("192.168.1.2".to_string());
    assert!(!failure.is_success());
    assert_eq!(failure.ip, "192.168.1.2");
    assert!(failure.response_time.is_none());
}

#[test]
fn result_follows_the_outcome() {
    let r = PingResult::conclude("10.0.0.1".to_string(), ProbeOutcome::Success { latency: None });
    assert_eq!(r.status, Status::Success);
    assert!(r.response_time.is_none());
    let r = PingResult::conclude("10.0.0.1".to_string(), ProbeOutcome::Failure);
    assert_eq!(r.status, Status::Failure);
    assert!(r.response_time.is_none());
}

#[test]
fn two_failures_then_a_success_take_three_attempts() {
    let (mut executor, first) = ProbeExecutor::begin(Platform::DecimalTimeout, 3);
    assert!(matches!(first, NextStep::Attempt { backoff_millis: 0 }));
    assert!(matches!(executor.after_attempt(unanswered()), NextStep::Attempt { backoff_millis: 100 }));
    assert!(matches!(executor.after_attempt(unanswered()), NextStep::Attempt { backoff_millis: 100 }));
    assert!(!executor.is_finished());
    match executor.after_attempt(answered("4.2")) {
        NextStep::Done(ProbeOutcome::Success { latency }) => {
            assert_eq!(latency.unwrap().as_str(), "4.2")
        }
        other => panic!("{:?}", other),
    }
    assert_eq!(executor.attempts_made(), 3);
    assert!(executor.is_finished());
}

#[test]
fn three_failures_end_in_failure_without_a_last_pause() {
    let (mut executor, _) = ProbeExecutor::begin(Platform::MillisecondTimeout, 3);
    assert!(matches!(executor.after_attempt(unanswered()), NextStep::Attempt { backoff_millis: 200 }));
    assert!(matches!(executor.after_attempt(unanswered()), NextStep::Attempt { backoff_millis: 200 }));
    assert!(matches!(executor.after_attempt(unanswered()), NextStep::Done(ProbeOutcome::Failure)));
    assert_eq!(executor.attempts_made(), 3);
    assert!(executor.is_finished());
}

#[test]
fn first_success_ends_the_probe() {
    let (mut executor, _) = ProbeExecutor::begin(Platform::MillisecondTimeout, 5);
    assert!(matches!(
        executor.after_attempt(answered("1")),
        NextStep::Done(ProbeOutcome::Success { latency: Some(_) })
    ));
    assert_eq!(executor.attempts_made(), 1);
    assert!(executor.is_finished());
}

#[test]
fn utility_that_cannot_run_ends_the_probe_at_once() {
    let (mut executor, _) = ProbeExecutor::begin(Platform::DecimalTimeout, 3);
    assert!(matches!(executor.after_attempt(AttemptEvent::NotRun), NextStep::Done(ProbeOutcome::Failure)));
    assert_eq!(executor.attempts_made(), 1);
    assert!(executor.is_finished());
}

#[test]
fn no_attempt_allowed_is_a_failure_at_once() {
    let (executor, first) = ProbeExecutor::begin(Platform::DecimalTimeout, 0);
    assert!(matches!(first, NextStep::Done(ProbeOutcome::Failure)));
    assert!(executor.is_finished());
    assert_eq!(executor.attempts_made(), 0);
}

#[test]
fn single_attempt_has_no_pause() {
    let (mut executor, _) = ProbeExecutor::begin(Platform::DecimalTimeout, 1);
    assert!(matches!(executor.after_attempt(unanswered()), NextStep::Done(ProbeOutcome::Failure)));
}

#[test]
fn arguments_of_the_millisecond_family() {
    assert_eq!(
        probe_arguments(Platform::MillisecondTimeout, 2, "10.0.0.1"),
        vec!["-n", "1", "-w", "1000", "-4", "-l", "32", "10.0.0.1"]
    );
    assert_eq!(probe_arguments(Platform::MillisecondTimeout, 0, "h")[3], "0");
    assert_eq!(
        probe_arguments(Platform::MillisecondTimeout, u64::MAX, "h")[3],
        "9223372036854775807500"
    );
}

#[test]
fn arguments_of_the_decimal_family() {
    assert_eq!(
        probe_arguments(Platform::DecimalTimeout, 2, "10.0.0.1"),
        vec!["-c", "1", "-W", "2", "10.0.0.1"]
    );
    assert_eq!(probe_arguments(Platform::DecimalTimeout, u64::MAX, "h")[3], "18446744073709551615");
}

#[test]
fn executor_judges_the_output_itself() {
    let (mut executor, _) = ProbeExecutor::begin(Platform::DecimalTimeout, 2);
    let step = executor.after_output(b"Request timeout for icmp_seq 1", false);
    assert!(matches!(step, NextStep::Attempt { backoff_millis: 100 }));
    let step = executor.after_output(b"64 bytes from 10.0.0.1: icmp_seq=1 ttl=64 time=1.23 ms", true);
    match step {
        NextStep::Done(ProbeOutcome::Success { latency }) => {
            assert_eq!(latency.unwrap().as_str(), "1.23")
        }
        other => panic!("{:?}", other),
    }
    assert_eq!(executor.attempts_made(), 2);

    let (mut executor, _) = ProbeExecutor::begin(Platform::MillisecondTimeout, 1);
    let step = executor.after_output(b"Request timed out.", true);
    assert!(matches!(step, NextStep::Done(ProbeOutcome::Failure)));
}
