use fproxy::BindRetry;
use fproxy::BindSocketRetryOption;
use fproxy::RetryDecision;

fn option(attempts: u8, max: u64, inc: u64) -> BindSocketRetryOption {
    BindSocketRetryOption { attempts, max_delay_duration: max, increment_duration: inc }
}

/// Drives the retry state machine against a bind that fails `k` times and
/// then succeeds; returns (succeeded, tries, waited).
fn run(option: BindSocketRetryOption, k: u32) -> (bool, u32, u64) {
    let mut state = BindRetry::new(option);
    let mut tries: u32 = 0;
    let mut waited: u64 = 0;
    loop {
        tries += 1;
        if tries > k {
            return (true, tries, waited);
        }
        match state.on_failure() {
            RetryDecision::GiveUp => return (false, tries, waited),
            RetryDecision::Wait(d) => waited += d,
        }
    }
}

#[test]
fn default_retry_option() {
    let o = BindSocketRetryOption::default();
    assert_eq!(o.attempts, 10);
    assert_eq!(o.max_delay_duration, 40_000);
    assert_eq!(o.increment_duration, 10_000);
}

#[test]
fn backoff_grows_linearly_and_resets_past_cap() {
    let mut state = BindRetry::new(option(10, 40, 10));
    let delays: Vec<RetryDecision> = (0..6).map(|_| state.on_failure()).collect();
    assert_eq!(
        delays,
        vec![
            RetryDecision::Wait(10),
            RetryDecision::Wait(20),
            RetryDecision::Wait(30),
            RetryDecision::Wait(40),
            RetryDecision::Wait(10),
            RetryDecision::Wait(20),
        ]
    );
}

#[test]
fn bind_succeeds_after_k_failures_with_k_plus_one_attempts() {
    assert_eq!(run(option(4, 40, 10), 3), (true, 4, 60));
    assert_eq!(run(option(1, 40, 10), 0), (true, 1, 0));
    assert_eq!(run(option(6, 25, 10), 5), (true, 6, 10 + 20 + 10 + 20 + 10));
}

#[test]
fn bind_gives_up_after_attempts_tries() {
    assert_eq!(run(option(3, 40, 10), 3), (false, 3, 30));
    assert_eq!(run(option(3, 40, 10), 10), (false, 3, 30));
    assert_eq!(run(option(1, 40, 10), 1), (false, 1, 0));
}

#[test]
fn zero_attempts_still_tries_once() {
    assert_eq!(run(option(0, 40, 10), 5), (false, 1, 0));
}

#[test]
fn backoff_does_not_overflow() {
    let mut state = BindRetry::new(option(5, u64::MAX, u64::MAX - 1));
    assert_eq!(state.on_failure(), RetryDecision::Wait(u64::MAX - 1));
    assert_eq!(state.on_failure(), RetryDecision::Wait(u64::MAX - 1));
}
