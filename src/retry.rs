use vstd::prelude::*;

verus! {

/// Retry options for binding a listening socket. Durations are in
/// milliseconds.
#[derive(Clone, Copy, Debug, PartialEq, Eq, Structural)]
pub struct BindSocketRetryOption {
    /// Maximum bind attempts before returning the last occurred error.
    /// Zero is taken as one: the first bind is always attempted.
    pub attempts: u8,
    /// Max delay before resetting the delay to `increment_duration`.
    pub max_delay_duration: u64,
    /// Delay added after each failed attempt.
    pub increment_duration: u64,
}

/// Default number of bind attempts.
pub const DEFAULT_BIND_ATTEMPTS: u8 = 10;

/// Default cap of the delay between bind attempts, in milliseconds.
pub const DEFAULT_MAX_DELAY_MS: u64 = 40_000;

/// Default delay increment between bind attempts, in milliseconds.
pub const DEFAULT_INCREMENT_MS: u64 = 10_000;

impl Default for BindSocketRetryOption {
    fn default() -> (r: Self)
        ensures
            r.attempts == DEFAULT_BIND_ATTEMPTS,
            r.max_delay_duration == DEFAULT_MAX_DELAY_MS,
            r.increment_duration == DEFAULT_INCREMENT_MS,
    {
        BindSocketRetryOption {
            attempts: DEFAULT_BIND_ATTEMPTS,
            max_delay_duration: DEFAULT_MAX_DELAY_MS,
            increment_duration: DEFAULT_INCREMENT_MS,
        }
    }
}

/// What to do after a failed bind attempt.
#[derive(Clone, Copy, Debug, PartialEq, Eq, Structural)]
pub enum RetryDecision {
    /// Give up and surface the last error.
    GiveUp,
    /// Wait this many milliseconds, then try again.
    Wait(u64),
}

/// State of a bind retry loop: the tries that are left and the last delay.
#[derive(Clone, Copy, Debug, PartialEq, Eq, Structural)]
pub struct BindRetry {
    /// Tries left, the one under way included.
    pub tries_left: u8,
    /// The delay waited after the previous failure (zero before any).
    pub delay: u64,
    /// The options the loop was started with.
    pub option: BindSocketRetryOption,
}

/// Linear backoff: the previous delay grows by `inc`, and starts over at
/// `inc` once it would exceed `max`.
pub open spec fn next_delay(prev: nat, inc: nat, max: nat) -> nat {
    if prev + inc > max {
        inc
    } else {
        prev + inc
    }
}

/// The state and decision that follow a failed bind attempt in state `s`.
pub open spec fn retry_step(s: BindRetry) -> (BindRetry, RetryDecision) {
    if s.tries_left <= 1 {
        (BindRetry { tries_left: 0, ..s }, RetryDecision::GiveUp)
    } else {
        let d = next_delay(
            s.delay as nat,
            s.option.increment_duration as nat,
            s.option.max_delay_duration as nat,
        );
        (BindRetry { tries_left: (s.tries_left - 1) as u8, delay: d as u64, ..s }, RetryDecision::Wait(d as u64))
    }
}

/// Sum of the first `k` delays of the backoff schedule that follows `d0`.
pub open spec fn backoff_total(inc: nat, max: nat, d0: nat, k: nat) -> nat
    decreases k,
{
    if k == 0 {
        0
    } else {
        let d = next_delay(d0, inc, max);
        d + backoff_total(inc, max, d, (k - 1) as nat)
    }
}

/// Outcome of a bind loop run from state `s` against a bind call that fails
/// `k` more times and then succeeds: whether it succeeded, how many bind
/// calls were made, and the total time waited.
pub open spec fn drive(s: BindRetry, k: nat) -> (bool, nat, nat)
    decreases k,
{
    if k == 0 {
        (true, 1, 0)
    } else {
        match retry_step(s).1 {
            RetryDecision::GiveUp => (false, 1, 0),
            RetryDecision::Wait(d) => {
                let r = drive(retry_step(s).0, (k - 1) as nat);
                (r.0, r.1 + 1, r.2 + d as nat)
            },
        }
    }
}

impl BindRetry {
    /// Start a retry loop with `option`, before the first bind attempt.
    pub fn new(option: BindSocketRetryOption) -> (r: Self)
        ensures
            r.tries_left == option.attempts,
            r.delay == 0,
            r.option == option,
    {
        BindRetry { tries_left: option.attempts, delay: 0, option }
    }

    /// Record a failed bind attempt and decide whether to try again.
    pub fn on_failure(&mut self) -> (r: RetryDecision)
        ensures
            (*final(self), r) == retry_step(*old(self)),
    {
        if self.tries_left <= 1 {
            self.tries_left = 0;
            return RetryDecision::GiveUp;
        }
        let inc: u64 = self.option.increment_duration;
        let d: u64 = match self.delay.checked_add(inc) {
            Some(s) => if s > self.option.max_delay_duration {
                inc
            } else {
                s
            },
            None => inc,
        };
        self.tries_left = self.tries_left - 1;
        self.delay = d;
        RetryDecision::Wait(d)
    }
}

/// Run of a bind loop from any state with enough tries left.
proof fn lemma_drive_succeeds(s: BindRetry, k: nat)
    requires
        s.tries_left > k,
    ensures
        drive(s, k) == (true, k + 1, backoff_total(
            s.option.increment_duration as nat,
            s.option.max_delay_duration as nat,
            s.delay as nat,
            k,
        )),
    decreases k,
{
    if k > 0 {
        let s2 = retry_step(s).0;
        lemma_drive_succeeds(s2, (k - 1) as nat);
    }
}

/// Run of a bind loop from any state without enough tries left.
proof fn lemma_drive_gives_up(s: BindRetry, k: nat)
    requires
        1 <= s.tries_left <= k,
    ensures
        drive(s, k).0 == false,
        drive(s, k).1 == s.tries_left,
    decreases k,
{
    if s.tries_left > 1 {
        lemma_drive_gives_up(retry_step(s).0, (k - 1) as nat);
    }
}

/// Bind retry termination: against a bind call that fails `k` times and
/// then succeeds, a loop started with `k + 1` attempts or more succeeds after
/// `k + 1` calls, having waited the sum of the backoff schedule of `k`
/// failures; with `attempts <= k` it gives up after exactly `attempts` calls.
pub proof fn bind_retry_termination(option: BindSocketRetryOption, k: nat)
    ensures
        option.attempts > k ==> drive(
            BindRetry { tries_left: option.attempts, delay: 0, option },
            k,
        ) == (true, k + 1, backoff_total(
            option.increment_duration as nat,
            option.max_delay_duration as nat,
            0,
            k,
        )),
        1 <= option.attempts <= k ==> !drive(
            BindRetry { tries_left: option.attempts, delay: 0, option },
            k,
        ).0 && drive(BindRetry { tries_left: option.attempts, delay: 0, option }, k).1
            == option.attempts,
{
    let s = BindRetry { tries_left: option.attempts, delay: 0, option };
    if option.attempts > k {
        lemma_drive_succeeds(s, k);
    }
    if 1 <= option.attempts <= k {
        lemma_drive_gives_up(s, k);
    }
}

} // verus!
