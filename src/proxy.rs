use crate::client::DEFAULT_GROUP_SIZE;
use vstd::prelude::*;

verus! {

/// Signal type supported by a proxy's accept loop.
#[derive(Clone, Copy, Debug, PartialEq, Eq, Structural)]
pub enum Signal {
    /// Shutdown proxy gracefully.
    SIGTERM,
}

/// The plain-value part of a proxy's operating configuration. Durations are
/// in milliseconds.
#[derive(Clone, Copy, Debug, PartialEq, Eq, Structural)]
pub struct ProxySettings {
    /// Max time to wait for a graceful shutdown.
    pub shutdown_timeout: u64,
    /// Delay between two checks of whether the accept loop has finished.
    pub shutdown_retry_delay: u64,
    /// Max time to wait for a connection to a target.
    pub connection_timeout: u64,
    /// Capacity of the signal channel.
    pub signal_buffer_size: usize,
    /// Interval between keepalive probes.
    pub keepalive_interval: u64,
    /// Idle time before the first keepalive probe.
    pub keepalive_time: u64,
    /// Number of keepalive probes before the connection is dropped.
    pub keepalive_retries: u32,
    /// Number of resolved addresses raced in parallel.
    pub num_parallel_address_connections: usize,
}

impl Default for ProxySettings {
    fn default() -> (r: Self)
        ensures
            r.shutdown_timeout == 10_000,
            r.shutdown_retry_delay == 100,
            r.connection_timeout == 30_000,
            r.signal_buffer_size == 5,
            r.keepalive_interval == 75_000,
            r.keepalive_time == 10_000,
            r.keepalive_retries == 9,
            r.num_parallel_address_connections == DEFAULT_GROUP_SIZE,
    {
        ProxySettings {
            shutdown_timeout: 10_000,
            shutdown_retry_delay: 100,
            connection_timeout: 30_000,
            signal_buffer_size: 5,
            keepalive_interval: 75_000,
            keepalive_time: 10_000,
            keepalive_retries: 9,
            num_parallel_address_connections: DEFAULT_GROUP_SIZE,
        }
    }
}

/// Next step of the shutdown protocol.
#[derive(Clone, Copy, Debug, PartialEq, Eq, Structural)]
pub enum ShutdownAction {
    /// The accept loop has finished: shutdown is complete.
    Finished,
    /// Force-cancel the accept loop.
    Abort,
    /// Sleep this many milliseconds, then check again.
    Sleep(u64),
}

/// The shutdown decision at `elapsed` milliseconds after the shutdown signal
/// was offered: a signal that could not be delivered forces cancellation at
/// once; a finished loop ends the protocol; past the timeout the loop is
/// cancelled; otherwise wait one retry delay.
pub open spec fn shutdown_decision(
    s: ProxySettings,
    signal_delivered: bool,
    finished: bool,
    elapsed: nat,
) -> ShutdownAction {
    if !signal_delivered {
        ShutdownAction::Abort
    } else if finished {
        ShutdownAction::Finished
    } else if elapsed >= s.shutdown_timeout {
        ShutdownAction::Abort
    } else {
        ShutdownAction::Sleep(s.shutdown_retry_delay)
    }
}

impl ProxySettings {
    /// Decide the next step of a shutdown, `elapsed` milliseconds after it
    /// began.
    pub fn shutdown_step(&self, signal_delivered: bool, finished: bool, elapsed: u64) -> (r:
        ShutdownAction)
        ensures
            r == shutdown_decision(*self, signal_delivered, finished, elapsed as nat),
    {
        if !signal_delivered {
            ShutdownAction::Abort
        } else if finished {
            ShutdownAction::Finished
        } else if elapsed >= self.shutdown_timeout {
            ShutdownAction::Abort
        } else {
            ShutdownAction::Sleep(self.shutdown_retry_delay)
        }
    }
}

/// Index of the first poll, among polls made every `delay` milliseconds, that
/// comes at or after `timeout`.
pub open spec fn first_poll_after(timeout: nat, delay: nat) -> nat
    recommends
        delay > 0,
{
    ((timeout + delay - 1) as nat / delay) as nat
}

/// Graceful shutdown boundary. If the accept loop finishes by the timeout,
/// no check of a delivered shutdown ever forces cancellation. If it never
/// finishes and the checks come every retry delay, cancellation is forced at
/// the first check at or past the timeout, which comes before the timeout
/// plus one retry delay, and at no earlier check.
pub proof fn graceful_shutdown_boundary(s: ProxySettings, finish_at: nat)
    requires
        s.shutdown_retry_delay > 0,
    ensures
        finish_at <= s.shutdown_timeout ==> forall|t: nat, finished: bool|
            (t >= finish_at ==> finished) ==> #[trigger] shutdown_decision(s, true, finished, t)
                != ShutdownAction::Abort,
        ({
            let d = s.shutdown_retry_delay as nat;
            let i0 = first_poll_after(s.shutdown_timeout as nat, d);
            &&& shutdown_decision(s, true, false, i0 * d) == ShutdownAction::Abort
            &&& s.shutdown_timeout <= i0 * d < s.shutdown_timeout + d
            &&& forall|i: nat|
                i < i0 ==> #[trigger] shutdown_decision(s, true, false, i * d)
                    == ShutdownAction::Sleep(s.shutdown_retry_delay)
        }),
{
    let d = s.shutdown_retry_delay as nat;
    let t = s.shutdown_timeout as nat;
    let n = (t + d - 1) as nat;
    let i0 = first_poll_after(t, d);
    assert(n == d * i0 + n % d && 0 <= n % d < d) by (nonlinear_arith)
        requires
            d > 0,
            i0 == n / d,
    ;
    assert(t <= i0 * d < t + d) by (nonlinear_arith)
        requires
            n == d * i0 + n % d,
            0 <= n % d < d,
            n == t + d - 1,
    ;
    assert forall|i: nat| i < i0 implies #[trigger] shutdown_decision(s, true, false, i * d)
        == ShutdownAction::Sleep(s.shutdown_retry_delay) by {
        assert(i * d < t) by (nonlinear_arith)
            requires
                i < i0,
                i0 * d < t + d,
                d > 0,
        ;
    }
}

} // verus!
