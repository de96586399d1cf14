//! Core logic of a multi-application TCP reverse proxy: target selection,
//! target address parsing, bind retry scheduling, per-application port
//! reconciliation and the graceful shutdown protocol.

mod client;
mod config;
mod proxy;
mod registry;
mod retry;
mod strategy;

pub use crate::client::{
    address_groups, chunked, connect_decision, connect_order, connect_step, dns_query_name,
    ConnectAction, ConnectError, ConnectEvent, ConnectState, DEFAULT_GROUP_SIZE,
};
pub use crate::config::{
    digits_value, is_digit, last_colon, parse_target, parse_target_spec, port_digits,
    port_value, AppConfig, Apps, ConfigFileSubscriber, ParseTargetError, TargetAddr, MAX_PORT,
};
pub use crate::proxy::{
    first_poll_after, graceful_shutdown_boundary, shutdown_decision, ProxySettings,
    ShutdownAction, Signal,
};
pub use crate::registry::{
    bound_pairs, entries_map, first_occurrences, lemma_entries_map, lemma_reconciled, ports_unique, reconciled,
    reconciliation_key_set, unique_ports, PortTable,
};
pub use crate::retry::{
    backoff_total, bind_retry_termination, drive, next_delay, retry_step, BindRetry,
    BindSocketRetryOption, RetryDecision, DEFAULT_BIND_ATTEMPTS, DEFAULT_INCREMENT_MS,
    DEFAULT_MAX_DELAY_MS,
};
pub use crate::strategy::{
    cursor_after, lemma_cursor_after, next_cursor, round_robin_cycle, RoundRobinStrategy,
    Strategy, StrategyError,
};
