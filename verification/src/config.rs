//! Client configuration: which kind of connection to open, pool and channel
//! capacities, timeouts and the retry policy.

use vstd::prelude::*;

verus! {

/// How a connection to a segment store is made: a real TCP connection, or
/// the in-process mock used by tests.
#[derive(Clone, Copy, Debug, PartialEq, Eq, Structural)]
pub enum ConnectionType {
    Mock,
    Tokio,
}

impl Default for ConnectionType {
    /// The default connection kind is the real one.
    fn default() -> (r: Self)
        ensures
            r == ConnectionType::Tokio,
    {
        ConnectionType::Tokio
    }
}

/// Exponential backoff for retried calls: delays start at `initial_ms`,
/// grow by `multiplier`, and are capped at `max_ms`; at most `max_attempts`
/// tries are made.
#[derive(Clone, Copy, Debug, PartialEq, Eq, Structural)]
pub struct RetryPolicy {
    pub initial_ms: u64,
    pub multiplier: u64,
    pub max_ms: u64,
    pub max_attempts: u32,
}

/// A policy must not shrink its delays: the multiplier is at least one.
pub open spec fn retry_policy_wf(p: RetryPolicy) -> bool {
    p.multiplier >= 1
}

impl Default for RetryPolicy {
    /// Ten tries, delays 100 ms doubling up to 10 s.
    fn default() -> (r: Self)
        ensures
            r == (RetryPolicy { initial_ms: 100, multiplier: 2, max_ms: 10000, max_attempts: 10 }),
            retry_policy_wf(r),
    {
        RetryPolicy { initial_ms: 100, multiplier: 2, max_ms: 10000, max_attempts: 10 }
    }
}

/// The options the core recognises.
#[derive(Clone, Debug)]
pub struct ClientConfig {
    /// Address of the controller, as text.
    pub controller_uri: String,
    /// Per-endpoint cap on pooled connections.
    pub max_connections_in_pool: u32,
    /// Real or mock connections.
    pub connection_type: ConnectionType,
    /// How stale a reader's heartbeat may grow before its segments can be
    /// stolen.
    pub reader_timeout_ms: u64,
    /// How long a transaction may stay unpinged.
    pub transaction_timeout_ms: u64,
    /// Capacity of the writer reactor's incoming channel.
    pub channel_capacity: usize,
    /// Backoff for retried calls.
    pub retry_policy: RetryPolicy,
}

impl Default for ClientConfig {
    /// The documented defaults: pool cap 16, real connections, reader
    /// timeout 30 s, transaction timeout 90 s, channel capacity 100.
    fn default() -> (r: Self)
        ensures
            r.controller_uri@ == Seq::<char>::empty(),
            r.max_connections_in_pool == 16,
            r.connection_type == ConnectionType::Tokio,
            r.reader_timeout_ms == 30000,
            r.transaction_timeout_ms == 90000,
            r.channel_capacity == 100,
            r.retry_policy == (RetryPolicy {
                initial_ms: 100,
                multiplier: 2,
                max_ms: 10000,
                max_attempts: 10,
            }),
            retry_policy_wf(r.retry_policy),
    {
        ClientConfig {
            controller_uri: String::new(),
            max_connections_in_pool: 16,
            connection_type: ConnectionType::Tokio,
            reader_timeout_ms: 30000,
            transaction_timeout_ms: 90000,
            channel_capacity: 100,
            retry_policy: RetryPolicy {
                initial_ms: 100,
                multiplier: 2,
                max_ms: 10000,
                max_attempts: 10,
            },
        }
    }
}

} // verus!
