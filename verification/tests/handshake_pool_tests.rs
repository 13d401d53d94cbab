use pravega_client::commands::WireCommand;
use pravega_client::config::{ClientConfig, ConnectionType, RetryPolicy};
use pravega_client::hello::{check_hello_reply, client_hello, hello_accepts, HandshakeError,
    OLDEST_COMPATIBLE_VERSION, WIRE_VERSION};
use pravega_client::pool::{AcquireOutcome, EndpointPool, ReleaseOutcome};
use pravega_client::retry::{can_retry, next_delay_ms};

#[test]
fn hello_accepts_exactly_the_ranges_containing_ours() {
    assert!(hello_accepts(WIRE_VERSION, WIRE_VERSION));
    assert!(hello_accepts(WIRE_VERSION - 3, WIRE_VERSION + 3));
    assert!(!hello_accepts(WIRE_VERSION + 1, WIRE_VERSION + 2));
    assert!(!hello_accepts(WIRE_VERSION - 2, WIRE_VERSION - 1));
    let hello = client_hello();
    assert_eq!(
        hello,
        WireCommand::Hello { high_version: WIRE_VERSION, low_version: OLDEST_COMPATIBLE_VERSION }
    );
}

#[test]
fn hello_mismatch_reports_both_sides() {
    // The server is strictly ahead of us: low = ours + 1, high = ours + 2.
    let reply = WireCommand::Hello {
        high_version: WIRE_VERSION + 2,
        low_version: WIRE_VERSION + 1,
    };
    let err = check_hello_reply(&reply).expect_err("must reject");
    assert_eq!(
        err,
        HandshakeError::WrongHelloVersion {
            wire_version: WIRE_VERSION,
            oldest_compatible: OLDEST_COMPATIBLE_VERSION,
            wire_version_received: WIRE_VERSION + 2,
            oldest_compatible_received: WIRE_VERSION + 1,
        }
    );
    // A compatible range is accepted.
    let ok = WireCommand::Hello { high_version: WIRE_VERSION, low_version: WIRE_VERSION };
    assert!(check_hello_reply(&ok).is_ok());
    // A first reply that is not a hello at all.
    let other = WireCommand::AuthTokenCheckFailed { request_id: 1 };
    assert_eq!(check_hello_reply(&other), Err(HandshakeError::WrongReply));
}

#[test]
fn pool_reuses_one_connection_across_sequential_acquires() {
    // Cap two; five sequential acquires with a release between each must
    // establish exactly one physical connection.
    let mut pool = EndpointPool::new(2);
    assert_eq!(pool.acquire(), AcquireOutcome::Establish);
    let id = pool.establish_done();
    let mut held = id;
    for _ in 0..4 {
        assert_eq!(pool.release(held, true), ReleaseOutcome::Pooled);
        match pool.acquire() {
            AcquireOutcome::Reused(got) => held = got,
            other => panic!("expected reuse, got {:?}", other),
        }
    }
    assert_eq!(pool.established, 1);
}

#[test]
fn pool_caps_open_connections_and_serves_waiters_in_order() {
    let mut pool = EndpointPool::new(2);
    assert_eq!(pool.acquire(), AcquireOutcome::Establish);
    let a = pool.establish_done();
    assert_eq!(pool.acquire(), AcquireOutcome::Establish);
    let b = pool.establish_done();
    // At the cap: both further acquires must wait, in order.
    let t1 = match pool.acquire() {
        AcquireOutcome::Wait(t) => t,
        other => panic!("expected wait, got {:?}", other),
    };
    let t2 = match pool.acquire() {
        AcquireOutcome::Wait(t) => t,
        other => panic!("expected wait, got {:?}", other),
    };
    assert!(pool.idle.len() + pool.checked_out as usize + pool.pending_establish as usize <= 2);
    // The first release goes to the first waiter.
    assert_eq!(pool.release(a, true), ReleaseOutcome::HandedToWaiter(t1, a));
    // An invalid connection is dropped, and its slot wakes the next waiter.
    assert_eq!(pool.release(b, false), ReleaseOutcome::DiscardedWakeWaiter(t2));
    let c = pool.establish_done();
    assert_eq!(pool.established, 3);
    // The dropped connection never returned to the pool.
    assert!(pool.idle.is_empty());
    assert_eq!(pool.release(c, true), ReleaseOutcome::Pooled);
    assert_eq!(pool.release(a, true), ReleaseOutcome::Pooled);
    assert_eq!(pool.idle, vec![c, a]);
}

#[test]
fn replies_match_requests_by_id_in_any_order() {
    let mut tracker = pravega_client::raw_client::RequestTracker::new();
    let a = tracker.register();
    let b = tracker.register();
    let c = tracker.register();
    assert_eq!((a, b, c), (0, 1, 2));
    // Pipelined replies may come back out of order.
    assert!(tracker.take_match(b));
    assert!(tracker.take_match(a));
    // A reply nobody asked for, or a duplicate, matches nothing.
    assert!(!tracker.take_match(b));
    assert!(!tracker.take_match(99));
    assert!(tracker.take_match(c));
    assert_eq!(tracker.outstanding.len(), 0);
}

#[test]
fn backoff_grows_and_caps() {
    let p = RetryPolicy { initial_ms: 100, multiplier: 2, max_ms: 10000, max_attempts: 10 };
    assert_eq!(next_delay_ms(&p, 0), 100);
    assert_eq!(next_delay_ms(&p, 1), 200);
    assert_eq!(next_delay_ms(&p, 5), 3200);
    assert_eq!(next_delay_ms(&p, 6), 6400);
    // 100 * 2^7 = 12800 caps at 10000, as does everything after.
    assert_eq!(next_delay_ms(&p, 7), 10000);
    assert_eq!(next_delay_ms(&p, 60), 10000);
    assert!(can_retry(&p, 9));
    assert!(!can_retry(&p, 10));
}

#[test]
fn config_defaults_match_the_documented_ones() {
    let c = ClientConfig::default();
    assert_eq!(c.max_connections_in_pool, 16);
    assert_eq!(c.connection_type, ConnectionType::Tokio);
    assert_eq!(c.reader_timeout_ms, 30000);
    assert_eq!(c.transaction_timeout_ms, 90000);
    assert_eq!(c.channel_capacity, 100);
    assert_eq!(ConnectionType::default(), ConnectionType::Tokio);
}
