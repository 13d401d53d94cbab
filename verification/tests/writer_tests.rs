use pravega_client::selector::{SegmentEntry, SegmentSelector};
use pravega_client::writer::{classify_reply, Action, AckOutcome, PendingEvent, Reactor,
    ReplyAction, SegmentSession, SessionState, MAX_WRITE_SIZE};
use pravega_client::commands::WireCommand;

#[test]
fn test_pending_event() {
    // test with legal event size
    let data = vec![];
    let routing_key = None;

    let event = PendingEvent::without_header(routing_key, data, 0).expect("create pending event");
    assert!(event.is_empty());

    // test with illegal event size
    let data = vec![0; MAX_WRITE_SIZE + 1];
    let routing_key = None;

    let event = PendingEvent::without_header(routing_key, data, 1);
    assert!(event.is_none());
}

fn whole_range(segment: i64) -> SegmentEntry {
    SegmentEntry { segment, lo: 0, hi: u64::MAX }
}

#[test]
fn single_append_completes_on_ack() {
    // One single-segment stream; one unkeyed event "hello".
    let selector = SegmentSelector::new(vec![whole_range(0)]);
    let mut reactor = Reactor::new(selector, 100, 1024 * 1024);
    let mut acts: Vec<Action> = Vec::new();

    let ev = PendingEvent::without_header(None, b"hello".to_vec(), 7).expect("event");
    reactor.route_event(ev, &mut acts);
    // No session yet: the reactor asks for a setup first.
    let writer_id = match acts.pop().expect("setup action") {
        Action::SendSetupAppend { segment, writer_id } => {
            assert_eq!(segment, 0);
            writer_id
        },
        other => panic!("expected setup, got {:?}", other),
    };

    // The store has nothing from this writer: last event number is i64::MIN.
    reactor.on_append_setup(writer_id, i64::MIN, &mut acts);
    match acts.pop().expect("append action") {
        Action::SendAppend { segment, writer_id: w, event_number, data } => {
            assert_eq!(segment, 0);
            assert_eq!(w, writer_id);
            assert_eq!(event_number, 0);
            assert_eq!(data, b"hello".to_vec());
        },
        other => panic!("expected append, got {:?}", other),
    }

    reactor.on_data_appended(writer_id, 0, &mut acts);
    match acts.pop().expect("completion") {
        Action::Complete { completion_id, ok } => {
            assert_eq!(completion_id, 7);
            assert!(ok);
        },
        other => panic!("expected completion, got {:?}", other),
    }
    assert!(acts.is_empty());
}

#[test]
fn sealed_segment_resends_through_the_selector() {
    // Three keyed events all route to segment 0 first; after it seals, the
    // refreshed set maps the second key's hash to segment 1 and the third's
    // to segment 2, and the two unacknowledged events land there.
    let h2 = pravega_client::selector::route_hash(b"k2");
    let h3 = pravega_client::selector::route_hash(b"k3");
    assert_ne!(h2, h3);
    let selector = SegmentSelector::new(vec![whole_range(0)]);
    let mut reactor = Reactor::new(selector, 100, 1024 * 1024);
    let mut acts: Vec<Action> = Vec::new();

    for (id, key, payload) in [
        (1u64, b"k1".to_vec(), b"a".to_vec()),
        (2, b"k2".to_vec(), b"b".to_vec()),
        (3, b"k3".to_vec(), b"c".to_vec()),
    ] {
        let ev = PendingEvent::without_header(Some(key), payload, id).expect("event");
        reactor.route_event(ev, &mut acts);
    }
    let writer_id = match &acts[0] {
        Action::SendSetupAppend { segment: 0, writer_id } => *writer_id,
        other => panic!("expected setup, got {:?}", other),
    };
    assert_eq!(acts.len(), 1);
    acts.clear();

    reactor.on_append_setup(writer_id, i64::MIN, &mut acts);
    assert_eq!(acts.len(), 3);
    acts.clear();

    // The first event is acknowledged on segment 0.
    reactor.on_data_appended(writer_id, 0, &mut acts);
    assert_eq!(acts.len(), 1);
    assert!(matches!(acts[0], Action::Complete { completion_id: 1, ok: true }));
    acts.clear();

    // Segment 0 seals: events 2 and 3 are parked and a fetch is requested.
    reactor.on_segment_failed(0, &mut acts);
    assert!(matches!(acts[0], Action::FetchSegments));
    acts.clear();

    // The refreshed set: segment 1 owns the second key's hash, segment 2
    // the third's (and everything between them).
    let split = if h2 < h3 { h2 } else { h3 };
    let (lo_seg, hi_seg) = if h2 < h3 { (1, 2) } else { (2, 1) };
    reactor.on_segments_update(
        vec![
            SegmentEntry { segment: lo_seg, lo: 0, hi: split },
            SegmentEntry { segment: hi_seg, lo: split + 1, hi: u64::MAX },
        ],
        &mut acts,
    );
    let mut setup_segments: Vec<i64> = acts
        .iter()
        .filter_map(|a| match a {
            Action::SendSetupAppend { segment, .. } => Some(*segment),
            _ => None,
        })
        .collect();
    setup_segments.sort();
    assert_eq!(setup_segments, vec![1, 2]);
    acts.clear();

    // Complete both sessions' setups; each parked event is resent on the
    // segment its key now hashes to.
    let w1 = reactor.sessions.iter().find(|s| s.segment == 1).expect("session 1").writer_id;
    let w2 = reactor.sessions.iter().find(|s| s.segment == 2).expect("session 2").writer_id;
    reactor.on_append_setup(w1, i64::MIN, &mut acts);
    reactor.on_append_setup(w2, i64::MIN, &mut acts);
    let mut sent: Vec<(i64, Vec<u8>)> = acts
        .iter()
        .filter_map(|a| match a {
            Action::SendAppend { segment, data, .. } => Some((*segment, data.clone())),
            _ => None,
        })
        .collect();
    sent.sort();
    let seg_of_b: i64 = if h2 < h3 { 1 } else { 2 };
    let seg_of_c: i64 = if h2 < h3 { 2 } else { 1 };
    let mut expected = vec![(seg_of_b, b"b".to_vec()), (seg_of_c, b"c".to_vec())];
    expected.sort();
    assert_eq!(sent, expected);

    // Acks on the new segments complete the resent events.
    acts.clear();
    reactor.on_data_appended(w1, 0, &mut acts);
    reactor.on_data_appended(w2, 0, &mut acts);
    let mut done: Vec<u64> = acts
        .iter()
        .filter_map(|a| match a {
            Action::Complete { completion_id, ok: true } => Some(*completion_id),
            _ => None,
        })
        .collect();
    done.sort();
    assert_eq!(done, vec![2, 3]);
}

#[test]
fn completions_fire_in_submission_order_and_acks_are_monotonic() {
    let mut s = SegmentSession::new(0, 99, 1024 * 1024);
    s.on_append_setup(i64::MIN);
    assert_eq!(s.state, SessionState::Open);
    for id in [10u64, 11, 12] {
        let ev = PendingEvent::without_header(None, vec![id as u8], id).expect("event");
        s.begin_append(ev);
    }
    // One acknowledgement covers the first two events, in order.
    match s.on_data_appended(1) {
        AckOutcome::Completed(ids) => assert_eq!(ids, vec![10, 11]),
        AckOutcome::ProtocolViolation => panic!("valid ack rejected"),
    }
    assert_eq!(s.inflight.len(), 1);
    // The same acknowledgement again is stale: a protocol violation, and
    // nothing completes twice.
    match s.on_data_appended(1) {
        AckOutcome::Completed(_) => panic!("stale ack accepted"),
        AckOutcome::ProtocolViolation => {},
    }
    assert_eq!(s.state, SessionState::Closed);
    assert_eq!(s.inflight.len(), 1);
}

#[test]
fn full_window_suspends_and_acks_refill() {
    // A tiny 4-byte send window: the first 3-byte event flies, the second
    // is suspended behind the session, an over-window event fails at once,
    // and the acknowledgement of the first frees space for the second.
    let selector = SegmentSelector::new(vec![whole_range(0)]);
    let mut reactor = Reactor::new(selector, 100, 4);
    let mut acts: Vec<Action> = Vec::new();

    let ev1 = PendingEvent::without_header(None, b"one".to_vec(), 1).expect("event");
    reactor.route_event(ev1, &mut acts);
    let writer_id = match acts.pop().expect("setup") {
        Action::SendSetupAppend { writer_id, .. } => writer_id,
        other => panic!("expected setup, got {:?}", other),
    };
    reactor.on_append_setup(writer_id, i64::MIN, &mut acts);
    assert!(matches!(acts.pop(), Some(Action::SendAppend { event_number: 0, .. })));

    // 3 in-flight bytes of 4: the next 3-byte event must wait.
    let ev2 = PendingEvent::without_header(None, b"two".to_vec(), 2).expect("event");
    reactor.route_event(ev2, &mut acts);
    assert!(acts.is_empty());
    assert_eq!(reactor.sessions[0].pending.len(), 1);

    // An event bigger than the whole window can never be sent: it fails.
    let huge = PendingEvent::without_header(None, b"pentad".to_vec(), 3).expect("event");
    reactor.route_event(huge, &mut acts);
    assert!(matches!(acts.pop(), Some(Action::Complete { completion_id: 3, ok: false })));

    // The acknowledgement frees the window; the refill sends the suspended
    // event.
    reactor.on_data_appended(writer_id, 0, &mut acts);
    assert!(matches!(acts.pop(), Some(Action::Complete { completion_id: 1, ok: true })));
    reactor.refill(writer_id, &mut acts);
    match acts.pop().expect("refill send") {
        Action::SendAppend { event_number, data, .. } => {
            assert_eq!(event_number, 1);
            assert_eq!(data, b"two".to_vec());
        },
        other => panic!("expected append, got {:?}", other),
    }
    assert_eq!(reactor.sessions[0].pending.len(), 0);
    assert_eq!(reactor.sessions[0].inflight_bytes, 3);
}

#[test]
fn full_queue_rejects_submissions_without_dropping() {
    let selector = SegmentSelector::new(vec![whole_range(0)]);
    let mut reactor = Reactor::new(selector, 2, 1024 * 1024);
    let mk = |id: u64| PendingEvent::without_header(None, vec![id as u8], id).expect("event");
    assert!(reactor.offer(mk(1)));
    assert!(reactor.offer(mk(2)));
    // The queue is at capacity: the caller is pushed back, nothing is lost.
    assert!(!reactor.offer(mk(3)));
    assert_eq!(reactor.queue.len(), 2);
    let first = reactor.take_next().expect("queued event");
    assert_eq!(first.completion_id, 1);
    // Draining makes room again.
    assert!(reactor.offer(mk(3)));
    assert_eq!(reactor.queue.len(), 2);
}

#[test]
fn replies_classify_by_kind() {
    assert_eq!(
        classify_reply(&WireCommand::AppendSetup {
            request_id: 0,
            segment: b"s".to_vec(),
            writer_id: 1,
            last_event_number: 5,
        }),
        ReplyAction::Setup { last_event_number: 5 }
    );
    assert_eq!(
        classify_reply(&WireCommand::DataAppended {
            writer_id: 1,
            event_number: 9,
            previous_event_number: 8,
            request_id: 0,
            current_segment_write_offset: 0,
        }),
        ReplyAction::Ack { event_number: 9 }
    );
    assert_eq!(
        classify_reply(&WireCommand::SegmentIsSealed {
            request_id: 0,
            segment: b"s".to_vec(),
            offset: 0,
        }),
        ReplyAction::Failed
    );
    assert_eq!(
        classify_reply(&WireCommand::Hello { high_version: 5, low_version: 5 }),
        ReplyAction::Ignore
    );
}
