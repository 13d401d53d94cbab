use pravega_client::reader_group::{acquire_segment, complete_segment, create_reader,
    reader_offline, release_segment, segment_key, StateValue};
use pravega_client::commands::WireCommand;
use pravega_client::slice::{classify_read_reply, slice_events, ReadOutcome, SegmentSlice};
use pravega_client::tablemap::{apply_delta, PutOutcome, TableMapState, TableRow, VERSION_ANY,
    VERSION_NOT_EXISTS};

fn fresh_segment_row(t: &mut TableMapState<StateValue>, segment: u64) {
    let v = StateValue::Segment { owner: 0, owned: false, last_read_offset: 0, completed: false };
    match t.put(segment_key(segment), v, VERSION_NOT_EXISTS) {
        PutOutcome::Updated(_) => {},
        PutOutcome::BadKeyVersion => panic!("segment row already present"),
    }
}

fn owner_of(t: &TableMapState<StateValue>, segment: u64) -> Option<u64> {
    match t.get(segment_key(segment)) {
        Some((StateValue::Segment { owner, owned, .. }, _)) => {
            if owned {
                Some(owner)
            } else {
                None
            }
        },
        _ => None,
    }
}

#[test]
fn reader_handoff_after_stale_heartbeat() {
    // Two readers, two segments, a 100 ms ownership timeout. The first
    // reader takes both and goes silent; past the timeout the second reader
    // steals both.
    let mut t: TableMapState<StateValue> = TableMapState::new();
    fresh_segment_row(&mut t, 0);
    fresh_segment_row(&mut t, 1);
    assert!(create_reader(&mut t, 1, 0));
    assert!(create_reader(&mut t, 2, 0));

    let (s_a, off_a) = acquire_segment(&mut t, 1, 10, 100).expect("first acquire");
    let (s_b, off_b) = acquire_segment(&mut t, 1, 10, 100).expect("second acquire");
    assert_eq!((off_a, off_b), (0, 0));
    let mut got = vec![s_a, s_b];
    got.sort();
    assert_eq!(got, vec![0, 1]);
    assert_eq!(owner_of(&t, 0), Some(1));
    assert_eq!(owner_of(&t, 1), Some(1));

    // While the owner's heartbeat is fresh, nothing is claimable.
    assert!(acquire_segment(&mut t, 2, 50, 100).is_none());

    // Past the timeout the second reader (with its own heartbeat fresh)
    // takes both segments over.
    assert!(create_reader(&mut t, 2, 200));
    let (s_c, _) = acquire_segment(&mut t, 2, 200, 100).expect("steal one");
    let (s_d, _) = acquire_segment(&mut t, 2, 200, 100).expect("steal two");
    let mut stolen = vec![s_c, s_d];
    stolen.sort();
    assert_eq!(stolen, vec![0, 1]);
    assert_eq!(owner_of(&t, 0), Some(2));
    assert_eq!(owner_of(&t, 1), Some(2));
}

#[test]
fn conditional_updates_exclude_racing_claims() {
    // Both claimers read version 0 of the row; only the first conditional
    // update passes, the second hits a bad key version.
    let mut t: TableMapState<StateValue> = TableMapState::new();
    fresh_segment_row(&mut t, 7);
    let (_, version) = t.get(segment_key(7)).expect("row");
    let claim_one = StateValue::Segment { owner: 1, owned: true, last_read_offset: 0, completed: false };
    let claim_two = StateValue::Segment { owner: 2, owned: true, last_read_offset: 0, completed: false };
    assert_eq!(t.put(segment_key(7), claim_one, version), PutOutcome::Updated(version + 1));
    assert_eq!(t.put(segment_key(7), claim_two, version), PutOutcome::BadKeyVersion);
    assert_eq!(owner_of(&t, 7), Some(1));
}

#[test]
fn release_and_offline_clear_ownership() {
    let mut t: TableMapState<StateValue> = TableMapState::new();
    fresh_segment_row(&mut t, 0);
    fresh_segment_row(&mut t, 1);
    assert!(create_reader(&mut t, 1, 0));
    let _ = acquire_segment(&mut t, 1, 1, 100).expect("acquire");
    let _ = acquire_segment(&mut t, 1, 1, 100).expect("acquire");

    // An orderly release persists the offset and frees the segment.
    assert!(release_segment(&mut t, 1, 0, 420));
    assert_eq!(owner_of(&t, 0), None);
    match t.get(segment_key(0)) {
        Some((StateValue::Segment { last_read_offset, .. }, _)) => {
            assert_eq!(last_read_offset, 420)
        },
        _ => panic!("segment row lost"),
    }
    // Releasing a segment the reader does not hold fails.
    assert!(!release_segment(&mut t, 2, 1, 0));

    // Going offline releases the rest best-effort.
    reader_offline(&mut t, 1);
    assert_eq!(owner_of(&t, 1), None);
}

#[test]
fn completing_a_segment_registers_successors_atomically() {
    let mut t: TableMapState<StateValue> = TableMapState::new();
    fresh_segment_row(&mut t, 0);
    assert!(complete_segment(&mut t, 0, &vec![1, 2]));
    match t.get(segment_key(0)) {
        Some((StateValue::Segment { completed, .. }, _)) => assert!(completed),
        _ => panic!("segment row lost"),
    }
    assert!(t.get(segment_key(1)).is_some());
    assert!(t.get(segment_key(2)).is_some());
    // A completed segment is never acquired again.
    assert!(create_reader(&mut t, 1, 0));
    let claimed = acquire_segment(&mut t, 1, 1, 100).expect("a successor");
    let claimed2 = acquire_segment(&mut t, 1, 1, 100).expect("the other successor");
    let mut got = vec![claimed.0, claimed2.0];
    got.sort();
    assert_eq!(got, vec![1, 2]);
    assert!(acquire_segment(&mut t, 1, 1, 100).is_none());
}

#[test]
fn read_replies_classify_by_kind() {
    let data_reply = WireCommand::SegmentRead {
        segment: b"s/a/0".to_vec(),
        offset: 64,
        at_tail: false,
        end_of_segment: true,
        data: vec![1, 2, 3],
        request_id: 9,
    };
    match classify_read_reply(data_reply) {
        ReadOutcome::Data { offset, at_tail, end_of_segment, data } => {
            assert_eq!(offset, 64);
            assert!(!at_tail);
            assert!(end_of_segment);
            assert_eq!(data, vec![1, 2, 3]);
        },
        other => panic!("expected data, got {:?}", other),
    }
    // A truncated segment remaps the next read to its current start offset.
    let truncated = WireCommand::SegmentIsTruncated {
        request_id: 9,
        segment: b"s/a/0".to_vec(),
        start_offset: 4096,
    };
    assert!(matches!(
        classify_read_reply(truncated),
        ReadOutcome::RetryTruncated { start_offset: 4096 }
    ));
    let gone = WireCommand::NoSuchSegment { request_id: 9, segment: b"s/a/0".to_vec(), offset: 0 };
    assert!(matches!(classify_read_reply(gone), ReadOutcome::SegmentGone));
    let auth = WireCommand::AuthTokenCheckFailed { request_id: 9 };
    assert!(matches!(classify_read_reply(auth), ReadOutcome::AuthFailed));
    let other = WireCommand::Hello { high_version: 5, low_version: 5 };
    assert!(matches!(classify_read_reply(other), ReadOutcome::Ignore));
}

#[test]
fn delta_clear_discards_the_cache_first() {
    let row = |key: u64, hb: u64| TableRow {
        key,
        value: StateValue::Reader { last_heartbeat_ms: hb },
        version: 0,
    };
    let mut cache = vec![row(1, 10), row(3, 30)];
    let entries = vec![row(3, 99), row(5, 50)];

    // Without the clear flag the batch merges over the cache.
    let mut merged = cache.clone();
    apply_delta(&mut merged, &entries, false);
    assert_eq!(merged, vec![row(1, 10), row(3, 99), row(5, 50)]);

    // With it, the cache is discarded before the batch applies.
    apply_delta(&mut cache, &entries, true);
    assert_eq!(cache, vec![row(3, 99), row(5, 50)]);
}

#[test]
fn delta_iteration_replays_the_log_and_signals_clear_after_compaction() {
    let mut t: TableMapState<StateValue> = TableMapState::new();
    let hb = |ms: u64| StateValue::Reader { last_heartbeat_ms: ms };
    assert_eq!(t.put(1, hb(5), VERSION_ANY), PutOutcome::Updated(0));
    assert_eq!(t.put(3, hb(6), VERSION_ANY), PutOutcome::Updated(0));
    let (entries, next, reached_end, should_clear) = t.delta_iterate(0);
    assert_eq!(entries.len(), 2);
    assert_eq!(next, 2);
    assert!(reached_end);
    assert!(!should_clear);

    // A reader positioned at the present sees nothing new.
    let (entries, _, _, should_clear) = t.delta_iterate(2);
    assert!(entries.is_empty());
    assert!(!should_clear);

    // After compaction a reader at an old position must clear and take the
    // snapshot.
    t.compact();
    assert_eq!(t.put(1, hb(9), VERSION_ANY), PutOutcome::Updated(1));
    let (entries, next, _, should_clear) = t.delta_iterate(1);
    assert!(should_clear);
    assert_eq!(next, 3);
    assert_eq!(entries.len(), 2);
    assert_eq!(entries[0].value, hb(9));
}

#[test]
fn slices_stop_at_partial_envelopes() {
    // Two whole event envelopes, then a truncated third.
    let mut data: Vec<u8> = Vec::new();
    for payload in [b"ab".to_vec(), b"xyz".to_vec()] {
        data.extend_from_slice(&0i32.to_be_bytes());
        data.extend_from_slice(&(payload.len() as u32).to_be_bytes());
        data.extend_from_slice(&payload);
    }
    let boundary = data.len();
    data.extend_from_slice(&0i32.to_be_bytes());
    data.extend_from_slice(&9u32.to_be_bytes());
    data.extend_from_slice(b"only-fi");

    let (events, consumed) = slice_events(&data).expect("well-formed envelopes");
    assert_eq!(events, vec![b"ab".to_vec(), b"xyz".to_vec()]);
    assert_eq!(consumed, boundary);

    let slice = SegmentSlice::from_read(4, 1000, &data).expect("slice");
    assert_eq!(slice.next_read_offset(), 1000 + boundary as i64);

    // An envelope with a non-event type code is malformed.
    let mut bad: Vec<u8> = Vec::new();
    bad.extend_from_slice(&1i32.to_be_bytes());
    bad.extend_from_slice(&0u32.to_be_bytes());
    assert!(slice_events(&bad).is_err());
}
