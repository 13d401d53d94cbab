use pravega_client::commands::{encode_command, DecodeError, TableEntry, WireCommand};
use pravega_client::decode::decode_command;

fn round_trip(m: WireCommand) {
    let bytes = encode_command(&m).expect("encode");
    let back = decode_command(bytes.as_slice()).expect("decode");
    assert_eq!(m, back);
}

#[test]
fn hello_exact_bytes() {
    let m = WireCommand::Hello { high_version: 5, low_version: 5 };
    let bytes = encode_command(&m).expect("encode");
    // type code -127 big-endian, payload length 8, then the two versions.
    assert_eq!(
        bytes,
        vec![0xff, 0xff, 0xff, 0x81, 0, 0, 0, 8, 0, 0, 0, 5, 0, 0, 0, 5]
    );
    assert_eq!(decode_command(&bytes).expect("decode"), m);
}

#[test]
fn round_trip_every_command() {
    round_trip(WireCommand::Hello { high_version: 9, low_version: 3 });
    round_trip(WireCommand::Event { data: b"payload".to_vec() });
    round_trip(WireCommand::Event { data: vec![] });
    round_trip(WireCommand::SetupAppend {
        request_id: 1,
        writer_id: 0xdead_beef_dead_beef_dead_beef_dead_beef,
        segment: b"scope/stream/0".to_vec(),
        delegation_token: b"".to_vec(),
    });
    round_trip(WireCommand::AppendSetup {
        request_id: 2,
        segment: b"scope/stream/0".to_vec(),
        writer_id: 7,
        last_event_number: i64::MIN,
    });
    round_trip(WireCommand::AppendBlockEnd {
        writer_id: 8,
        size_of_whole_events: 5,
        data: b"hello".to_vec(),
        num_events: 1,
        last_event_number: 0,
        request_id: 3,
    });
    round_trip(WireCommand::DataAppended {
        writer_id: 8,
        event_number: 0,
        previous_event_number: -1,
        request_id: 3,
        current_segment_write_offset: 13,
    });
    round_trip(WireCommand::ReadSegment {
        segment: b"s/a/1".to_vec(),
        offset: 1024,
        suggested_length: 4096,
        delegation_token: b"token".to_vec(),
        request_id: 4,
    });
    round_trip(WireCommand::SegmentRead {
        segment: b"s/a/1".to_vec(),
        offset: 1024,
        at_tail: true,
        end_of_segment: false,
        data: vec![1, 2, 3],
        request_id: 5,
    });
    round_trip(WireCommand::UpdateTableEntries {
        segment: b"s/_tables/rg".to_vec(),
        delegation_token: b"".to_vec(),
        table_entries: vec![
            TableEntry { key: b"reader-1".to_vec(), key_version: -1, value: b"alive".to_vec() },
            TableEntry { key: b"seg-0".to_vec(), key_version: 4, value: vec![0, 9] },
        ],
        request_id: 6,
    });
    round_trip(WireCommand::TableEntriesUpdated { request_id: 6, updated_versions: vec![0, 5] });
    round_trip(WireCommand::ReadTableEntriesDelta {
        segment: b"s/_tables/rg".to_vec(),
        delegation_token: b"tok".to_vec(),
        from_position: 42,
        suggested_entry_count: 100,
        request_id: 7,
    });
    round_trip(WireCommand::TableEntriesDeltaRead {
        request_id: 7,
        segment: b"s/_tables/rg".to_vec(),
        entries: vec![TableEntry { key: b"k".to_vec(), key_version: 0, value: b"v".to_vec() }],
        should_clear: true,
        reached_end: false,
        last_position: 43,
    });
    round_trip(WireCommand::SegmentIsSealed {
        request_id: 8,
        segment: b"s/a/0".to_vec(),
        offset: 100,
    });
    round_trip(WireCommand::NoSuchSegment { request_id: 9, segment: b"s/a/9".to_vec(), offset: -1 });
    round_trip(WireCommand::SegmentIsTruncated {
        request_id: 10,
        segment: b"s/a/0".to_vec(),
        start_offset: 512,
    });
    round_trip(WireCommand::InvalidEventNumber { writer_id: 3, request_id: 11, event_number: 17 });
    round_trip(WireCommand::TableKeyBadVersion { request_id: 12, segment: b"s/_tables/rg".to_vec() });
    round_trip(WireCommand::AuthTokenCheckFailed { request_id: 13 });
}

#[test]
fn decode_rejects_truncated_frames() {
    assert_eq!(decode_command(&[]), Err(DecodeError::TruncatedFrame));
    assert_eq!(decode_command(&[0, 0, 0, 1]), Err(DecodeError::TruncatedFrame));
    // A header declaring eight payload bytes, with none following.
    assert_eq!(
        decode_command(&[0xff, 0xff, 0xff, 0x81, 0, 0, 0, 8]),
        Err(DecodeError::TruncatedFrame)
    );
    // Payload shorter than declared.
    assert_eq!(
        decode_command(&[0xff, 0xff, 0xff, 0x81, 0, 0, 0, 8, 0, 0, 0, 5]),
        Err(DecodeError::TruncatedFrame)
    );
}

#[test]
fn decode_rejects_malformed_frames() {
    // Trailing byte after the declared payload.
    assert_eq!(
        decode_command(&[0xff, 0xff, 0xff, 0x81, 0, 0, 0, 8, 0, 0, 0, 5, 0, 0, 0, 5, 9]),
        Err(DecodeError::InvalidData)
    );
    // Unknown type code.
    assert_eq!(
        decode_command(&[0, 0, 0, 99, 0, 0, 0, 0]),
        Err(DecodeError::InvalidData)
    );
    // A declared payload length with the sign bit set reads as negative.
    assert_eq!(
        decode_command(&[0xff, 0xff, 0xff, 0x81, 0x80, 0, 0, 0]),
        Err(DecodeError::InvalidData)
    );
    // Hello payload with leftover bytes inside the declared payload.
    assert_eq!(
        decode_command(&[0xff, 0xff, 0xff, 0x81, 0, 0, 0, 9, 0, 0, 0, 5, 0, 0, 0, 5, 0]),
        Err(DecodeError::InvalidData)
    );
}

#[test]
fn decode_rejects_bad_booleans_and_utf8() {
    // A SegmentRead whose at_tail byte is 2.
    let good = WireCommand::SegmentRead {
        segment: b"s".to_vec(),
        offset: 0,
        at_tail: false,
        end_of_segment: false,
        data: vec![],
        request_id: 0,
    };
    let mut bytes = encode_command(&good).expect("encode");
    // segment field: 4B len + 1 byte; offset 8B; then the boolean.
    let bool_index = 8 + 4 + 1 + 8;
    assert_eq!(bytes[bool_index], 0);
    bytes[bool_index] = 2;
    assert_eq!(decode_command(&bytes), Err(DecodeError::InvalidData));

    // A SetupAppend whose segment bytes are not UTF-8.
    let m = WireCommand::SetupAppend {
        request_id: 0,
        writer_id: 1,
        segment: vec![0xff, 0xfe],
        delegation_token: vec![],
    };
    // The encoder refuses it outright,
    assert!(encode_command(&m).is_none());
    // and the decoder refuses the same bytes spliced into a frame by hand.
    let good = WireCommand::SetupAppend {
        request_id: 0,
        writer_id: 1,
        segment: b"ab".to_vec(),
        delegation_token: vec![],
    };
    let mut bytes = encode_command(&good).expect("encode");
    let seg_index = 8 + 8 + 16 + 4;
    assert_eq!(&bytes[seg_index..seg_index + 2], b"ab");
    bytes[seg_index] = 0xff;
    bytes[seg_index + 1] = 0xfe;
    assert_eq!(decode_command(&bytes), Err(DecodeError::InvalidData));
}

#[test]
fn decode_fuzz_never_panics() {
    // A small deterministic generator; decode must return Ok or a typed
    // error on every byte string.
    let mut state: u64 = 0x243f_6a88_85a3_08d3;
    let mut next = move || {
        state = state.wrapping_mul(6364136223846793005).wrapping_add(1442695040888963407);
        (state >> 33) as u32
    };
    for round in 0..512 {
        let len = (next() % 1024) as usize;
        let mut bytes = Vec::with_capacity(len);
        for _ in 0..len {
            bytes.push(next() as u8);
        }
        let _ = decode_command(&bytes);
        // Also splice plausible headers in front of random payloads.
        if round % 2 == 0 && bytes.len() >= 8 {
            bytes[0] = 0;
            bytes[1] = 0;
            bytes[2] = 0;
            bytes[3] = (next() % 100) as u8;
            let plen = (bytes.len() - 8) as u32;
            bytes[4..8].copy_from_slice(&plen.to_be_bytes());
            let _ = decode_command(&bytes);
        }
    }
}
