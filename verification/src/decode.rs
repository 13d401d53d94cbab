//! Decoding byte strings back into wire commands.
//!
//! `spec_decode` is the specification-level parser: it says, for every byte
//! string, exactly which command it frames or why it is rejected. The exec
//! `decode_command` is proved to return precisely `spec_decode` of its
//! input, so it rejects every byte string that is not a valid framing, and
//! it never panics or reads past the frame.

use vstd::prelude::*;
use vstd::slice::{slice_subrange, slice_to_vec};

use crate::be_bytes::{get_be128, get_be32, get_be64, spec_read_be128, spec_read_be32,
    spec_read_be64};
use crate::commands::{entries_view, utf8_check, utf8_ok, DecodeError, TableEntry, TableEntryView,
    WireCommand, WireCommandView, TYPE_APPEND_BLOCK_END, TYPE_APPEND_SETUP,
    TYPE_AUTH_TOKEN_CHECK_FAILED, TYPE_DATA_APPENDED, TYPE_EVENT, TYPE_HELLO,
    TYPE_INVALID_EVENT_NUMBER, TYPE_NO_SUCH_SEGMENT, TYPE_READ_SEGMENT,
    TYPE_READ_TABLE_ENTRIES_DELTA, TYPE_SEGMENT_IS_SEALED, TYPE_SEGMENT_IS_TRUNCATED,
    TYPE_SEGMENT_READ, TYPE_SETUP_APPEND, TYPE_TABLE_ENTRIES_DELTA_READ,
    TYPE_TABLE_ENTRIES_UPDATED, TYPE_TABLE_KEY_BAD_VERSION, TYPE_UPDATE_TABLE_ENTRIES,
    WIRE_LEN_MAX};

verus! {

// ---------------------------------------------------------------------------
// Specification-level field parsers. Each returns the value and the position
// after it, or `None` where the bytes end too soon or the field is malformed.
// ---------------------------------------------------------------------------
pub open spec fn sp_i32(s: Seq<u8>, i: int) -> Option<(i32, int)> {
    if 0 <= i && i + 4 <= s.len() {
        Some((spec_read_be32(s.subrange(i, i + 4)) as i32, i + 4))
    } else {
        None
    }
}

pub open spec fn sp_i64(s: Seq<u8>, i: int) -> Option<(i64, int)> {
    if 0 <= i && i + 8 <= s.len() {
        Some((spec_read_be64(s.subrange(i, i + 8)) as i64, i + 8))
    } else {
        None
    }
}

pub open spec fn sp_u128(s: Seq<u8>, i: int) -> Option<(u128, int)> {
    if 0 <= i && i + 16 <= s.len() {
        Some((spec_read_be128(s.subrange(i, i + 16)), i + 16))
    } else {
        None
    }
}

/// A boolean byte must be exactly `0` or `1`.
pub open spec fn sp_bool(s: Seq<u8>, i: int) -> Option<(bool, int)> {
    if 0 <= i && i + 1 <= s.len() {
        if s[i] == 0u8 {
            Some((false, i + 1))
        } else if s[i] == 1u8 {
            Some((true, i + 1))
        } else {
            None
        }
    } else {
        None
    }
}

/// A length-prefixed byte field; a negative length is malformed.
pub open spec fn sp_var(s: Seq<u8>, i: int) -> Option<(Seq<u8>, int)> {
    match sp_i32(s, i) {
        Some((n, j)) => {
            if n >= 0 && j + n <= s.len() {
                Some((s.subrange(j, j + n), j + n))
            } else {
                None
            }
        },
        None => None,
    }
}

/// A string field: length-prefixed bytes that must be valid UTF-8.
pub open spec fn sp_str(s: Seq<u8>, i: int) -> Option<(Seq<u8>, int)> {
    match sp_var(s, i) {
        Some((b, j)) => if utf8_ok(b) {
            Some((b, j))
        } else {
            None
        },
        None => None,
    }
}

/// One table entry: key, key version, value.
pub open spec fn sp_entry(s: Seq<u8>, i: int) -> Option<(TableEntryView, int)> {
    match sp_var(s, i) {
        Some((key, j1)) => match sp_i64(s, j1) {
            Some((key_version, j2)) => match sp_var(s, j2) {
                Some((value, j3)) => Some((TableEntryView { key, key_version, value }, j3)),
                None => None,
            },
            None => None,
        },
        None => None,
    }
}

/// Exactly `n` table entries, back to back.
pub open spec fn sp_entry_list(s: Seq<u8>, i: int, n: nat) -> Option<(Seq<TableEntryView>, int)>
    decreases n,
{
    if n == 0 {
        Some((Seq::empty(), i))
    } else {
        match sp_entry(s, i) {
            Some((e, j)) => match sp_entry_list(s, j, (n - 1) as nat) {
                Some((es, k)) => Some((seq![e] + es, k)),
                None => None,
            },
            None => None,
        }
    }
}

/// Exactly `n` versions, back to back.
pub open spec fn sp_version_list(s: Seq<u8>, i: int, n: nat) -> Option<(Seq<i64>, int)>
    decreases n,
{
    if n == 0 {
        Some((Seq::empty(), i))
    } else {
        match sp_i64(s, i) {
            Some((v, j)) => match sp_version_list(s, j, (n - 1) as nat) {
                Some((vs, k)) => Some((seq![v] + vs, k)),
                None => None,
            },
            None => None,
        }
    }
}

// ---------------------------------------------------------------------------
// Specification-level payload parsers, one per command.
// ---------------------------------------------------------------------------
pub open spec fn sp_hello(p: Seq<u8>) -> Result<WireCommandView, DecodeError> {
    match sp_i32(p, 0) {
        Some((high_version, i1)) => match sp_i32(p, i1) {
            Some((low_version, i2)) => {
                if i2 == p.len() {
                    Ok(WireCommandView::Hello { high_version, low_version })
                } else {
                    Err(DecodeError::InvalidData)
                }
            },
            None => Err(DecodeError::InvalidData),
        },
        None => Err(DecodeError::InvalidData),
    }
}

pub open spec fn sp_event(p: Seq<u8>) -> Result<WireCommandView, DecodeError> {
    Ok(WireCommandView::Event { data: p })
}

pub open spec fn sp_setup_append(p: Seq<u8>) -> Result<WireCommandView, DecodeError> {
    match sp_i64(p, 0) {
        Some((request_id, i1)) => match sp_u128(p, i1) {
            Some((writer_id, i2)) => match sp_str(p, i2) {
                Some((segment, i3)) => match sp_str(p, i3) {
                    Some((delegation_token, i4)) => {
                        if i4 == p.len() {
                            Ok(WireCommandView::SetupAppend {
                                request_id,
                                writer_id,
                                segment,
                                delegation_token,
                            })
                        } else {
                            Err(DecodeError::InvalidData)
                        }
                    },
                    None => Err(DecodeError::InvalidData),
                },
                None => Err(DecodeError::InvalidData),
            },
            None => Err(DecodeError::InvalidData),
        },
        None => Err(DecodeError::InvalidData),
    }
}

pub open spec fn sp_append_setup(p: Seq<u8>) -> Result<WireCommandView, DecodeError> {
    match sp_i64(p, 0) {
        Some((request_id, i1)) => match sp_str(p, i1) {
            Some((segment, i2)) => match sp_u128(p, i2) {
                Some((writer_id, i3)) => match sp_i64(p, i3) {
                    Some((last_event_number, i4)) => {
                        if i4 == p.len() {
                            Ok(WireCommandView::AppendSetup {
                                request_id,
                                segment,
                                writer_id,
                                last_event_number,
                            })
                        } else {
                            Err(DecodeError::InvalidData)
                        }
                    },
                    None => Err(DecodeError::InvalidData),
                },
                None => Err(DecodeError::InvalidData),
            },
            None => Err(DecodeError::InvalidData),
        },
        None => Err(DecodeError::InvalidData),
    }
}

pub open spec fn sp_append_block_end(p: Seq<u8>) -> Result<WireCommandView, DecodeError> {
    match sp_u128(p, 0) {
        Some((writer_id, i1)) => match sp_i32(p, i1) {
            Some((size_of_whole_events, i2)) => match sp_var(p, i2) {
                Some((data, i3)) => match sp_i32(p, i3) {
                    Some((num_events, i4)) => match sp_i64(p, i4) {
                        Some((last_event_number, i5)) => match sp_i64(p, i5) {
                            Some((request_id, i6)) => {
                                if i6 == p.len() {
                                    Ok(WireCommandView::AppendBlockEnd {
                                        writer_id,
                                        size_of_whole_events,
                                        data,
                                        num_events,
                                        last_event_number,
                                        request_id,
                                    })
                                } else {
                                    Err(DecodeError::InvalidData)
                                }
                            },
                            None => Err(DecodeError::InvalidData),
                        },
                        None => Err(DecodeError::InvalidData),
                    },
                    None => Err(DecodeError::InvalidData),
                },
                None => Err(DecodeError::InvalidData),
            },
            None => Err(DecodeError::InvalidData),
        },
        None => Err(DecodeError::InvalidData),
    }
}

pub open spec fn sp_data_appended(p: Seq<u8>) -> Result<WireCommandView, DecodeError> {
    match sp_u128(p, 0) {
        Some((writer_id, i1)) => match sp_i64(p, i1) {
            Some((event_number, i2)) => match sp_i64(p, i2) {
                Some((previous_event_number, i3)) => match sp_i64(p, i3) {
                    Some((request_id, i4)) => match sp_i64(p, i4) {
                        Some((current_segment_write_offset, i5)) => {
                            if i5 == p.len() {
                                Ok(WireCommandView::DataAppended {
                                    writer_id,
                                    event_number,
                                    previous_event_number,
                                    request_id,
                                    current_segment_write_offset,
                                })
                            } else {
                                Err(DecodeError::InvalidData)
                            }
                        },
                        None => Err(DecodeError::InvalidData),
                    },
                    None => Err(DecodeError::InvalidData),
                },
                None => Err(DecodeError::InvalidData),
            },
            None => Err(DecodeError::InvalidData),
        },
        None => Err(DecodeError::InvalidData),
    }
}

pub open spec fn sp_read_segment(p: Seq<u8>) -> Result<WireCommandView, DecodeError> {
    match sp_str(p, 0) {
        Some((segment, i1)) => match sp_i64(p, i1) {
            Some((offset, i2)) => match sp_i32(p, i2) {
                Some((suggested_length, i3)) => match sp_str(p, i3) {
                    Some((delegation_token, i4)) => match sp_i64(p, i4) {
                        Some((request_id, i5)) => {
                            if i5 == p.len() {
                                Ok(WireCommandView::ReadSegment {
                                    segment,
                                    offset,
                                    suggested_length,
                                    delegation_token,
                                    request_id,
                                })
                            } else {
                                Err(DecodeError::InvalidData)
                            }
                        },
                        None => Err(DecodeError::InvalidData),
                    },
                    None => Err(DecodeError::InvalidData),
                },
                None => Err(DecodeError::InvalidData),
            },
            None => Err(DecodeError::InvalidData),
        },
        None => Err(DecodeError::InvalidData),
    }
}

pub open spec fn sp_segment_read(p: Seq<u8>) -> Result<WireCommandView, DecodeError> {
    match sp_str(p, 0) {
        Some((segment, i1)) => match sp_i64(p, i1) {
            Some((offset, i2)) => match sp_bool(p, i2) {
                Some((at_tail, i3)) => match sp_bool(p, i3) {
                    Some((end_of_segment, i4)) => match sp_var(p, i4) {
                        Some((data, i5)) => match sp_i64(p, i5) {
                            Some((request_id, i6)) => {
                                if i6 == p.len() {
                                    Ok(WireCommandView::SegmentRead {
                                        segment,
                                        offset,
                                        at_tail,
                                        end_of_segment,
                                        data,
                                        request_id,
                                    })
                                } else {
                                    Err(DecodeError::InvalidData)
                                }
                            },
                            None => Err(DecodeError::InvalidData),
                        },
                        None => Err(DecodeError::InvalidData),
                    },
                    None => Err(DecodeError::InvalidData),
                },
                None => Err(DecodeError::InvalidData),
            },
            None => Err(DecodeError::InvalidData),
        },
        None => Err(DecodeError::InvalidData),
    }
}

pub open spec fn sp_update_table_entries(p: Seq<u8>) -> Result<WireCommandView, DecodeError> {
    match sp_str(p, 0) {
        Some((segment, i1)) => match sp_str(p, i1) {
            Some((delegation_token, i2)) => match sp_i32(p, i2) {
                Some((count, i3)) => {
                    if count < 0 {
                        Err(DecodeError::InvalidData)
                    } else {
                        match sp_entry_list(p, i3, count as nat) {
                            Some((table_entries, i4)) => match sp_i64(p, i4) {
                                Some((request_id, i5)) => {
                                    if i5 == p.len() {
                                        Ok(WireCommandView::UpdateTableEntries {
                                            segment,
                                            delegation_token,
                                            table_entries,
                                            request_id,
                                        })
                                    } else {
                                        Err(DecodeError::InvalidData)
                                    }
                                },
                                None => Err(DecodeError::InvalidData),
                            },
                            None => Err(DecodeError::InvalidData),
                        }
                    }
                },
                None => Err(DecodeError::InvalidData),
            },
            None => Err(DecodeError::InvalidData),
        },
        None => Err(DecodeError::InvalidData),
    }
}

pub open spec fn sp_table_entries_updated(p: Seq<u8>) -> Result<WireCommandView, DecodeError> {
    match sp_i64(p, 0) {
        Some((request_id, i1)) => match sp_i32(p, i1) {
            Some((count, i2)) => {
                if count < 0 {
                    Err(DecodeError::InvalidData)
                } else {
                    match sp_version_list(p, i2, count as nat) {
                        Some((updated_versions, i3)) => {
                            if i3 == p.len() {
                                Ok(WireCommandView::TableEntriesUpdated {
                                    request_id,
                                    updated_versions,
                                })
                            } else {
                                Err(DecodeError::InvalidData)
                            }
                        },
                        None => Err(DecodeError::InvalidData),
                    }
                }
            },
            None => Err(DecodeError::InvalidData),
        },
        None => Err(DecodeError::InvalidData),
    }
}

pub open spec fn sp_read_table_entries_delta(p: Seq<u8>) -> Result<WireCommandView, DecodeError> {
    match sp_str(p, 0) {
        Some((segment, i1)) => match sp_str(p, i1) {
            Some((delegation_token, i2)) => match sp_i64(p, i2) {
                Some((from_position, i3)) => match sp_i32(p, i3) {
                    Some((suggested_entry_count, i4)) => match sp_i64(p, i4) {
                        Some((request_id, i5)) => {
                            if i5 == p.len() {
                                Ok(WireCommandView::ReadTableEntriesDelta {
                                    segment,
                                    delegation_token,
                                    from_position,
                                    suggested_entry_count,
                                    request_id,
                                })
                            } else {
                                Err(DecodeError::InvalidData)
                            }
                        },
                        None => Err(DecodeError::InvalidData),
                    },
                    None => Err(DecodeError::InvalidData),
                },
                None => Err(DecodeError::InvalidData),
            },
            None => Err(DecodeError::InvalidData),
        },
        None => Err(DecodeError::InvalidData),
    }
}

pub open spec fn sp_table_entries_delta_read(p: Seq<u8>) -> Result<WireCommandView, DecodeError> {
    match sp_i64(p, 0) {
        Some((request_id, i1)) => match sp_str(p, i1) {
            Some((segment, i2)) => match sp_i32(p, i2) {
                Some((count, i3)) => {
                    if count < 0 {
                        Err(DecodeError::InvalidData)
                    } else {
                        match sp_entry_list(p, i3, count as nat) {
                            Some((entries, i4)) => match sp_bool(p, i4) {
                                Some((should_clear, i5)) => match sp_bool(p, i5) {
                                    Some((reached_end, i6)) => match sp_i64(p, i6) {
                                        Some((last_position, i7)) => {
                                            if i7 == p.len() {
                                                Ok(WireCommandView::TableEntriesDeltaRead {
                                                    request_id,
                                                    segment,
                                                    entries,
                                                    should_clear,
                                                    reached_end,
                                                    last_position,
                                                })
                                            } else {
                                                Err(DecodeError::InvalidData)
                                            }
                                        },
                                        None => Err(DecodeError::InvalidData),
                                    },
                                    None => Err(DecodeError::InvalidData),
                                },
                                None => Err(DecodeError::InvalidData),
                            },
                            None => Err(DecodeError::InvalidData),
                        }
                    }
                },
                None => Err(DecodeError::InvalidData),
            },
            None => Err(DecodeError::InvalidData),
        },
        None => Err(DecodeError::InvalidData),
    }
}

/// Shared shape of the sealed, missing and truncated segment replies:
/// request id, segment, offset.
pub open spec fn sp_rid_seg_off(p: Seq<u8>) -> Option<(i64, Seq<u8>, i64)> {
    match sp_i64(p, 0) {
        Some((request_id, i1)) => match sp_str(p, i1) {
            Some((segment, i2)) => match sp_i64(p, i2) {
                Some((offset, i3)) => {
                    if i3 == p.len() {
                        Some((request_id, segment, offset))
                    } else {
                        None
                    }
                },
                None => None,
            },
            None => None,
        },
        None => None,
    }
}

pub open spec fn sp_segment_is_sealed(p: Seq<u8>) -> Result<WireCommandView, DecodeError> {
    match sp_rid_seg_off(p) {
        Some((request_id, segment, offset)) => Ok(
            WireCommandView::SegmentIsSealed { request_id, segment, offset },
        ),
        None => Err(DecodeError::InvalidData),
    }
}

pub open spec fn sp_no_such_segment(p: Seq<u8>) -> Result<WireCommandView, DecodeError> {
    match sp_rid_seg_off(p) {
        Some((request_id, segment, offset)) => Ok(
            WireCommandView::NoSuchSegment { request_id, segment, offset },
        ),
        None => Err(DecodeError::InvalidData),
    }
}

pub open spec fn sp_segment_is_truncated(p: Seq<u8>) -> Result<WireCommandView, DecodeError> {
    match sp_rid_seg_off(p) {
        Some((request_id, segment, start_offset)) => Ok(
            WireCommandView::SegmentIsTruncated { request_id, segment, start_offset },
        ),
        None => Err(DecodeError::InvalidData),
    }
}

pub open spec fn sp_invalid_event_number(p: Seq<u8>) -> Result<WireCommandView, DecodeError> {
    match sp_u128(p, 0) {
        Some((writer_id, i1)) => match sp_i64(p, i1) {
            Some((request_id, i2)) => match sp_i64(p, i2) {
                Some((event_number, i3)) => {
                    if i3 == p.len() {
                        Ok(WireCommandView::InvalidEventNumber {
                            writer_id,
                            request_id,
                            event_number,
                        })
                    } else {
                        Err(DecodeError::InvalidData)
                    }
                },
                None => Err(DecodeError::InvalidData),
            },
            None => Err(DecodeError::InvalidData),
        },
        None => Err(DecodeError::InvalidData),
    }
}

pub open spec fn sp_table_key_bad_version(p: Seq<u8>) -> Result<WireCommandView, DecodeError> {
    match sp_i64(p, 0) {
        Some((request_id, i1)) => match sp_str(p, i1) {
            Some((segment, i2)) => {
                if i2 == p.len() {
                    Ok(WireCommandView::TableKeyBadVersion { request_id, segment })
                } else {
                    Err(DecodeError::InvalidData)
                }
            },
            None => Err(DecodeError::InvalidData),
        },
        None => Err(DecodeError::InvalidData),
    }
}

pub open spec fn sp_auth_token_check_failed(p: Seq<u8>) -> Result<WireCommandView, DecodeError> {
    match sp_i64(p, 0) {
        Some((request_id, i1)) => {
            if i1 == p.len() {
                Ok(WireCommandView::AuthTokenCheckFailed { request_id })
            } else {
                Err(DecodeError::InvalidData)
            }
        },
        None => Err(DecodeError::InvalidData),
    }
}

/// Which command a payload of the given type code holds; an unknown code is
/// malformed.
pub open spec fn spec_decode_payload(code: i32, p: Seq<u8>) -> Result<
    WireCommandView,
    DecodeError,
> {
    if code == TYPE_HELLO {
        sp_hello(p)
    } else if code == TYPE_EVENT {
        sp_event(p)
    } else if code == TYPE_SETUP_APPEND {
        sp_setup_append(p)
    } else if code == TYPE_APPEND_SETUP {
        sp_append_setup(p)
    } else if code == TYPE_APPEND_BLOCK_END {
        sp_append_block_end(p)
    } else if code == TYPE_DATA_APPENDED {
        sp_data_appended(p)
    } else if code == TYPE_READ_SEGMENT {
        sp_read_segment(p)
    } else if code == TYPE_SEGMENT_READ {
        sp_segment_read(p)
    } else if code == TYPE_UPDATE_TABLE_ENTRIES {
        sp_update_table_entries(p)
    } else if code == TYPE_TABLE_ENTRIES_UPDATED {
        sp_table_entries_updated(p)
    } else if code == TYPE_READ_TABLE_ENTRIES_DELTA {
        sp_read_table_entries_delta(p)
    } else if code == TYPE_TABLE_ENTRIES_DELTA_READ {
        sp_table_entries_delta_read(p)
    } else if code == TYPE_SEGMENT_IS_SEALED {
        sp_segment_is_sealed(p)
    } else if code == TYPE_NO_SUCH_SEGMENT {
        sp_no_such_segment(p)
    } else if code == TYPE_SEGMENT_IS_TRUNCATED {
        sp_segment_is_truncated(p)
    } else if code == TYPE_INVALID_EVENT_NUMBER {
        sp_invalid_event_number(p)
    } else if code == TYPE_TABLE_KEY_BAD_VERSION {
        sp_table_key_bad_version(p)
    } else if code == TYPE_AUTH_TOKEN_CHECK_FAILED {
        sp_auth_token_check_failed(p)
    } else {
        Err(DecodeError::InvalidData)
    }
}

/// The specification of decoding: which command, if any, the byte string
/// frames. A string too short for its header or its declared payload is
/// truncated; an over-long declared length, trailing bytes, an unknown type
/// code or a malformed field is invalid data.
pub open spec fn spec_decode(s: Seq<u8>) -> Result<WireCommandView, DecodeError> {
    if s.len() < 8 {
        Err(DecodeError::TruncatedFrame)
    } else {
        let code = spec_read_be32(s.subrange(0, 4)) as i32;
        let plen = spec_read_be32(s.subrange(4, 8));
        if plen > WIRE_LEN_MAX {
            Err(DecodeError::InvalidData)
        } else if s.len() - 8 < plen {
            Err(DecodeError::TruncatedFrame)
        } else if s.len() - 8 > plen {
            Err(DecodeError::InvalidData)
        } else {
            spec_decode_payload(code, s.subrange(8, s.len() as int))
        }
    }
}

// ---------------------------------------------------------------------------
// Exec field readers, each returning exactly what its spec parser says.
// ---------------------------------------------------------------------------
fn rd_i32(p: &[u8], i: usize) -> (r: Option<(i32, usize)>)
    ensures
        r matches Some(x) ==> sp_i32(p@, i as int) == Some((x.0, x.1 as int)) && x.1 <= p@.len(),
        r is None ==> sp_i32(p@, i as int) is None,
{
    let n = p.len();
    if n >= 4 && i <= n - 4 {
        Some((get_be32(p, i) as i32, i + 4))
    } else {
        None
    }
}

fn rd_i64(p: &[u8], i: usize) -> (r: Option<(i64, usize)>)
    ensures
        r matches Some(x) ==> sp_i64(p@, i as int) == Some((x.0, x.1 as int)) && x.1 <= p@.len(),
        r is None ==> sp_i64(p@, i as int) is None,
{
    let n = p.len();
    if n >= 8 && i <= n - 8 {
        Some((get_be64(p, i) as i64, i + 8))
    } else {
        None
    }
}

fn rd_u128(p: &[u8], i: usize) -> (r: Option<(u128, usize)>)
    ensures
        r matches Some(x) ==> sp_u128(p@, i as int) == Some((x.0, x.1 as int)) && x.1 <= p@.len(),
        r is None ==> sp_u128(p@, i as int) is None,
{
    let n = p.len();
    if n >= 16 && i <= n - 16 {
        Some((get_be128(p, i), i + 16))
    } else {
        None
    }
}

fn rd_bool(p: &[u8], i: usize) -> (r: Option<(bool, usize)>)
    ensures
        r matches Some(x) ==> sp_bool(p@, i as int) == Some((x.0, x.1 as int)) && x.1 <= p@.len(),
        r is None ==> sp_bool(p@, i as int) is None,
{
    let n = p.len();
    if n >= 1 && i <= n - 1 {
        let b = p[i];
        if b == 0 {
            Some((false, i + 1))
        } else if b == 1 {
            Some((true, i + 1))
        } else {
            None
        }
    } else {
        None
    }
}

fn rd_var(p: &[u8], i: usize) -> (r: Option<(Vec<u8>, usize)>)
    ensures
        r matches Some(x) ==> sp_var(p@, i as int) == Some((x.0@, x.1 as int)) && x.1 <= p@.len(),
        r is None ==> sp_var(p@, i as int) is None,
{
    match rd_i32(p, i) {
        None => None,
        Some((len, j)) => {
            if len >= 0 {
                let ln = len as usize;
                if ln <= p.len() - j {
                    let b = slice_to_vec(slice_subrange(p, j, j + ln));
                    Some((b, j + ln))
                } else {
                    None
                }
            } else {
                None
            }
        },
    }
}

fn rd_str(p: &[u8], i: usize) -> (r: Option<(Vec<u8>, usize)>)
    ensures
        r matches Some(x) ==> sp_str(p@, i as int) == Some((x.0@, x.1 as int)) && x.1 <= p@.len(),
        r is None ==> sp_str(p@, i as int) is None,
{
    match rd_var(p, i) {
        None => None,
        Some((b, j)) => {
            if utf8_check(b.as_slice()) {
                Some((b, j))
            } else {
                None
            }
        },
    }
}

fn rd_entry(p: &[u8], i: usize) -> (r: Option<(TableEntry, usize)>)
    ensures
        r matches Some(x) ==> sp_entry(p@, i as int) == Some((x.0@, x.1 as int)) && x.1 <= p@.len(),
        r is None ==> sp_entry(p@, i as int) is None,
{
    match rd_var(p, i) {
        None => None,
        Some((key, j1)) => match rd_i64(p, j1) {
            None => None,
            Some((key_version, j2)) => match rd_var(p, j2) {
                None => None,
                Some((value, j3)) => Some((TableEntry { key, key_version, value }, j3)),
            },
        },
    }
}

fn rd_entry_list(p: &[u8], i: usize, n: usize) -> (r: Option<(Vec<TableEntry>, usize)>)
    requires
        i <= p@.len(),
    ensures
        r matches Some(x) ==> sp_entry_list(p@, i as int, n as nat) == Some(
            (entries_view(x.0@), x.1 as int),
        ) && x.1 <= p@.len(),
        r is None ==> sp_entry_list(p@, i as int, n as nat) is None,
{
    let mut acc: Vec<TableEntry> = Vec::new();
    let mut pos: usize = i;
    let mut left: usize = n;
    loop
        invariant
            left <= n,
            pos <= p@.len(),
            sp_entry_list(p@, i as int, n as nat) == (match sp_entry_list(
                p@,
                pos as int,
                left as nat,
            ) {
                Some((tail, k)) => Some((entries_view(acc@) + tail, k)),
                None => None::<(Seq<TableEntryView>, int)>,
            }),
        ensures
            pos <= p@.len(),
            sp_entry_list(p@, i as int, n as nat) == Some((entries_view(acc@), pos as int)),
        decreases left,
    {
        if left == 0 {
            proof {
                assert(sp_entry_list(p@, pos as int, 0nat) == Some(
                    (Seq::<TableEntryView>::empty(), pos as int),
                ));
                assert(entries_view(acc@) + Seq::<TableEntryView>::empty() =~= entries_view(acc@));
            }
            break;
        }
        match rd_entry(p, pos) {
            None => {
                proof {
                    assert(sp_entry_list(p@, pos as int, left as nat) is None);
                }
                return None;
            },
            Some((e, j)) => {
                proof {
                    let tail0 = sp_entry_list(p@, j as int, (left - 1) as nat);
                    assert(sp_entry_list(p@, pos as int, left as nat) == (match tail0 {
                        Some((es, k)) => Some((seq![e@] + es, k)),
                        None => None::<(Seq<TableEntryView>, int)>,
                    }));
                    assert(entries_view(acc@.push(e)) =~= entries_view(acc@).push(e@));
                    match tail0 {
                        Some((es, k)) => {
                            assert(entries_view(acc@) + (seq![e@] + es) =~= entries_view(
                                acc@.push(e),
                            ) + es);
                        },
                        None => {},
                    }
                }
                acc.push(e);
                pos = j;
                left = left - 1;
            },
        }
    }
    Some((acc, pos))
}

fn rd_version_list(p: &[u8], i: usize, n: usize) -> (r: Option<(Vec<i64>, usize)>)
    requires
        i <= p@.len(),
    ensures
        r matches Some(x) ==> sp_version_list(p@, i as int, n as nat) == Some(
            (x.0@, x.1 as int),
        ) && x.1 <= p@.len(),
        r is None ==> sp_version_list(p@, i as int, n as nat) is None,
{
    let mut acc: Vec<i64> = Vec::new();
    let mut pos: usize = i;
    let mut left: usize = n;
    loop
        invariant
            left <= n,
            pos <= p@.len(),
            sp_version_list(p@, i as int, n as nat) == (match sp_version_list(
                p@,
                pos as int,
                left as nat,
            ) {
                Some((tail, k)) => Some((acc@ + tail, k)),
                None => None::<(Seq<i64>, int)>,
            }),
        ensures
            pos <= p@.len(),
            sp_version_list(p@, i as int, n as nat) == Some((acc@, pos as int)),
        decreases left,
    {
        if left == 0 {
            proof {
                assert(sp_version_list(p@, pos as int, 0nat) == Some(
                    (Seq::<i64>::empty(), pos as int),
                ));
                assert(acc@ + Seq::<i64>::empty() =~= acc@);
            }
            break;
        }
        match rd_i64(p, pos) {
            None => {
                proof {
                    assert(sp_version_list(p@, pos as int, left as nat) is None);
                }
                return None;
            },
            Some((v, j)) => {
                proof {
                    let tail0 = sp_version_list(p@, j as int, (left - 1) as nat);
                    assert(sp_version_list(p@, pos as int, left as nat) == (match tail0 {
                        Some((vs, k)) => Some((seq![v] + vs, k)),
                        None => None::<(Seq<i64>, int)>,
                    }));
                    match tail0 {
                        Some((vs, k)) => {
                            assert(acc@ + (seq![v] + vs) =~= acc@.push(v) + vs);
                        },
                        None => {},
                    }
                }
                acc.push(v);
                pos = j;
                left = left - 1;
            },
        }
    }
    Some((acc, pos))
}

// ---------------------------------------------------------------------------
// Exec payload decoders, one per command, each returning exactly what its
// spec parser says.
// ---------------------------------------------------------------------------
fn dec_hello(p: &[u8]) -> (r: Result<WireCommand, DecodeError>)
    ensures
        r matches Ok(m) ==> sp_hello(p@) == Ok::<WireCommandView, DecodeError>(m@),
        r matches Err(e) ==> sp_hello(p@) == Err::<WireCommandView, DecodeError>(e),
{
    if let Some((high_version, i1)) = rd_i32(p, 0) {
        if let Some((low_version, i2)) = rd_i32(p, i1) {
            if i2 == p.len() {
                return Ok(WireCommand::Hello { high_version, low_version });
            }
        }
    }
    Err(DecodeError::InvalidData)
}

fn dec_event(p: &[u8]) -> (r: Result<WireCommand, DecodeError>)
    ensures
        r matches Ok(m) ==> sp_event(p@) == Ok::<WireCommandView, DecodeError>(m@),
        r matches Err(e) ==> sp_event(p@) == Err::<WireCommandView, DecodeError>(e),
{
    Ok(WireCommand::Event { data: slice_to_vec(p) })
}

fn dec_setup_append(p: &[u8]) -> (r: Result<WireCommand, DecodeError>)
    ensures
        r matches Ok(m) ==> sp_setup_append(p@) == Ok::<WireCommandView, DecodeError>(m@),
        r matches Err(e) ==> sp_setup_append(p@) == Err::<WireCommandView, DecodeError>(e),
{
    if let Some((request_id, i1)) = rd_i64(p, 0) {
        if let Some((writer_id, i2)) = rd_u128(p, i1) {
            if let Some((segment, i3)) = rd_str(p, i2) {
                if let Some((delegation_token, i4)) = rd_str(p, i3) {
                    if i4 == p.len() {
                        return Ok(
                            WireCommand::SetupAppend {
                                request_id,
                                writer_id,
                                segment,
                                delegation_token,
                            },
                        );
                    }
                }
            }
        }
    }
    Err(DecodeError::InvalidData)
}

fn dec_append_setup(p: &[u8]) -> (r: Result<WireCommand, DecodeError>)
    ensures
        r matches Ok(m) ==> sp_append_setup(p@) == Ok::<WireCommandView, DecodeError>(m@),
        r matches Err(e) ==> sp_append_setup(p@) == Err::<WireCommandView, DecodeError>(e),
{
    if let Some((request_id, i1)) = rd_i64(p, 0) {
        if let Some((segment, i2)) = rd_str(p, i1) {
            if let Some((writer_id, i3)) = rd_u128(p, i2) {
                if let Some((last_event_number, i4)) = rd_i64(p, i3) {
                    if i4 == p.len() {
                        return Ok(
                            WireCommand::AppendSetup {
                                request_id,
                                segment,
                                writer_id,
                                last_event_number,
                            },
                        );
                    }
                }
            }
        }
    }
    Err(DecodeError::InvalidData)
}

fn dec_append_block_end(p: &[u8]) -> (r: Result<WireCommand, DecodeError>)
    ensures
        r matches Ok(m) ==> sp_append_block_end(p@) == Ok::<WireCommandView, DecodeError>(m@),
        r matches Err(e) ==> sp_append_block_end(p@) == Err::<WireCommandView, DecodeError>(e),
{
    if let Some((writer_id, i1)) = rd_u128(p, 0) {
        if let Some((size_of_whole_events, i2)) = rd_i32(p, i1) {
            if let Some((data, i3)) = rd_var(p, i2) {
                if let Some((num_events, i4)) = rd_i32(p, i3) {
                    if let Some((last_event_number, i5)) = rd_i64(p, i4) {
                        if let Some((request_id, i6)) = rd_i64(p, i5) {
                            if i6 == p.len() {
                                return Ok(
                                    WireCommand::AppendBlockEnd {
                                        writer_id,
                                        size_of_whole_events,
                                        data,
                                        num_events,
                                        last_event_number,
                                        request_id,
                                    },
                                );
                            }
                        }
                    }
                }
            }
        }
    }
    Err(DecodeError::InvalidData)
}

fn dec_data_appended(p: &[u8]) -> (r: Result<WireCommand, DecodeError>)
    ensures
        r matches Ok(m) ==> sp_data_appended(p@) == Ok::<WireCommandView, DecodeError>(m@),
        r matches Err(e) ==> sp_data_appended(p@) == Err::<WireCommandView, DecodeError>(e),
{
    if let Some((writer_id, i1)) = rd_u128(p, 0) {
        if let Some((event_number, i2)) = rd_i64(p, i1) {
            if let Some((previous_event_number, i3)) = rd_i64(p, i2) {
                if let Some((request_id, i4)) = rd_i64(p, i3) {
                    if let Some((current_segment_write_offset, i5)) = rd_i64(p, i4) {
                        if i5 == p.len() {
                            return Ok(
                                WireCommand::DataAppended {
                                    writer_id,
                                    event_number,
                                    previous_event_number,
                                    request_id,
                                    current_segment_write_offset,
                                },
                            );
                        }
                    }
                }
            }
        }
    }
    Err(DecodeError::InvalidData)
}

fn dec_read_segment(p: &[u8]) -> (r: Result<WireCommand, DecodeError>)
    ensures
        r matches Ok(m) ==> sp_read_segment(p@) == Ok::<WireCommandView, DecodeError>(m@),
        r matches Err(e) ==> sp_read_segment(p@) == Err::<WireCommandView, DecodeError>(e),
{
    if let Some((segment, i1)) = rd_str(p, 0) {
        if let Some((offset, i2)) = rd_i64(p, i1) {
            if let Some((suggested_length, i3)) = rd_i32(p, i2) {
                if let Some((delegation_token, i4)) = rd_str(p, i3) {
                    if let Some((request_id, i5)) = rd_i64(p, i4) {
                        if i5 == p.len() {
                            return Ok(
                                WireCommand::ReadSegment {
                                    segment,
                                    offset,
                                    suggested_length,
                                    delegation_token,
                                    request_id,
                                },
                            );
                        }
                    }
                }
            }
        }
    }
    Err(DecodeError::InvalidData)
}

fn dec_segment_read(p: &[u8]) -> (r: Result<WireCommand, DecodeError>)
    ensures
        r matches Ok(m) ==> sp_segment_read(p@) == Ok::<WireCommandView, DecodeError>(m@),
        r matches Err(e) ==> sp_segment_read(p@) == Err::<WireCommandView, DecodeError>(e),
{
    if let Some((segment, i1)) = rd_str(p, 0) {
        if let Some((offset, i2)) = rd_i64(p, i1) {
            if let Some((at_tail, i3)) = rd_bool(p, i2) {
                if let Some((end_of_segment, i4)) = rd_bool(p, i3) {
                    if let Some((data, i5)) = rd_var(p, i4) {
                        if let Some((request_id, i6)) = rd_i64(p, i5) {
                            if i6 == p.len() {
                                return Ok(
                                    WireCommand::SegmentRead {
                                        segment,
                                        offset,
                                        at_tail,
                                        end_of_segment,
                                        data,
                                        request_id,
                                    },
                                );
                            }
                        }
                    }
                }
            }
        }
    }
    Err(DecodeError::InvalidData)
}

fn dec_update_table_entries(p: &[u8]) -> (r: Result<WireCommand, DecodeError>)
    ensures
        r matches Ok(m) ==> sp_update_table_entries(p@) == Ok::<WireCommandView, DecodeError>(m@),
        r matches Err(e) ==> sp_update_table_entries(p@) == Err::<WireCommandView, DecodeError>(e),
{
    if let Some((segment, i1)) = rd_str(p, 0) {
        if let Some((delegation_token, i2)) = rd_str(p, i1) {
            if let Some((count, i3)) = rd_i32(p, i2) {
                if count >= 0 {
                    if let Some((table_entries, i4)) = rd_entry_list(p, i3, count as usize) {
                        if let Some((request_id, i5)) = rd_i64(p, i4) {
                            if i5 == p.len() {
                                return Ok(
                                    WireCommand::UpdateTableEntries {
                                        segment,
                                        delegation_token,
                                        table_entries,
                                        request_id,
                                    },
                                );
                            }
                        }
                    }
                }
            }
        }
    }
    Err(DecodeError::InvalidData)
}

fn dec_table_entries_updated(p: &[u8]) -> (r: Result<WireCommand, DecodeError>)
    ensures
        r matches Ok(m) ==> sp_table_entries_updated(p@) == Ok::<WireCommandView, DecodeError>(m@),
        r matches Err(e) ==> sp_table_entries_updated(p@) == Err::<WireCommandView, DecodeError>(
            e,
        ),
{
    if let Some((request_id, i1)) = rd_i64(p, 0) {
        if let Some((count, i2)) = rd_i32(p, i1) {
            if count >= 0 {
                if let Some((updated_versions, i3)) = rd_version_list(p, i2, count as usize) {
                    if i3 == p.len() {
                        return Ok(WireCommand::TableEntriesUpdated { request_id, updated_versions });
                    }
                }
            }
        }
    }
    Err(DecodeError::InvalidData)
}

fn dec_read_table_entries_delta(p: &[u8]) -> (r: Result<WireCommand, DecodeError>)
    ensures
        r matches Ok(m) ==> sp_read_table_entries_delta(p@) == Ok::<WireCommandView, DecodeError>(
            m@,
        ),
        r matches Err(e) ==> sp_read_table_entries_delta(p@) == Err::<
            WireCommandView,
            DecodeError,
        >(e),
{
    if let Some((segment, i1)) = rd_str(p, 0) {
        if let Some((delegation_token, i2)) = rd_str(p, i1) {
            if let Some((from_position, i3)) = rd_i64(p, i2) {
                if let Some((suggested_entry_count, i4)) = rd_i32(p, i3) {
                    if let Some((request_id, i5)) = rd_i64(p, i4) {
                        if i5 == p.len() {
                            return Ok(
                                WireCommand::ReadTableEntriesDelta {
                                    segment,
                                    delegation_token,
                                    from_position,
                                    suggested_entry_count,
                                    request_id,
                                },
                            );
                        }
                    }
                }
            }
        }
    }
    Err(DecodeError::InvalidData)
}

fn dec_table_entries_delta_read(p: &[u8]) -> (r: Result<WireCommand, DecodeError>)
    ensures
        r matches Ok(m) ==> sp_table_entries_delta_read(p@) == Ok::<WireCommandView, DecodeError>(
            m@,
        ),
        r matches Err(e) ==> sp_table_entries_delta_read(p@) == Err::<
            WireCommandView,
            DecodeError,
        >(e),
{
    if let Some((request_id, i1)) = rd_i64(p, 0) {
        if let Some((segment, i2)) = rd_str(p, i1) {
            if let Some((count, i3)) = rd_i32(p, i2) {
                if count >= 0 {
                    if let Some((entries, i4)) = rd_entry_list(p, i3, count as usize) {
                        if let Some((should_clear, i5)) = rd_bool(p, i4) {
                            if let Some((reached_end, i6)) = rd_bool(p, i5) {
                                if let Some((last_position, i7)) = rd_i64(p, i6) {
                                    if i7 == p.len() {
                                        return Ok(
                                            WireCommand::TableEntriesDeltaRead {
                                                request_id,
                                                segment,
                                                entries,
                                                should_clear,
                                                reached_end,
                                                last_position,
                                            },
                                        );
                                    }
                                }
                            }
                        }
                    }
                }
            }
        }
    }
    Err(DecodeError::InvalidData)
}

fn rd_rid_seg_off(p: &[u8]) -> (r: Option<(i64, Vec<u8>, i64)>)
    ensures
        r matches Some(x) ==> sp_rid_seg_off(p@) == Some((x.0, x.1@, x.2)),
        r is None ==> sp_rid_seg_off(p@) is None,
{
    if let Some((request_id, i1)) = rd_i64(p, 0) {
        if let Some((segment, i2)) = rd_str(p, i1) {
            if let Some((offset, i3)) = rd_i64(p, i2) {
                if i3 == p.len() {
                    return Some((request_id, segment, offset));
                }
            }
        }
    }
    None
}

fn dec_segment_is_sealed(p: &[u8]) -> (r: Result<WireCommand, DecodeError>)
    ensures
        r matches Ok(m) ==> sp_segment_is_sealed(p@) == Ok::<WireCommandView, DecodeError>(m@),
        r matches Err(e) ==> sp_segment_is_sealed(p@) == Err::<WireCommandView, DecodeError>(e),
{
    match rd_rid_seg_off(p) {
        Some((request_id, segment, offset)) => Ok(
            WireCommand::SegmentIsSealed { request_id, segment, offset },
        ),
        None => Err(DecodeError::InvalidData),
    }
}

fn dec_no_such_segment(p: &[u8]) -> (r: Result<WireCommand, DecodeError>)
    ensures
        r matches Ok(m) ==> sp_no_such_segment(p@) == Ok::<WireCommandView, DecodeError>(m@),
        r matches Err(e) ==> sp_no_such_segment(p@) == Err::<WireCommandView, DecodeError>(e),
{
    match rd_rid_seg_off(p) {
        Some((request_id, segment, offset)) => Ok(
            WireCommand::NoSuchSegment { request_id, segment, offset },
        ),
        None => Err(DecodeError::InvalidData),
    }
}

fn dec_segment_is_truncated(p: &[u8]) -> (r: Result<WireCommand, DecodeError>)
    ensures
        r matches Ok(m) ==> sp_segment_is_truncated(p@) == Ok::<WireCommandView, DecodeError>(m@),
        r matches Err(e) ==> sp_segment_is_truncated(p@) == Err::<WireCommandView, DecodeError>(e),
{
    match rd_rid_seg_off(p) {
        Some((request_id, segment, start_offset)) => Ok(
            WireCommand::SegmentIsTruncated { request_id, segment, start_offset },
        ),
        None => Err(DecodeError::InvalidData),
    }
}

fn dec_invalid_event_number(p: &[u8]) -> (r: Result<WireCommand, DecodeError>)
    ensures
        r matches Ok(m) ==> sp_invalid_event_number(p@) == Ok::<WireCommandView, DecodeError>(m@),
        r matches Err(e) ==> sp_invalid_event_number(p@) == Err::<WireCommandView, DecodeError>(e),
{
    if let Some((writer_id, i1)) = rd_u128(p, 0) {
        if let Some((request_id, i2)) = rd_i64(p, i1) {
            if let Some((event_number, i3)) = rd_i64(p, i2) {
                if i3 == p.len() {
                    return Ok(WireCommand::InvalidEventNumber { writer_id, request_id, event_number });
                }
            }
        }
    }
    Err(DecodeError::InvalidData)
}

fn dec_table_key_bad_version(p: &[u8]) -> (r: Result<WireCommand, DecodeError>)
    ensures
        r matches Ok(m) ==> sp_table_key_bad_version(p@) == Ok::<WireCommandView, DecodeError>(m@),
        r matches Err(e) ==> sp_table_key_bad_version(p@) == Err::<WireCommandView, DecodeError>(
            e,
        ),
{
    if let Some((request_id, i1)) = rd_i64(p, 0) {
        if let Some((segment, i2)) = rd_str(p, i1) {
            if i2 == p.len() {
                return Ok(WireCommand::TableKeyBadVersion { request_id, segment });
            }
        }
    }
    Err(DecodeError::InvalidData)
}

fn dec_auth_token_check_failed(p: &[u8]) -> (r: Result<WireCommand, DecodeError>)
    ensures
        r matches Ok(m) ==> sp_auth_token_check_failed(p@) == Ok::<WireCommandView, DecodeError>(
            m@,
        ),
        r matches Err(e) ==> sp_auth_token_check_failed(p@) == Err::<WireCommandView, DecodeError>(
            e,
        ),
{
    if let Some((request_id, i1)) = rd_i64(p, 0) {
        if i1 == p.len() {
            return Ok(WireCommand::AuthTokenCheckFailed { request_id });
        }
    }
    Err(DecodeError::InvalidData)
}

fn decode_payload(code: i32, p: &[u8]) -> (r: Result<WireCommand, DecodeError>)
    ensures
        r matches Ok(m) ==> spec_decode_payload(code, p@) == Ok::<WireCommandView, DecodeError>(
            m@,
        ),
        r matches Err(e) ==> spec_decode_payload(code, p@) == Err::<WireCommandView, DecodeError>(
            e,
        ),
{
    if code == TYPE_HELLO {
        dec_hello(p)
    } else if code == TYPE_EVENT {
        dec_event(p)
    } else if code == TYPE_SETUP_APPEND {
        dec_setup_append(p)
    } else if code == TYPE_APPEND_SETUP {
        dec_append_setup(p)
    } else if code == TYPE_APPEND_BLOCK_END {
        dec_append_block_end(p)
    } else if code == TYPE_DATA_APPENDED {
        dec_data_appended(p)
    } else if code == TYPE_READ_SEGMENT {
        dec_read_segment(p)
    } else if code == TYPE_SEGMENT_READ {
        dec_segment_read(p)
    } else if code == TYPE_UPDATE_TABLE_ENTRIES {
        dec_update_table_entries(p)
    } else if code == TYPE_TABLE_ENTRIES_UPDATED {
        dec_table_entries_updated(p)
    } else if code == TYPE_READ_TABLE_ENTRIES_DELTA {
        dec_read_table_entries_delta(p)
    } else if code == TYPE_TABLE_ENTRIES_DELTA_READ {
        dec_table_entries_delta_read(p)
    } else if code == TYPE_SEGMENT_IS_SEALED {
        dec_segment_is_sealed(p)
    } else if code == TYPE_NO_SUCH_SEGMENT {
        dec_no_such_segment(p)
    } else if code == TYPE_SEGMENT_IS_TRUNCATED {
        dec_segment_is_truncated(p)
    } else if code == TYPE_INVALID_EVENT_NUMBER {
        dec_invalid_event_number(p)
    } else if code == TYPE_TABLE_KEY_BAD_VERSION {
        dec_table_key_bad_version(p)
    } else if code == TYPE_AUTH_TOKEN_CHECK_FAILED {
        dec_auth_token_check_failed(p)
    } else {
        Err(DecodeError::InvalidData)
    }
}

/// Decodes one frame. Returns exactly what `spec_decode` says of the bytes:
/// the framed command, or the error that classifies why no command is
/// framed. Never panics and never reads outside `buf`.
pub fn decode_command(buf: &[u8]) -> (r: Result<WireCommand, DecodeError>)
    ensures
        r matches Ok(m) ==> spec_decode(buf@) == Ok::<WireCommandView, DecodeError>(m@),
        r matches Err(e) ==> spec_decode(buf@) == Err::<WireCommandView, DecodeError>(e),
{
    let n = buf.len();
    if n < 8 {
        return Err(DecodeError::TruncatedFrame);
    }
    let code = get_be32(buf, 0) as i32;
    let plen = get_be32(buf, 4);
    if plen > WIRE_LEN_MAX as u32 {
        return Err(DecodeError::InvalidData);
    }
    let plen = plen as usize;
    if n - 8 < plen {
        return Err(DecodeError::TruncatedFrame);
    }
    if n - 8 > plen {
        return Err(DecodeError::InvalidData);
    }
    let payload = slice_subrange(buf, 8, n);
    decode_payload(code, payload)
}

} // verus!
