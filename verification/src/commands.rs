//! Typed wire commands and their canonical encoding.
//!
//! Every frame on the wire is `4-byte big-endian type code || 4-byte
//! big-endian payload length || payload`. Each command's payload is the
//! concatenation of its fields: integers big-endian two's complement,
//! booleans one byte `0`/`1`, variable-length byte and string fields
//! length-prefixed with a non-negative 4-byte length, strings UTF-8.
//!
//! `spec_encode` is the canonical encoding at the view level;
//! `encode_command` is the exec encoder proved against it, total on
//! well-formed commands and refusing exactly the ill-formed ones.

use vstd::prelude::*;

use crate::be_bytes::{put_be128, put_be32, put_be64, spec_be128, spec_be32, spec_be64};

verus! {

/// Largest value a 4-byte non-negative (i32) length prefix can carry; also
/// the largest legal frame payload.
pub const WIRE_LEN_MAX: usize = 0x7fff_ffff;

pub const TYPE_HELLO: i32 = -127;
pub const TYPE_EVENT: i32 = 0;
pub const TYPE_SETUP_APPEND: i32 = 1;
pub const TYPE_APPEND_SETUP: i32 = 2;
pub const TYPE_APPEND_BLOCK_END: i32 = 4;
pub const TYPE_DATA_APPENDED: i32 = 7;
pub const TYPE_READ_SEGMENT: i32 = 9;
pub const TYPE_SEGMENT_READ: i32 = 10;
pub const TYPE_SEGMENT_IS_SEALED: i32 = 51;
pub const TYPE_NO_SUCH_SEGMENT: i32 = 53;
pub const TYPE_INVALID_EVENT_NUMBER: i32 = 55;
pub const TYPE_SEGMENT_IS_TRUNCATED: i32 = 56;
pub const TYPE_AUTH_TOKEN_CHECK_FAILED: i32 = 60;
pub const TYPE_UPDATE_TABLE_ENTRIES: i32 = 74;
pub const TYPE_TABLE_ENTRIES_UPDATED: i32 = 75;
pub const TYPE_TABLE_KEY_BAD_VERSION: i32 = 78;
pub const TYPE_READ_TABLE_ENTRIES_DELTA: i32 = 87;
pub const TYPE_TABLE_ENTRIES_DELTA_READ: i32 = 88;

/// Why a byte string was rejected by the decoder.
#[derive(Clone, Copy, Debug, PartialEq, Eq, Structural)]
pub enum DecodeError {
    /// The bytes end before the frame they began.
    TruncatedFrame,
    /// Unknown type code, negative length, bad boolean byte, malformed
    /// UTF-8 in a string field, or bytes left over after the last field.
    InvalidData,
}

/// One key-value mutation of a table segment. `key_version == -1` stands
/// for an unconditional update.
#[derive(Clone, Debug, PartialEq, Eq)]
pub struct TableEntry {
    pub key: Vec<u8>,
    pub key_version: i64,
    pub value: Vec<u8>,
}

/// Mathematical image of a `TableEntry`.
pub struct TableEntryView {
    pub key: Seq<u8>,
    pub key_version: i64,
    pub value: Seq<u8>,
}

impl View for TableEntry {
    type V = TableEntryView;

    open spec fn view(&self) -> TableEntryView {
        TableEntryView { key: self.key@, key_version: self.key_version, value: self.value@ }
    }
}

/// A typed message of the wire protocol. String-typed fields (`segment`,
/// `delegation_token`) are held as their UTF-8 bytes.
#[derive(Clone, Debug, PartialEq, Eq)]
pub enum WireCommand {
    Hello { high_version: i32, low_version: i32 },
    Event { data: Vec<u8> },
    SetupAppend { request_id: i64, writer_id: u128, segment: Vec<u8>, delegation_token: Vec<u8> },
    AppendSetup { request_id: i64, segment: Vec<u8>, writer_id: u128, last_event_number: i64 },
    AppendBlockEnd {
        writer_id: u128,
        size_of_whole_events: i32,
        data: Vec<u8>,
        num_events: i32,
        last_event_number: i64,
        request_id: i64,
    },
    DataAppended {
        writer_id: u128,
        event_number: i64,
        previous_event_number: i64,
        request_id: i64,
        current_segment_write_offset: i64,
    },
    ReadSegment {
        segment: Vec<u8>,
        offset: i64,
        suggested_length: i32,
        delegation_token: Vec<u8>,
        request_id: i64,
    },
    SegmentRead {
        segment: Vec<u8>,
        offset: i64,
        at_tail: bool,
        end_of_segment: bool,
        data: Vec<u8>,
        request_id: i64,
    },
    UpdateTableEntries {
        segment: Vec<u8>,
        delegation_token: Vec<u8>,
        table_entries: Vec<TableEntry>,
        request_id: i64,
    },
    TableEntriesUpdated { request_id: i64, updated_versions: Vec<i64> },
    ReadTableEntriesDelta {
        segment: Vec<u8>,
        delegation_token: Vec<u8>,
        from_position: i64,
        suggested_entry_count: i32,
        request_id: i64,
    },
    TableEntriesDeltaRead {
        request_id: i64,
        segment: Vec<u8>,
        entries: Vec<TableEntry>,
        should_clear: bool,
        reached_end: bool,
        last_position: i64,
    },
    SegmentIsSealed { request_id: i64, segment: Vec<u8>, offset: i64 },
    NoSuchSegment { request_id: i64, segment: Vec<u8>, offset: i64 },
    SegmentIsTruncated { request_id: i64, segment: Vec<u8>, start_offset: i64 },
    InvalidEventNumber { writer_id: u128, request_id: i64, event_number: i64 },
    TableKeyBadVersion { request_id: i64, segment: Vec<u8> },
    AuthTokenCheckFailed { request_id: i64 },
}

/// Mathematical image of a `WireCommand`: byte fields become sequences.
pub enum WireCommandView {
    Hello { high_version: i32, low_version: i32 },
    Event { data: Seq<u8> },
    SetupAppend { request_id: i64, writer_id: u128, segment: Seq<u8>, delegation_token: Seq<u8> },
    AppendSetup { request_id: i64, segment: Seq<u8>, writer_id: u128, last_event_number: i64 },
    AppendBlockEnd {
        writer_id: u128,
        size_of_whole_events: i32,
        data: Seq<u8>,
        num_events: i32,
        last_event_number: i64,
        request_id: i64,
    },
    DataAppended {
        writer_id: u128,
        event_number: i64,
        previous_event_number: i64,
        request_id: i64,
        current_segment_write_offset: i64,
    },
    ReadSegment {
        segment: Seq<u8>,
        offset: i64,
        suggested_length: i32,
        delegation_token: Seq<u8>,
        request_id: i64,
    },
    SegmentRead {
        segment: Seq<u8>,
        offset: i64,
        at_tail: bool,
        end_of_segment: bool,
        data: Seq<u8>,
        request_id: i64,
    },
    UpdateTableEntries {
        segment: Seq<u8>,
        delegation_token: Seq<u8>,
        table_entries: Seq<TableEntryView>,
        request_id: i64,
    },
    TableEntriesUpdated { request_id: i64, updated_versions: Seq<i64> },
    ReadTableEntriesDelta {
        segment: Seq<u8>,
        delegation_token: Seq<u8>,
        from_position: i64,
        suggested_entry_count: i32,
        request_id: i64,
    },
    TableEntriesDeltaRead {
        request_id: i64,
        segment: Seq<u8>,
        entries: Seq<TableEntryView>,
        should_clear: bool,
        reached_end: bool,
        last_position: i64,
    },
    SegmentIsSealed { request_id: i64, segment: Seq<u8>, offset: i64 },
    NoSuchSegment { request_id: i64, segment: Seq<u8>, offset: i64 },
    SegmentIsTruncated { request_id: i64, segment: Seq<u8>, start_offset: i64 },
    InvalidEventNumber { writer_id: u128, request_id: i64, event_number: i64 },
    TableKeyBadVersion { request_id: i64, segment: Seq<u8> },
    AuthTokenCheckFailed { request_id: i64 },
}

impl View for WireCommand {
    type V = WireCommandView;

    open spec fn view(&self) -> WireCommandView {
        match *self {
            WireCommand::Hello { high_version, low_version } => WireCommandView::Hello {
                high_version,
                low_version,
            },
            WireCommand::Event { ref data } => WireCommandView::Event { data: data@ },
            WireCommand::SetupAppend {
                request_id,
                writer_id,
                ref segment,
                ref delegation_token,
            } => WireCommandView::SetupAppend {
                request_id,
                writer_id,
                segment: segment@,
                delegation_token: delegation_token@,
            },
            WireCommand::AppendSetup {
                request_id,
                ref segment,
                writer_id,
                last_event_number,
            } => WireCommandView::AppendSetup {
                request_id,
                segment: segment@,
                writer_id,
                last_event_number,
            },
            WireCommand::AppendBlockEnd {
                writer_id,
                size_of_whole_events,
                ref data,
                num_events,
                last_event_number,
                request_id,
            } => WireCommandView::AppendBlockEnd {
                writer_id,
                size_of_whole_events,
                data: data@,
                num_events,
                last_event_number,
                request_id,
            },
            WireCommand::DataAppended {
                writer_id,
                event_number,
                previous_event_number,
                request_id,
                current_segment_write_offset,
            } => WireCommandView::DataAppended {
                writer_id,
                event_number,
                previous_event_number,
                request_id,
                current_segment_write_offset,
            },
            WireCommand::ReadSegment {
                ref segment,
                offset,
                suggested_length,
                ref delegation_token,
                request_id,
            } => WireCommandView::ReadSegment {
                segment: segment@,
                offset,
                suggested_length,
                delegation_token: delegation_token@,
                request_id,
            },
            WireCommand::SegmentRead {
                ref segment,
                offset,
                at_tail,
                end_of_segment,
                ref data,
                request_id,
            } => WireCommandView::SegmentRead {
                segment: segment@,
                offset,
                at_tail,
                end_of_segment,
                data: data@,
                request_id,
            },
            WireCommand::UpdateTableEntries {
                ref segment,
                ref delegation_token,
                ref table_entries,
                request_id,
            } => WireCommandView::UpdateTableEntries {
                segment: segment@,
                delegation_token: delegation_token@,
                table_entries: entries_view(table_entries@),
                request_id,
            },
            WireCommand::TableEntriesUpdated { request_id, ref updated_versions } => {
                WireCommandView::TableEntriesUpdated {
                    request_id,
                    updated_versions: updated_versions@,
                }
            },
            WireCommand::ReadTableEntriesDelta {
                ref segment,
                ref delegation_token,
                from_position,
                suggested_entry_count,
                request_id,
            } => WireCommandView::ReadTableEntriesDelta {
                segment: segment@,
                delegation_token: delegation_token@,
                from_position,
                suggested_entry_count,
                request_id,
            },
            WireCommand::TableEntriesDeltaRead {
                request_id,
                ref segment,
                ref entries,
                should_clear,
                reached_end,
                last_position,
            } => WireCommandView::TableEntriesDeltaRead {
                request_id,
                segment: segment@,
                entries: entries_view(entries@),
                should_clear,
                reached_end,
                last_position,
            },
            WireCommand::SegmentIsSealed { request_id, ref segment, offset } => {
                WireCommandView::SegmentIsSealed { request_id, segment: segment@, offset }
            },
            WireCommand::NoSuchSegment { request_id, ref segment, offset } => {
                WireCommandView::NoSuchSegment { request_id, segment: segment@, offset }
            },
            WireCommand::SegmentIsTruncated { request_id, ref segment, start_offset } => {
                WireCommandView::SegmentIsTruncated { request_id, segment: segment@, start_offset }
            },
            WireCommand::InvalidEventNumber { writer_id, request_id, event_number } => {
                WireCommandView::InvalidEventNumber { writer_id, request_id, event_number }
            },
            WireCommand::TableKeyBadVersion { request_id, ref segment } => {
                WireCommandView::TableKeyBadVersion { request_id, segment: segment@ }
            },
            WireCommand::AuthTokenCheckFailed { request_id } => {
                WireCommandView::AuthTokenCheckFailed { request_id }
            },
        }
    }
}

/// Whether the bytes are valid UTF-8; names the success of
/// `core::str::from_utf8`, which depends on the bytes alone.
pub uninterp spec fn utf8_ok(b: Seq<u8>) -> bool;

/// Relies on core::str::from_utf8: it returns `Ok` exactly on valid UTF-8,
/// a function of the bytes alone.
#[verifier::external_body]
pub(crate) fn utf8_check(b: &[u8]) -> (r: bool)
    ensures
        r == utf8_ok(b@),
{
    core::str::from_utf8(b).is_ok()
}

// ---------------------------------------------------------------------------
// Canonical field encodings at the spec level.
// ---------------------------------------------------------------------------
/// A 4-byte big-endian two's-complement `i32`.
pub open spec fn enc_i32(x: i32) -> Seq<u8> {
    spec_be32(x as u32)
}

/// An 8-byte big-endian two's-complement `i64`.
pub open spec fn enc_i64(x: i64) -> Seq<u8> {
    spec_be64(x as u64)
}

/// A 16-byte big-endian `u128` (writer ids).
pub open spec fn enc_u128(x: u128) -> Seq<u8> {
    spec_be128(x)
}

/// A boolean as one byte, `1` for true and `0` for false.
pub open spec fn enc_bool(b: bool) -> Seq<u8> {
    seq![if b { 1u8 } else { 0u8 }]
}

/// A variable-length field: 4-byte big-endian length, then the bytes.
pub open spec fn enc_var(b: Seq<u8>) -> Seq<u8>
    recommends
        b.len() <= WIRE_LEN_MAX,
{
    spec_be32(b.len() as u32) + b
}

/// One table entry: key, key version, value.
pub open spec fn enc_entry(e: TableEntryView) -> Seq<u8> {
    enc_var(e.key) + enc_i64(e.key_version) + enc_var(e.value)
}

/// The entries of a table update, back to back (the count travels ahead of
/// them).
pub open spec fn enc_entry_list(es: Seq<TableEntryView>) -> Seq<u8>
    decreases es.len(),
{
    if es.len() == 0 {
        Seq::empty()
    } else {
        enc_entry(es.first()) + enc_entry_list(es.drop_first())
    }
}

/// The versions of a table-update reply, back to back.
pub open spec fn enc_version_list(vs: Seq<i64>) -> Seq<u8>
    decreases vs.len(),
{
    if vs.len() == 0 {
        Seq::empty()
    } else {
        enc_i64(vs.first()) + enc_version_list(vs.drop_first())
    }
}

// ---------------------------------------------------------------------------
// Well-formedness: exactly the commands the wire can carry.
// ---------------------------------------------------------------------------
/// A variable-length byte field must fit its non-negative 4-byte length
/// prefix.
pub open spec fn wf_var(b: Seq<u8>) -> bool {
    b.len() <= WIRE_LEN_MAX
}

/// A table entry's key and value must each fit their prefixes.
pub open spec fn wf_entry(e: TableEntryView) -> bool {
    wf_var(e.key) && wf_var(e.value)
}

pub open spec fn wf_entry_list(es: Seq<TableEntryView>) -> bool {
    es.len() <= WIRE_LEN_MAX && forall|i: int| 0 <= i < es.len() ==> wf_entry(#[trigger] es[i])
}

/// Every variable-length field (and list count) fits its 4-byte prefix.
pub open spec fn fields_fit(m: WireCommandView) -> bool {
    match m {
        WireCommandView::Hello { .. } => true,
        WireCommandView::Event { data } => wf_var(data),
        WireCommandView::SetupAppend { segment, delegation_token, .. } => wf_var(segment)
            && wf_var(delegation_token),
        WireCommandView::AppendSetup { segment, .. } => wf_var(segment),
        WireCommandView::AppendBlockEnd { data, .. } => wf_var(data),
        WireCommandView::DataAppended { .. } => true,
        WireCommandView::ReadSegment { segment, delegation_token, .. } => wf_var(segment)
            && wf_var(delegation_token),
        WireCommandView::SegmentRead { segment, data, .. } => wf_var(segment) && wf_var(data),
        WireCommandView::UpdateTableEntries { segment, delegation_token, table_entries, .. } => {
            wf_var(segment) && wf_var(delegation_token) && wf_entry_list(table_entries)
        },
        WireCommandView::TableEntriesUpdated { updated_versions, .. } => updated_versions.len()
            <= WIRE_LEN_MAX,
        WireCommandView::ReadTableEntriesDelta { segment, delegation_token, .. } => wf_var(segment)
            && wf_var(delegation_token),
        WireCommandView::TableEntriesDeltaRead { segment, entries, .. } => wf_var(segment)
            && wf_entry_list(entries),
        WireCommandView::SegmentIsSealed { segment, .. } => wf_var(segment),
        WireCommandView::NoSuchSegment { segment, .. } => wf_var(segment),
        WireCommandView::SegmentIsTruncated { segment, .. } => wf_var(segment),
        WireCommandView::InvalidEventNumber { .. } => true,
        WireCommandView::TableKeyBadVersion { segment, .. } => wf_var(segment),
        WireCommandView::AuthTokenCheckFailed { .. } => true,
    }
}

/// Every string-typed field of the command is valid UTF-8.
pub open spec fn strings_utf8(m: WireCommandView) -> bool {
    match m {
        WireCommandView::SetupAppend { segment, delegation_token, .. } => utf8_ok(segment)
            && utf8_ok(delegation_token),
        WireCommandView::AppendSetup { segment, .. } => utf8_ok(segment),
        WireCommandView::ReadSegment { segment, delegation_token, .. } => utf8_ok(segment)
            && utf8_ok(delegation_token),
        WireCommandView::SegmentRead { segment, .. } => utf8_ok(segment),
        WireCommandView::UpdateTableEntries { segment, delegation_token, .. } => utf8_ok(segment)
            && utf8_ok(delegation_token),
        WireCommandView::ReadTableEntriesDelta { segment, delegation_token, .. } => utf8_ok(
            segment,
        ) && utf8_ok(delegation_token),
        WireCommandView::TableEntriesDeltaRead { segment, .. } => utf8_ok(segment),
        WireCommandView::SegmentIsSealed { segment, .. } => utf8_ok(segment),
        WireCommandView::NoSuchSegment { segment, .. } => utf8_ok(segment),
        WireCommandView::SegmentIsTruncated { segment, .. } => utf8_ok(segment),
        WireCommandView::TableKeyBadVersion { segment, .. } => utf8_ok(segment),
        _ => true,
    }
}

/// A legal wire command: every length fits its prefix, string fields are
/// UTF-8, and the whole payload fits one frame.
pub open spec fn wf_command(m: WireCommandView) -> bool {
    fields_fit(m) && strings_utf8(m) && spec_payload(m).len() <= WIRE_LEN_MAX
}

// ---------------------------------------------------------------------------
// Canonical payload and frame encodings.
// ---------------------------------------------------------------------------
/// The type code of the command.
pub open spec fn spec_code(m: WireCommandView) -> i32 {
    match m {
        WireCommandView::Hello { .. } => TYPE_HELLO,
        WireCommandView::Event { .. } => TYPE_EVENT,
        WireCommandView::SetupAppend { .. } => TYPE_SETUP_APPEND,
        WireCommandView::AppendSetup { .. } => TYPE_APPEND_SETUP,
        WireCommandView::AppendBlockEnd { .. } => TYPE_APPEND_BLOCK_END,
        WireCommandView::DataAppended { .. } => TYPE_DATA_APPENDED,
        WireCommandView::ReadSegment { .. } => TYPE_READ_SEGMENT,
        WireCommandView::SegmentRead { .. } => TYPE_SEGMENT_READ,
        WireCommandView::UpdateTableEntries { .. } => TYPE_UPDATE_TABLE_ENTRIES,
        WireCommandView::TableEntriesUpdated { .. } => TYPE_TABLE_ENTRIES_UPDATED,
        WireCommandView::ReadTableEntriesDelta { .. } => TYPE_READ_TABLE_ENTRIES_DELTA,
        WireCommandView::TableEntriesDeltaRead { .. } => TYPE_TABLE_ENTRIES_DELTA_READ,
        WireCommandView::SegmentIsSealed { .. } => TYPE_SEGMENT_IS_SEALED,
        WireCommandView::NoSuchSegment { .. } => TYPE_NO_SUCH_SEGMENT,
        WireCommandView::SegmentIsTruncated { .. } => TYPE_SEGMENT_IS_TRUNCATED,
        WireCommandView::InvalidEventNumber { .. } => TYPE_INVALID_EVENT_NUMBER,
        WireCommandView::TableKeyBadVersion { .. } => TYPE_TABLE_KEY_BAD_VERSION,
        WireCommandView::AuthTokenCheckFailed { .. } => TYPE_AUTH_TOKEN_CHECK_FAILED,
    }
}

/// The canonical payload: the command's fields, in order.
pub open spec fn spec_payload(m: WireCommandView) -> Seq<u8> {
    match m {
        WireCommandView::Hello { high_version, low_version } => enc_i32(high_version) + enc_i32(
            low_version,
        ),
        WireCommandView::Event { data } => data,
        WireCommandView::SetupAppend { request_id, writer_id, segment, delegation_token } => {
            enc_i64(request_id) + enc_u128(writer_id) + enc_var(segment) + enc_var(delegation_token)
        },
        WireCommandView::AppendSetup { request_id, segment, writer_id, last_event_number } => {
            enc_i64(request_id) + enc_var(segment) + enc_u128(writer_id) + enc_i64(
                last_event_number,
            )
        },
        WireCommandView::AppendBlockEnd {
            writer_id,
            size_of_whole_events,
            data,
            num_events,
            last_event_number,
            request_id,
        } => {
            enc_u128(writer_id) + enc_i32(size_of_whole_events) + enc_var(data) + enc_i32(
                num_events,
            ) + enc_i64(last_event_number) + enc_i64(request_id)
        },
        WireCommandView::DataAppended {
            writer_id,
            event_number,
            previous_event_number,
            request_id,
            current_segment_write_offset,
        } => {
            enc_u128(writer_id) + enc_i64(event_number) + enc_i64(previous_event_number) + enc_i64(
                request_id,
            ) + enc_i64(current_segment_write_offset)
        },
        WireCommandView::ReadSegment {
            segment,
            offset,
            suggested_length,
            delegation_token,
            request_id,
        } => {
            enc_var(segment) + enc_i64(offset) + enc_i32(suggested_length) + enc_var(
                delegation_token,
            ) + enc_i64(request_id)
        },
        WireCommandView::SegmentRead {
            segment,
            offset,
            at_tail,
            end_of_segment,
            data,
            request_id,
        } => {
            enc_var(segment) + enc_i64(offset) + enc_bool(at_tail) + enc_bool(end_of_segment)
                + enc_var(data) + enc_i64(request_id)
        },
        WireCommandView::UpdateTableEntries {
            segment,
            delegation_token,
            table_entries,
            request_id,
        } => {
            enc_var(segment) + enc_var(delegation_token) + enc_i32(table_entries.len() as i32)
                + enc_entry_list(table_entries) + enc_i64(request_id)
        },
        WireCommandView::TableEntriesUpdated { request_id, updated_versions } => {
            enc_i64(request_id) + enc_i32(updated_versions.len() as i32) + enc_version_list(
                updated_versions,
            )
        },
        WireCommandView::ReadTableEntriesDelta {
            segment,
            delegation_token,
            from_position,
            suggested_entry_count,
            request_id,
        } => {
            enc_var(segment) + enc_var(delegation_token) + enc_i64(from_position) + enc_i32(
                suggested_entry_count,
            ) + enc_i64(request_id)
        },
        WireCommandView::TableEntriesDeltaRead {
            request_id,
            segment,
            entries,
            should_clear,
            reached_end,
            last_position,
        } => {
            enc_i64(request_id) + enc_var(segment) + enc_i32(entries.len() as i32) + enc_entry_list(
                entries,
            ) + enc_bool(should_clear) + enc_bool(reached_end) + enc_i64(last_position)
        },
        WireCommandView::SegmentIsSealed { request_id, segment, offset } => enc_i64(request_id)
            + enc_var(segment) + enc_i64(offset),
        WireCommandView::NoSuchSegment { request_id, segment, offset } => enc_i64(request_id)
            + enc_var(segment) + enc_i64(offset),
        WireCommandView::SegmentIsTruncated { request_id, segment, start_offset } => enc_i64(
            request_id,
        ) + enc_var(segment) + enc_i64(start_offset),
        WireCommandView::InvalidEventNumber { writer_id, request_id, event_number } => enc_u128(
            writer_id,
        ) + enc_i64(request_id) + enc_i64(event_number),
        WireCommandView::TableKeyBadVersion { request_id, segment } => enc_i64(request_id)
            + enc_var(segment),
        WireCommandView::AuthTokenCheckFailed { request_id } => enc_i64(request_id),
    }
}

/// The canonical frame: type code, payload length, payload. The encoding is
/// a function of the command's value alone.
pub open spec fn spec_encode(m: WireCommandView) -> Seq<u8>
    recommends
        wf_command(m),
{
    enc_i32(spec_code(m)) + spec_be32(spec_payload(m).len() as u32) + spec_payload(m)
}

// ---------------------------------------------------------------------------
// Exec writers, proved against the canonical encodings.
// ---------------------------------------------------------------------------
fn put_slice(out: &mut Vec<u8>, s: &[u8])
    ensures
        final(out)@ == old(out)@ + s@,
{
    let n = s.len();
    let mut k: usize = 0;
    while k < n
        invariant
            k <= n,
            n == s@.len(),
            out@ == old(out)@ + s@.subrange(0, k as int),
        decreases n - k,
    {
        let b = s[k];
        out.push(b);
        k = k + 1;
        assert(out@ =~= old(out)@ + s@.subrange(0, k as int));
    }
    assert(out@ =~= old(out)@ + s@);
}

fn put_i32(out: &mut Vec<u8>, x: i32)
    ensures
        final(out)@ == old(out)@ + enc_i32(x),
{
    put_be32(out, x as u32);
}

fn put_i64(out: &mut Vec<u8>, x: i64)
    ensures
        final(out)@ == old(out)@ + enc_i64(x),
{
    put_be64(out, x as u64);
}

fn put_u128(out: &mut Vec<u8>, x: u128)
    ensures
        final(out)@ == old(out)@ + enc_u128(x),
{
    put_be128(out, x);
}

fn put_bool(out: &mut Vec<u8>, b: bool)
    ensures
        final(out)@ == old(out)@ + enc_bool(b),
{
    out.push(if b { 1u8 } else { 0u8 });
    assert(out@ =~= old(out)@ + enc_bool(b));
}

fn put_var(out: &mut Vec<u8>, b: &Vec<u8>)
    requires
        b@.len() <= WIRE_LEN_MAX,
    ensures
        final(out)@ == old(out)@ + enc_var(b@),
{
    put_be32(out, b.len() as u32);
    put_slice(out, b.as_slice());
    assert(out@ =~= old(out)@ + enc_var(b@));
}

fn put_entry(out: &mut Vec<u8>, e: &TableEntry)
    requires
        wf_entry(e@),
    ensures
        final(out)@ == old(out)@ + enc_entry(e@),
{
    put_var(out, &e.key);
    put_i64(out, e.key_version);
    put_var(out, &e.value);
    assert(out@ =~= old(out)@ + enc_entry(e@));
}

/// Appending one entry to a list appends its encoding to the list's.
proof fn lemma_enc_entry_list_snoc(es: Seq<TableEntryView>, e: TableEntryView)
    ensures
        enc_entry_list(es.push(e)) == enc_entry_list(es) + enc_entry(e),
    decreases es.len(),
{
    if es.len() == 0 {
        assert(enc_entry_list(Seq::<TableEntryView>::empty()) == Seq::<u8>::empty());
        assert(es =~= Seq::<TableEntryView>::empty());
        assert(es.push(e).drop_first() =~= Seq::<TableEntryView>::empty());
        assert(es.push(e).first() == e);
        assert(enc_entry_list(es.push(e)) == enc_entry(e) + enc_entry_list(
            es.push(e).drop_first(),
        ));
        assert(enc_entry_list(es.push(e)) =~= enc_entry_list(es) + enc_entry(e));
    } else {
        lemma_enc_entry_list_snoc(es.drop_first(), e);
        assert(es.push(e).drop_first() =~= es.drop_first().push(e));
        assert(es.push(e).first() == es.first());
        assert(enc_entry_list(es.push(e)) == enc_entry(es.first()) + enc_entry_list(
            es.drop_first().push(e),
        ));
        assert(enc_entry_list(es) == enc_entry(es.first()) + enc_entry_list(es.drop_first()));
        assert(enc_entry_list(es.push(e)) =~= enc_entry_list(es) + enc_entry(e));
    }
}

/// Appending one version to a list appends its encoding to the list's.
proof fn lemma_enc_version_list_snoc(vs: Seq<i64>, v: i64)
    ensures
        enc_version_list(vs.push(v)) == enc_version_list(vs) + enc_i64(v),
    decreases vs.len(),
{
    if vs.len() == 0 {
        assert(enc_version_list(Seq::<i64>::empty()) == Seq::<u8>::empty());
        assert(vs =~= Seq::<i64>::empty());
        assert(vs.push(v).drop_first() =~= Seq::<i64>::empty());
        assert(vs.push(v).first() == v);
        assert(enc_version_list(vs.push(v)) == enc_i64(v) + enc_version_list(
            vs.push(v).drop_first(),
        ));
        assert(enc_version_list(vs.push(v)) =~= enc_version_list(vs) + enc_i64(v));
    } else {
        lemma_enc_version_list_snoc(vs.drop_first(), v);
        assert(vs.push(v).drop_first() =~= vs.drop_first().push(v));
        assert(vs.push(v).first() == vs.first());
        assert(enc_version_list(vs.push(v)) == enc_i64(vs.first()) + enc_version_list(
            vs.drop_first().push(v),
        ));
        assert(enc_version_list(vs) == enc_i64(vs.first()) + enc_version_list(vs.drop_first()));
        assert(enc_version_list(vs.push(v)) =~= enc_version_list(vs) + enc_i64(v));
    }
}

/// The view of a vector of entries.
pub open spec fn entries_view(es: Seq<TableEntry>) -> Seq<TableEntryView> {
    es.map_values(|e: TableEntry| e@)
}

fn put_entry_list(out: &mut Vec<u8>, es: &Vec<TableEntry>)
    requires
        forall|i: int| 0 <= i < es@.len() ==> wf_entry(#[trigger] entries_view(es@)[i]),
    ensures
        final(out)@ == old(out)@ + enc_entry_list(entries_view(es@)),
{
    let ghost ev = entries_view(es@);
    let n = es.len();
    let mut k: usize = 0;
    while k < n
        invariant
            k <= n,
            n == es@.len(),
            ev == entries_view(es@),
            forall|i: int| 0 <= i < es@.len() ==> wf_entry(#[trigger] ev[i]),
            out@ == old(out)@ + enc_entry_list(ev.take(k as int)),
        decreases n - k,
    {
        assert(ev[k as int] == es@[k as int]@);
        put_entry(out, &es[k]);
        proof {
            lemma_enc_entry_list_snoc(ev.take(k as int), ev[k as int]);
            assert(ev.take(k as int + 1) =~= ev.take(k as int).push(ev[k as int]));
            assert(out@ =~= old(out)@ + enc_entry_list(ev.take(k as int + 1)));
        }
        k = k + 1;
    }
    assert(ev.take(n as int) =~= ev);
}

fn put_version_list(out: &mut Vec<u8>, vs: &Vec<i64>)
    ensures
        final(out)@ == old(out)@ + enc_version_list(vs@),
{
    let n = vs.len();
    let mut k: usize = 0;
    while k < n
        invariant
            k <= n,
            n == vs@.len(),
            out@ == old(out)@ + enc_version_list(vs@.take(k as int)),
        decreases n - k,
    {
        put_i64(out, vs[k]);
        proof {
            lemma_enc_version_list_snoc(vs@.take(k as int), vs@[k as int]);
            assert(vs@.take(k as int + 1) =~= vs@.take(k as int).push(vs@[k as int]));
            assert(out@ =~= old(out)@ + enc_version_list(vs@.take(k as int + 1)));
        }
        k = k + 1;
    }
    assert(vs@.take(n as int) =~= vs@);
}

/// Whether every variable-length field of `m` fits its 4-byte prefix.
fn check_fields_fit(m: &WireCommand) -> (r: bool)
    ensures
        r == fields_fit(m@),
{
    match m {
        WireCommand::Hello { .. } => true,
        WireCommand::Event { data } => data.len() <= WIRE_LEN_MAX,
        WireCommand::SetupAppend { segment, delegation_token, .. } => segment.len()
            <= WIRE_LEN_MAX && delegation_token.len() <= WIRE_LEN_MAX,
        WireCommand::AppendSetup { segment, .. } => segment.len() <= WIRE_LEN_MAX,
        WireCommand::AppendBlockEnd { data, .. } => data.len() <= WIRE_LEN_MAX,
        WireCommand::DataAppended { .. } => true,
        WireCommand::ReadSegment { segment, delegation_token, .. } => segment.len()
            <= WIRE_LEN_MAX && delegation_token.len() <= WIRE_LEN_MAX,
        WireCommand::SegmentRead { segment, data, .. } => segment.len() <= WIRE_LEN_MAX
            && data.len() <= WIRE_LEN_MAX,
        WireCommand::UpdateTableEntries { segment, delegation_token, table_entries, .. } => {
            segment.len() <= WIRE_LEN_MAX && delegation_token.len() <= WIRE_LEN_MAX
                && check_entry_list(table_entries)
        },
        WireCommand::TableEntriesUpdated { updated_versions, .. } => updated_versions.len()
            <= WIRE_LEN_MAX,
        WireCommand::ReadTableEntriesDelta { segment, delegation_token, .. } => segment.len()
            <= WIRE_LEN_MAX && delegation_token.len() <= WIRE_LEN_MAX,
        WireCommand::TableEntriesDeltaRead { segment, entries, .. } => segment.len()
            <= WIRE_LEN_MAX && check_entry_list(entries),
        WireCommand::SegmentIsSealed { segment, .. } => segment.len() <= WIRE_LEN_MAX,
        WireCommand::NoSuchSegment { segment, .. } => segment.len() <= WIRE_LEN_MAX,
        WireCommand::SegmentIsTruncated { segment, .. } => segment.len() <= WIRE_LEN_MAX,
        WireCommand::InvalidEventNumber { .. } => true,
        WireCommand::TableKeyBadVersion { segment, .. } => segment.len() <= WIRE_LEN_MAX,
        WireCommand::AuthTokenCheckFailed { .. } => true,
    }
}

fn check_entry_list(es: &Vec<TableEntry>) -> (r: bool)
    ensures
        r == wf_entry_list(entries_view(es@)),
{
    let ghost ev = entries_view(es@);
    if es.len() > WIRE_LEN_MAX {
        return false;
    }
    let n = es.len();
    let mut k: usize = 0;
    while k < n
        invariant
            k <= n,
            n == es@.len(),
            n <= WIRE_LEN_MAX,
            ev == entries_view(es@),
            forall|i: int| 0 <= i < k ==> wf_entry(#[trigger] ev[i]),
        decreases n - k,
    {
        let fit = es[k].key.len() <= WIRE_LEN_MAX && es[k].value.len() <= WIRE_LEN_MAX;
        if !fit {
            assert(!wf_entry(ev[k as int]));
            return false;
        }
        assert(wf_entry(ev[k as int]));
        k = k + 1;
    }
    true
}

/// Whether every string-typed field of `m` is valid UTF-8.
fn check_strings_utf8(m: &WireCommand) -> (r: bool)
    ensures
        r == strings_utf8(m@),
{
    match m {
        WireCommand::SetupAppend { segment, delegation_token, .. } => utf8_check(
            segment.as_slice(),
        ) && utf8_check(delegation_token.as_slice()),
        WireCommand::AppendSetup { segment, .. } => utf8_check(segment.as_slice()),
        WireCommand::ReadSegment { segment, delegation_token, .. } => utf8_check(
            segment.as_slice(),
        ) && utf8_check(delegation_token.as_slice()),
        WireCommand::SegmentRead { segment, .. } => utf8_check(segment.as_slice()),
        WireCommand::UpdateTableEntries { segment, delegation_token, .. } => utf8_check(
            segment.as_slice(),
        ) && utf8_check(delegation_token.as_slice()),
        WireCommand::ReadTableEntriesDelta { segment, delegation_token, .. } => utf8_check(
            segment.as_slice(),
        ) && utf8_check(delegation_token.as_slice()),
        WireCommand::TableEntriesDeltaRead { segment, .. } => utf8_check(segment.as_slice()),
        WireCommand::SegmentIsSealed { segment, .. } => utf8_check(segment.as_slice()),
        WireCommand::NoSuchSegment { segment, .. } => utf8_check(segment.as_slice()),
        WireCommand::SegmentIsTruncated { segment, .. } => utf8_check(segment.as_slice()),
        WireCommand::TableKeyBadVersion { segment, .. } => utf8_check(segment.as_slice()),
        _ => true,
    }
}

/// Writes the canonical payload of `m`.
#[verifier::rlimit(100)]
#[verifier::spinoff_prover]
fn encode_payload(m: &WireCommand, out: &mut Vec<u8>)
    requires
        fields_fit(m@),
    ensures
        final(out)@ == old(out)@ + spec_payload(m@),
{
    match m {
        WireCommand::Hello { high_version, low_version } => {
            put_i32(out, *high_version);
            put_i32(out, *low_version);
        },
        WireCommand::Event { data } => {
            put_slice(out, data.as_slice());
        },
        WireCommand::SetupAppend { request_id, writer_id, segment, delegation_token } => {
            put_i64(out, *request_id);
            put_u128(out, *writer_id);
            put_var(out, segment);
            put_var(out, delegation_token);
        },
        WireCommand::AppendSetup { request_id, segment, writer_id, last_event_number } => {
            put_i64(out, *request_id);
            put_var(out, segment);
            put_u128(out, *writer_id);
            put_i64(out, *last_event_number);
        },
        WireCommand::AppendBlockEnd {
            writer_id,
            size_of_whole_events,
            data,
            num_events,
            last_event_number,
            request_id,
        } => {
            put_u128(out, *writer_id);
            put_i32(out, *size_of_whole_events);
            put_var(out, data);
            put_i32(out, *num_events);
            put_i64(out, *last_event_number);
            put_i64(out, *request_id);
        },
        WireCommand::DataAppended {
            writer_id,
            event_number,
            previous_event_number,
            request_id,
            current_segment_write_offset,
        } => {
            put_u128(out, *writer_id);
            put_i64(out, *event_number);
            put_i64(out, *previous_event_number);
            put_i64(out, *request_id);
            put_i64(out, *current_segment_write_offset);
        },
        WireCommand::ReadSegment {
            segment,
            offset,
            suggested_length,
            delegation_token,
            request_id,
        } => {
            put_var(out, segment);
            put_i64(out, *offset);
            put_i32(out, *suggested_length);
            put_var(out, delegation_token);
            put_i64(out, *request_id);
        },
        WireCommand::SegmentRead {
            segment,
            offset,
            at_tail,
            end_of_segment,
            data,
            request_id,
        } => {
            put_var(out, segment);
            put_i64(out, *offset);
            put_bool(out, *at_tail);
            put_bool(out, *end_of_segment);
            put_var(out, data);
            put_i64(out, *request_id);
        },
        WireCommand::UpdateTableEntries {
            segment,
            delegation_token,
            table_entries,
            request_id,
        } => {
            put_var(out, segment);
            put_var(out, delegation_token);
            put_i32(out, table_entries.len() as i32);
            put_entry_list(out, table_entries);
            put_i64(out, *request_id);
        },
        WireCommand::TableEntriesUpdated { request_id, updated_versions } => {
            put_i64(out, *request_id);
            put_i32(out, updated_versions.len() as i32);
            put_version_list(out, updated_versions);
        },
        WireCommand::ReadTableEntriesDelta {
            segment,
            delegation_token,
            from_position,
            suggested_entry_count,
            request_id,
        } => {
            put_var(out, segment);
            put_var(out, delegation_token);
            put_i64(out, *from_position);
            put_i32(out, *suggested_entry_count);
            put_i64(out, *request_id);
        },
        WireCommand::TableEntriesDeltaRead {
            request_id,
            segment,
            entries,
            should_clear,
            reached_end,
            last_position,
        } => {
            put_i64(out, *request_id);
            put_var(out, segment);
            put_i32(out, entries.len() as i32);
            put_entry_list(out, entries);
            put_bool(out, *should_clear);
            put_bool(out, *reached_end);
            put_i64(out, *last_position);
        },
        WireCommand::SegmentIsSealed { request_id, segment, offset } => {
            put_i64(out, *request_id);
            put_var(out, segment);
            put_i64(out, *offset);
        },
        WireCommand::NoSuchSegment { request_id, segment, offset } => {
            put_i64(out, *request_id);
            put_var(out, segment);
            put_i64(out, *offset);
        },
        WireCommand::SegmentIsTruncated { request_id, segment, start_offset } => {
            put_i64(out, *request_id);
            put_var(out, segment);
            put_i64(out, *start_offset);
        },
        WireCommand::InvalidEventNumber { writer_id, request_id, event_number } => {
            put_u128(out, *writer_id);
            put_i64(out, *request_id);
            put_i64(out, *event_number);
        },
        WireCommand::TableKeyBadVersion { request_id, segment } => {
            put_i64(out, *request_id);
            put_var(out, segment);
        },
        WireCommand::AuthTokenCheckFailed { request_id } => {
            put_i64(out, *request_id);
        },
    }
    assert(out@ =~= old(out)@ + spec_payload(m@));
}

/// Encodes `m` as one frame. Returns the frame's bytes exactly when `m` is
/// well formed — in particular whenever the payload would not exceed
/// `WIRE_LEN_MAX` — and `None` otherwise. The bytes are a function of `m`'s
/// value alone.
pub fn encode_command(m: &WireCommand) -> (r: Option<Vec<u8>>)
    ensures
        r matches Some(v) ==> wf_command(m@) && v@ == spec_encode(m@),
        r is None ==> !wf_command(m@),
{
    if !check_fields_fit(m) {
        return None;
    }
    if !check_strings_utf8(m) {
        return None;
    }
    let mut payload: Vec<u8> = Vec::new();
    encode_payload(m, &mut payload);
    assert(payload@ =~= spec_payload(m@));
    if payload.len() > WIRE_LEN_MAX {
        return None;
    }
    let mut out: Vec<u8> = Vec::new();
    put_i32(&mut out, code_of(m));
    put_be32(&mut out, payload.len() as u32);
    put_slice(&mut out, payload.as_slice());
    assert(out@ =~= spec_encode(m@));
    Some(out)
}

/// The type code of the command.
pub fn code_of(m: &WireCommand) -> (c: i32)
    ensures
        c == spec_code(m@),
{
    match m {
        WireCommand::Hello { .. } => TYPE_HELLO,
        WireCommand::Event { .. } => TYPE_EVENT,
        WireCommand::SetupAppend { .. } => TYPE_SETUP_APPEND,
        WireCommand::AppendSetup { .. } => TYPE_APPEND_SETUP,
        WireCommand::AppendBlockEnd { .. } => TYPE_APPEND_BLOCK_END,
        WireCommand::DataAppended { .. } => TYPE_DATA_APPENDED,
        WireCommand::ReadSegment { .. } => TYPE_READ_SEGMENT,
        WireCommand::SegmentRead { .. } => TYPE_SEGMENT_READ,
        WireCommand::UpdateTableEntries { .. } => TYPE_UPDATE_TABLE_ENTRIES,
        WireCommand::TableEntriesUpdated { .. } => TYPE_TABLE_ENTRIES_UPDATED,
        WireCommand::ReadTableEntriesDelta { .. } => TYPE_READ_TABLE_ENTRIES_DELTA,
        WireCommand::TableEntriesDeltaRead { .. } => TYPE_TABLE_ENTRIES_DELTA_READ,
        WireCommand::SegmentIsSealed { .. } => TYPE_SEGMENT_IS_SEALED,
        WireCommand::NoSuchSegment { .. } => TYPE_NO_SUCH_SEGMENT,
        WireCommand::SegmentIsTruncated { .. } => TYPE_SEGMENT_IS_TRUNCATED,
        WireCommand::InvalidEventNumber { .. } => TYPE_INVALID_EVENT_NUMBER,
        WireCommand::TableKeyBadVersion { .. } => TYPE_TABLE_KEY_BAD_VERSION,
        WireCommand::AuthTokenCheckFailed { .. } => TYPE_AUTH_TOKEN_CHECK_FAILED,
    }
}

} // verus!
