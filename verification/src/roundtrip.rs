//! The codec round-trip law: decoding the canonical encoding of any
//! well-formed command yields that command again.

use vstd::prelude::*;

use crate::be_bytes::{lemma_be128_round_trip, lemma_be32_round_trip, lemma_be64_round_trip,
    lemma_i32_as_u32_round_trip, lemma_i64_as_u64_round_trip, spec_be32};
use crate::commands::{enc_bool, enc_entry, enc_entry_list, enc_i32, enc_i64, enc_u128, enc_var,
    enc_version_list, spec_code, spec_encode, spec_payload, utf8_ok, wf_command, wf_entry,
    DecodeError, TableEntryView, WireCommandView, WIRE_LEN_MAX};
use crate::decode::{sp_bool, sp_entry, sp_entry_list, sp_i32, sp_i64, sp_rid_seg_off, sp_str,
    sp_table_entries_delta_read, sp_u128, sp_var, sp_version_list, spec_decode,
    spec_decode_payload};

verus! {

proof fn lemma_sp_i32_at(s: Seq<u8>, i: int, x: i32)
    requires
        0 <= i,
        i + 4 <= s.len(),
        s.subrange(i, i + 4) == enc_i32(x),
    ensures
        sp_i32(s, i) == Some((x, i + 4)),
{
    lemma_be32_round_trip(x as u32);
    lemma_i32_as_u32_round_trip(x);
}

proof fn lemma_sp_i64_at(s: Seq<u8>, i: int, x: i64)
    requires
        0 <= i,
        i + 8 <= s.len(),
        s.subrange(i, i + 8) == enc_i64(x),
    ensures
        sp_i64(s, i) == Some((x, i + 8)),
{
    lemma_be64_round_trip(x as u64);
    lemma_i64_as_u64_round_trip(x);
}

proof fn lemma_sp_u128_at(s: Seq<u8>, i: int, x: u128)
    requires
        0 <= i,
        i + 16 <= s.len(),
        s.subrange(i, i + 16) == enc_u128(x),
    ensures
        sp_u128(s, i) == Some((x, i + 16)),
{
    lemma_be128_round_trip(x);
}

proof fn lemma_sp_bool_at(s: Seq<u8>, i: int, b: bool)
    requires
        0 <= i,
        i + 1 <= s.len(),
        s.subrange(i, i + 1) == enc_bool(b),
    ensures
        sp_bool(s, i) == Some((b, i + 1)),
{
    assert(s[i] == enc_bool(b)[0]);
}

proof fn lemma_sp_var_at(s: Seq<u8>, i: int, b: Seq<u8>)
    requires
        0 <= i,
        b.len() <= WIRE_LEN_MAX,
        i + 4 + b.len() <= s.len(),
        s.subrange(i, i + 4 + b.len()) == enc_var(b),
    ensures
        sp_var(s, i) == Some((b, i + 4 + b.len())),
{
    let n32 = b.len() as u32;
    assert(s.subrange(i, i + 4) =~= enc_var(b).subrange(0, 4));
    assert(enc_var(b).subrange(0, 4) =~= spec_be32(n32));
    lemma_be32_round_trip(n32);
    let n = n32 as i32;
    assert(n >= 0 && n == b.len()) by {
        assert(n32 <= 0x7fff_ffff);
        assert(n32 <= 0x7fff_ffff ==> (n32 as i32) >= 0 && (n32 as i32) == n32) by (bit_vector);
    }
    assert(sp_i32(s, i) == Some((n, i + 4)));
    assert(s.subrange(i + 4, i + 4 + b.len()) =~= enc_var(b).subrange(4, 4 + b.len() as int));
    assert(enc_var(b).subrange(4, 4 + b.len() as int) =~= b);
}

proof fn lemma_sp_str_at(s: Seq<u8>, i: int, b: Seq<u8>)
    requires
        0 <= i,
        b.len() <= WIRE_LEN_MAX,
        utf8_ok(b),
        i + 4 + b.len() <= s.len(),
        s.subrange(i, i + 4 + b.len()) == enc_var(b),
    ensures
        sp_str(s, i) == Some((b, i + 4 + b.len())),
{
    lemma_sp_var_at(s, i, b);
}

proof fn lemma_sp_entry_at(s: Seq<u8>, i: int, e: TableEntryView)
    requires
        0 <= i,
        wf_entry(e),
        i + enc_entry(e).len() <= s.len(),
        s.subrange(i, i + enc_entry(e).len()) == enc_entry(e),
    ensures
        sp_entry(s, i) == Some((e, i + enc_entry(e).len())),
        enc_entry(e).len() == 16 + e.key.len() + e.value.len(),
{
    let lk = 4 + e.key.len() as int;
    let lv = 8int;
    let lz = 4 + e.value.len() as int;
    let lt = enc_entry(e).len() as int;
    assert(lt == lk + lv + lz);
    assert forall|k: int| i <= k < i + lt implies #[trigger] s[k] == enc_entry(e)[k - i] by {
        assert(s.subrange(i, i + lt)[k - i] == s[k]);
    }
    assert(s.subrange(i, i + lk) =~= enc_var(e.key));
    lemma_sp_var_at(s, i, e.key);
    assert(s.subrange(i + lk, i + lk + lv) =~= enc_i64(e.key_version));
    lemma_sp_i64_at(s, i + lk, e.key_version);
    assert(s.subrange(i + lk + lv, i + lk + lv + lz) =~= enc_var(e.value));
    lemma_sp_var_at(s, i + lk + lv, e.value);
}

#[verifier::rlimit(100)]
#[verifier::spinoff_prover]
proof fn lemma_sp_entry_list_at(s: Seq<u8>, i: int, es: Seq<TableEntryView>)
    requires
        0 <= i,
        forall|k: int| 0 <= k < es.len() ==> wf_entry(#[trigger] es[k]),
        i + enc_entry_list(es).len() <= s.len(),
        s.subrange(i, i + enc_entry_list(es).len()) == enc_entry_list(es),
    ensures
        sp_entry_list(s, i, es.len()) == Some((es, i + enc_entry_list(es).len())),
    decreases es.len(),
{
    if es.len() == 0 {
        assert(sp_entry_list(s, i, 0nat) == Some((Seq::<TableEntryView>::empty(), i)));
        assert(es =~= Seq::<TableEntryView>::empty());
    } else {
        let e = es.first();
        let rest = es.drop_first();
        let l1 = enc_entry(e).len() as int;
        let l2 = enc_entry_list(rest).len() as int;
        let lt = enc_entry_list(es).len() as int;
        assert(enc_entry_list(es) == enc_entry(e) + enc_entry_list(rest));
        assert forall|k: int| i <= k < i + lt implies #[trigger] s[k] == enc_entry_list(es)[k
            - i] by {
            assert(s.subrange(i, i + lt)[k - i] == s[k]);
        }
        assert(s.subrange(i, i + l1) =~= enc_entry(e));
        lemma_sp_entry_at(s, i, e);
        assert(s.subrange(i + l1, i + l1 + l2) =~= enc_entry_list(rest));
        lemma_sp_entry_list_at(s, i + l1, rest);
        assert(seq![e] + rest =~= es);
    }
}

proof fn lemma_sp_version_list_at(s: Seq<u8>, i: int, vs: Seq<i64>)
    requires
        0 <= i,
        i + enc_version_list(vs).len() <= s.len(),
        s.subrange(i, i + enc_version_list(vs).len()) == enc_version_list(vs),
    ensures
        sp_version_list(s, i, vs.len()) == Some((vs, i + enc_version_list(vs).len())),
    decreases vs.len(),
{
    if vs.len() == 0 {
        assert(sp_version_list(s, i, 0nat) == Some((Seq::<i64>::empty(), i)));
        assert(vs =~= Seq::<i64>::empty());
    } else {
        let v = vs.first();
        let rest = vs.drop_first();
        let l2 = enc_version_list(rest).len() as int;
        let lt = enc_version_list(vs).len() as int;
        assert(enc_version_list(vs) == enc_i64(v) + enc_version_list(rest));
        assert forall|k: int| i <= k < i + lt implies #[trigger] s[k] == enc_version_list(vs)[k
            - i] by {
            assert(s.subrange(i, i + lt)[k - i] == s[k]);
        }
        assert(s.subrange(i, i + 8) =~= enc_i64(v));
        lemma_sp_i64_at(s, i, v);
        assert(s.subrange(i + 8, i + 8 + l2) =~= enc_version_list(rest));
        lemma_sp_version_list_at(s, i + 8, rest);
        assert(seq![v] + rest =~= vs);
    }
}

/// A list count below `WIRE_LEN_MAX` survives the trip through its `i32`
/// wire form.
proof fn lemma_count_cast(n: nat)
    requires
        n <= WIRE_LEN_MAX,
    ensures
        (n as i32) >= 0,
        (n as i32) as nat == n,
        (n as i32) == n,
{
    let n32 = n as u32;
    assert(n32 == n);
    assert(n32 <= 0x7fff_ffff ==> (n32 as i32) >= 0 && (n32 as i32) == n32) by (bit_vector);
    assert(n as i32 == n32 as i32);
}

/// P1, codec round trip: for every well-formed command, decoding the
/// canonical encoding yields the command again; and the encoding is a
/// function of the command's value alone, as `spec_encode` is a function.
pub proof fn lemma_codec_round_trip(m: WireCommandView)
    requires
        wf_command(m),
    ensures
        spec_decode(spec_encode(m)) == Ok::<WireCommandView, DecodeError>(m),
{
    let p = spec_payload(m);
    let s = spec_encode(m);
    let code = spec_code(m);
    assert(s.len() == 8 + p.len());
    assert(s.subrange(0, 4) =~= enc_i32(code));
    lemma_be32_round_trip(code as u32);
    lemma_i32_as_u32_round_trip(code);
    assert(spec_read_be32_of(s.subrange(0, 4)) == code as u32) by {
        assert(s.subrange(0, 4) == spec_be32(code as u32));
    }
    assert(s.subrange(4, 8) =~= spec_be32(p.len() as u32));
    lemma_be32_round_trip(p.len() as u32);
    assert((p.len() as u32) == p.len());
    assert(s.subrange(8, s.len() as int) =~= p);
    assert(spec_decode(s) == spec_decode_payload(code, p));
    lemma_payload_round_trip(m);
}

/// The `u32` read from four bytes, restated for trigger control.
spec fn spec_read_be32_of(b: Seq<u8>) -> u32 {
    crate::be_bytes::spec_read_be32(b)
}
/// Decoding the canonical payload of a well-formed command under its own
/// type code yields the command.
proof fn lemma_payload_round_trip(m: WireCommandView)
    requires
        wf_command(m),
    ensures
        spec_decode_payload(spec_code(m), spec_payload(m)) == Ok::<
            WireCommandView,
            DecodeError,
        >(m),
{
    match m {
        WireCommandView::Hello { .. } => lemma_pl_hello(m),
        WireCommandView::Event { .. } => lemma_pl_event(m),
        WireCommandView::SetupAppend { .. } => lemma_pl_setup_append(m),
        WireCommandView::AppendSetup { .. } => lemma_pl_append_setup(m),
        WireCommandView::AppendBlockEnd { .. } => lemma_pl_append_block_end(m),
        WireCommandView::DataAppended { .. } => lemma_pl_data_appended(m),
        WireCommandView::ReadSegment { .. } => lemma_pl_read_segment(m),
        WireCommandView::SegmentRead { .. } => lemma_pl_segment_read(m),
        WireCommandView::UpdateTableEntries { .. } => lemma_pl_update_table_entries(m),
        WireCommandView::TableEntriesUpdated { .. } => lemma_pl_table_entries_updated(m),
        WireCommandView::ReadTableEntriesDelta { .. } => lemma_pl_read_table_entries_delta(m),
        WireCommandView::TableEntriesDeltaRead { .. } => lemma_pl_table_entries_delta_read(m),
        WireCommandView::SegmentIsSealed { .. } => lemma_pl_segment_is_sealed(m),
        WireCommandView::NoSuchSegment { .. } => lemma_pl_no_such_segment(m),
        WireCommandView::SegmentIsTruncated { .. } => lemma_pl_segment_is_truncated(m),
        WireCommandView::InvalidEventNumber { .. } => lemma_pl_invalid_event_number(m),
        WireCommandView::TableKeyBadVersion { .. } => lemma_pl_table_key_bad_version(m),
        WireCommandView::AuthTokenCheckFailed { .. } => lemma_pl_auth_token_check_failed(m),
    }
}

#[verifier::rlimit(100)]
#[verifier::spinoff_prover]
proof fn lemma_pl_hello(m: WireCommandView)
    requires
        wf_command(m),
        m is Hello,
    ensures
        spec_decode_payload(spec_code(m), spec_payload(m)) == Ok::<
            WireCommandView,
            DecodeError,
        >(m),
{
    let p = spec_payload(m);
    match m {
        WireCommandView::Hello { high_version, low_version } => {
            assert(p.subrange(0, 4) =~= enc_i32(high_version));
            lemma_sp_i32_at(p, 0, high_version);
            assert(p.subrange(4, 8) =~= enc_i32(low_version));
            lemma_sp_i32_at(p, 4, low_version);
        },
        _ => {},
    }
}

#[verifier::rlimit(100)]
#[verifier::spinoff_prover]
proof fn lemma_pl_event(m: WireCommandView)
    requires
        wf_command(m),
        m is Event,
    ensures
        spec_decode_payload(spec_code(m), spec_payload(m)) == Ok::<
            WireCommandView,
            DecodeError,
        >(m),
{
    let p = spec_payload(m);
    match m {
        WireCommandView::Event { data } => {}
        _ => {},
    }
}

#[verifier::rlimit(100)]
#[verifier::spinoff_prover]
proof fn lemma_pl_setup_append(m: WireCommandView)
    requires
        wf_command(m),
        m is SetupAppend,
    ensures
        spec_decode_payload(spec_code(m), spec_payload(m)) == Ok::<
            WireCommandView,
            DecodeError,
        >(m),
{
    let p = spec_payload(m);
    match m {
        WireCommandView::SetupAppend { request_id, writer_id, segment, delegation_token } => {
            let o1 = 8int;
            let o2 = o1 + 16;
            let o3 = o2 + 4 + segment.len() as int;
            let o4 = o3 + 4 + delegation_token.len() as int;
            assert(p.len() == o4);
            assert(p.subrange(0, o1) =~= enc_i64(request_id));
            lemma_sp_i64_at(p, 0, request_id);
            assert(p.subrange(o1, o2) =~= enc_u128(writer_id));
            lemma_sp_u128_at(p, o1, writer_id);
            assert(p.subrange(o2, o3) =~= enc_var(segment));
            lemma_sp_str_at(p, o2, segment);
            assert(p.subrange(o3, o4) =~= enc_var(delegation_token));
            lemma_sp_str_at(p, o3, delegation_token);
        },
        _ => {},
    }
}

#[verifier::rlimit(100)]
#[verifier::spinoff_prover]
proof fn lemma_pl_append_setup(m: WireCommandView)
    requires
        wf_command(m),
        m is AppendSetup,
    ensures
        spec_decode_payload(spec_code(m), spec_payload(m)) == Ok::<
            WireCommandView,
            DecodeError,
        >(m),
{
    let p = spec_payload(m);
    match m {
        WireCommandView::AppendSetup { request_id, segment, writer_id, last_event_number } => {
            let o1 = 8int;
            let o2 = o1 + 4 + segment.len() as int;
            let o3 = o2 + 16;
            let o4 = o3 + 8;
            assert(p.len() == o4);
            assert(p.subrange(0, o1) =~= enc_i64(request_id));
            lemma_sp_i64_at(p, 0, request_id);
            assert(p.subrange(o1, o2) =~= enc_var(segment));
            lemma_sp_str_at(p, o1, segment);
            assert(p.subrange(o2, o3) =~= enc_u128(writer_id));
            lemma_sp_u128_at(p, o2, writer_id);
            assert(p.subrange(o3, o4) =~= enc_i64(last_event_number));
            lemma_sp_i64_at(p, o3, last_event_number);
        },
        _ => {},
    }
}

#[verifier::rlimit(100)]
#[verifier::spinoff_prover]
proof fn lemma_pl_append_block_end(m: WireCommandView)
    requires
        wf_command(m),
        m is AppendBlockEnd,
    ensures
        spec_decode_payload(spec_code(m), spec_payload(m)) == Ok::<
            WireCommandView,
            DecodeError,
        >(m),
{
    let p = spec_payload(m);
    match m {
        WireCommandView::AppendBlockEnd {
            writer_id,
            size_of_whole_events,
            data,
            num_events,
            last_event_number,
            request_id,
        } => {
            let o1 = 16int;
            let o2 = o1 + 4;
            let o3 = o2 + 4 + data.len() as int;
            let o4 = o3 + 4;
            let o5 = o4 + 8;
            let o6 = o5 + 8;
            assert(p.len() == o6);
            assert(p.subrange(0, o1) =~= enc_u128(writer_id));
            lemma_sp_u128_at(p, 0, writer_id);
            assert(p.subrange(o1, o2) =~= enc_i32(size_of_whole_events));
            lemma_sp_i32_at(p, o1, size_of_whole_events);
            assert(p.subrange(o2, o3) =~= enc_var(data));
            lemma_sp_var_at(p, o2, data);
            assert(p.subrange(o3, o4) =~= enc_i32(num_events));
            lemma_sp_i32_at(p, o3, num_events);
            assert(p.subrange(o4, o5) =~= enc_i64(last_event_number));
            lemma_sp_i64_at(p, o4, last_event_number);
            assert(p.subrange(o5, o6) =~= enc_i64(request_id));
            lemma_sp_i64_at(p, o5, request_id);
        },
        _ => {},
    }
}

#[verifier::rlimit(100)]
#[verifier::spinoff_prover]
proof fn lemma_pl_data_appended(m: WireCommandView)
    requires
        wf_command(m),
        m is DataAppended,
    ensures
        spec_decode_payload(spec_code(m), spec_payload(m)) == Ok::<
            WireCommandView,
            DecodeError,
        >(m),
{
    let p = spec_payload(m);
    match m {
        WireCommandView::DataAppended {
            writer_id,
            event_number,
            previous_event_number,
            request_id,
            current_segment_write_offset,
        } => {
            let o1 = 16int;
            let o2 = o1 + 8;
            let o3 = o2 + 8;
            let o4 = o3 + 8;
            let o5 = o4 + 8;
            assert(p.len() == o5);
            assert(p.subrange(0, o1) =~= enc_u128(writer_id));
            lemma_sp_u128_at(p, 0, writer_id);
            assert(p.subrange(o1, o2) =~= enc_i64(event_number));
            lemma_sp_i64_at(p, o1, event_number);
            assert(p.subrange(o2, o3) =~= enc_i64(previous_event_number));
            lemma_sp_i64_at(p, o2, previous_event_number);
            assert(p.subrange(o3, o4) =~= enc_i64(request_id));
            lemma_sp_i64_at(p, o3, request_id);
            assert(p.subrange(o4, o5) =~= enc_i64(current_segment_write_offset));
            lemma_sp_i64_at(p, o4, current_segment_write_offset);
        },
        _ => {},
    }
}

#[verifier::rlimit(100)]
#[verifier::spinoff_prover]
proof fn lemma_pl_read_segment(m: WireCommandView)
    requires
        wf_command(m),
        m is ReadSegment,
    ensures
        spec_decode_payload(spec_code(m), spec_payload(m)) == Ok::<
            WireCommandView,
            DecodeError,
        >(m),
{
    let p = spec_payload(m);
    match m {
        WireCommandView::ReadSegment {
            segment,
            offset,
            suggested_length,
            delegation_token,
            request_id,
        } => {
            let o1 = 4 + segment.len() as int;
            let o2 = o1 + 8;
            let o3 = o2 + 4;
            let o4 = o3 + 4 + delegation_token.len() as int;
            let o5 = o4 + 8;
            assert(p.len() == o5);
            assert(p.subrange(0, o1) =~= enc_var(segment));
            lemma_sp_str_at(p, 0, segment);
            assert(p.subrange(o1, o2) =~= enc_i64(offset));
            lemma_sp_i64_at(p, o1, offset);
            assert(p.subrange(o2, o3) =~= enc_i32(suggested_length));
            lemma_sp_i32_at(p, o2, suggested_length);
            assert(p.subrange(o3, o4) =~= enc_var(delegation_token));
            lemma_sp_str_at(p, o3, delegation_token);
            assert(p.subrange(o4, o5) =~= enc_i64(request_id));
            lemma_sp_i64_at(p, o4, request_id);
        },
        _ => {},
    }
}

#[verifier::rlimit(100)]
#[verifier::spinoff_prover]
proof fn lemma_pl_segment_read(m: WireCommandView)
    requires
        wf_command(m),
        m is SegmentRead,
    ensures
        spec_decode_payload(spec_code(m), spec_payload(m)) == Ok::<
            WireCommandView,
            DecodeError,
        >(m),
{
    let p = spec_payload(m);
    match m {
        WireCommandView::SegmentRead {
            segment,
            offset,
            at_tail,
            end_of_segment,
            data,
            request_id,
        } => {
            let o1 = 4 + segment.len() as int;
            let o2 = o1 + 8;
            let o3 = o2 + 1;
            let o4 = o3 + 1;
            let o5 = o4 + 4 + data.len() as int;
            let o6 = o5 + 8;
            assert(p.len() == o6);
            assert(p.subrange(0, o1) =~= enc_var(segment));
            lemma_sp_str_at(p, 0, segment);
            assert(p.subrange(o1, o2) =~= enc_i64(offset));
            lemma_sp_i64_at(p, o1, offset);
            assert(p.subrange(o2, o3) =~= enc_bool(at_tail));
            lemma_sp_bool_at(p, o2, at_tail);
            assert(p.subrange(o3, o4) =~= enc_bool(end_of_segment));
            lemma_sp_bool_at(p, o3, end_of_segment);
            assert(p.subrange(o4, o5) =~= enc_var(data));
            lemma_sp_var_at(p, o4, data);
            assert(p.subrange(o5, o6) =~= enc_i64(request_id));
            lemma_sp_i64_at(p, o5, request_id);
        },
        _ => {},
    }
}

#[verifier::rlimit(100)]
#[verifier::spinoff_prover]
proof fn lemma_pl_update_table_entries(m: WireCommandView)
    requires
        wf_command(m),
        m is UpdateTableEntries,
    ensures
        spec_decode_payload(spec_code(m), spec_payload(m)) == Ok::<
            WireCommandView,
            DecodeError,
        >(m),
{
    let p = spec_payload(m);
    match m {
        WireCommandView::UpdateTableEntries {
            segment,
            delegation_token,
            table_entries,
            request_id,
        } => {
            let o1 = 4 + segment.len() as int;
            let o2 = o1 + 4 + delegation_token.len() as int;
            let o3 = o2 + 4;
            let o4 = o3 + enc_entry_list(table_entries).len() as int;
            let o5 = o4 + 8;
            assert(p.len() == o5);
            assert(p.subrange(0, o1) =~= enc_var(segment));
            lemma_sp_str_at(p, 0, segment);
            assert(p.subrange(o1, o2) =~= enc_var(delegation_token));
            lemma_sp_str_at(p, o1, delegation_token);
            lemma_count_cast(table_entries.len());
            assert(p.subrange(o2, o3) =~= enc_i32(table_entries.len() as i32));
            lemma_sp_i32_at(p, o2, table_entries.len() as i32);
            assert(p.subrange(o3, o4) =~= enc_entry_list(table_entries));
            lemma_sp_entry_list_at(p, o3, table_entries);
            assert(p.subrange(o4, o5) =~= enc_i64(request_id));
            lemma_sp_i64_at(p, o4, request_id);
        },
        _ => {},
    }
}

#[verifier::rlimit(100)]
#[verifier::spinoff_prover]
proof fn lemma_pl_table_entries_updated(m: WireCommandView)
    requires
        wf_command(m),
        m is TableEntriesUpdated,
    ensures
        spec_decode_payload(spec_code(m), spec_payload(m)) == Ok::<
            WireCommandView,
            DecodeError,
        >(m),
{
    let p = spec_payload(m);
    match m {
        WireCommandView::TableEntriesUpdated { request_id, updated_versions } => {
            let o1 = 8int;
            let o2 = o1 + 4;
            let o3 = o2 + enc_version_list(updated_versions).len() as int;
            assert(p.len() == o3);
            assert(p.subrange(0, o1) =~= enc_i64(request_id));
            lemma_sp_i64_at(p, 0, request_id);
            lemma_count_cast(updated_versions.len());
            assert(p.subrange(o1, o2) =~= enc_i32(updated_versions.len() as i32));
            lemma_sp_i32_at(p, o1, updated_versions.len() as i32);
            assert(p.subrange(o2, o3) =~= enc_version_list(updated_versions));
            lemma_sp_version_list_at(p, o2, updated_versions);
        },
        _ => {},
    }
}

#[verifier::rlimit(100)]
#[verifier::spinoff_prover]
proof fn lemma_pl_read_table_entries_delta(m: WireCommandView)
    requires
        wf_command(m),
        m is ReadTableEntriesDelta,
    ensures
        spec_decode_payload(spec_code(m), spec_payload(m)) == Ok::<
            WireCommandView,
            DecodeError,
        >(m),
{
    let p = spec_payload(m);
    match m {
        WireCommandView::ReadTableEntriesDelta {
            segment,
            delegation_token,
            from_position,
            suggested_entry_count,
            request_id,
        } => {
            let o1 = 4 + segment.len() as int;
            let o2 = o1 + 4 + delegation_token.len() as int;
            let o3 = o2 + 8;
            let o4 = o3 + 4;
            let o5 = o4 + 8;
            assert(p.len() == o5);
            assert(p.subrange(0, o1) =~= enc_var(segment));
            lemma_sp_str_at(p, 0, segment);
            assert(p.subrange(o1, o2) =~= enc_var(delegation_token));
            lemma_sp_str_at(p, o1, delegation_token);
            assert(p.subrange(o2, o3) =~= enc_i64(from_position));
            lemma_sp_i64_at(p, o2, from_position);
            assert(p.subrange(o3, o4) =~= enc_i32(suggested_entry_count));
            lemma_sp_i32_at(p, o3, suggested_entry_count);
            assert(p.subrange(o4, o5) =~= enc_i64(request_id));
            lemma_sp_i64_at(p, o4, request_id);
        },
        _ => {},
    }
}

#[verifier::rlimit(100)]
#[verifier::spinoff_prover]
proof fn lemma_pl_delta_read_fields(
    p: Seq<u8>,
    request_id: i64,
    segment: Seq<u8>,
    entries: Seq<TableEntryView>,
    should_clear: bool,
    reached_end: bool,
    last_position: i64,
)
    requires
        segment.len() <= WIRE_LEN_MAX,
        utf8_ok(segment),
        entries.len() <= WIRE_LEN_MAX,
        forall|k: int| 0 <= k < entries.len() ==> wf_entry(#[trigger] entries[k]),
        p == enc_i64(request_id) + enc_var(segment) + enc_i32(entries.len() as i32)
            + enc_entry_list(entries) + enc_bool(should_clear) + enc_bool(reached_end) + enc_i64(
            last_position,
        ),
    ensures
        sp_table_entries_delta_read(p) == Ok::<WireCommandView, DecodeError>(
            WireCommandView::TableEntriesDeltaRead {
                request_id,
                segment,
                entries,
                should_clear,
                reached_end,
                last_position,
            },
        ),
{
    let o1 = 8int;
    let o2 = o1 + 4 + segment.len() as int;
    let o3 = o2 + 4;
    let o4 = o3 + enc_entry_list(entries).len() as int;
    let o5 = o4 + 1;
    let o6 = o5 + 1;
    let o7 = o6 + 8;
    assert(p.len() == o7);
    assert(p.subrange(0, o1) =~= enc_i64(request_id));
    lemma_sp_i64_at(p, 0, request_id);
    assert(p.subrange(o1, o2) =~= enc_var(segment));
    lemma_sp_str_at(p, o1, segment);
    lemma_count_cast(entries.len());
    assert(p.subrange(o2, o3) =~= enc_i32(entries.len() as i32));
    lemma_sp_i32_at(p, o2, entries.len() as i32);
    assert(p.subrange(o3, o4) =~= enc_entry_list(entries));
    lemma_sp_entry_list_at(p, o3, entries);
    assert(p.subrange(o4, o5) =~= enc_bool(should_clear));
    lemma_sp_bool_at(p, o4, should_clear);
    assert(p.subrange(o5, o6) =~= enc_bool(reached_end));
    lemma_sp_bool_at(p, o5, reached_end);
    assert(p.subrange(o6, o7) =~= enc_i64(last_position));
    lemma_sp_i64_at(p, o6, last_position);
}

#[verifier::rlimit(100)]
#[verifier::spinoff_prover]
proof fn lemma_pl_table_entries_delta_read(m: WireCommandView)
    requires
        wf_command(m),
        m is TableEntriesDeltaRead,
    ensures
        spec_decode_payload(spec_code(m), spec_payload(m)) == Ok::<
            WireCommandView,
            DecodeError,
        >(m),
{
    let p = spec_payload(m);
    match m {
        WireCommandView::TableEntriesDeltaRead {
            request_id,
            segment,
            entries,
            should_clear,
            reached_end,
            last_position,
        } => {
            lemma_pl_delta_read_fields(
                p,
                request_id,
                segment,
                entries,
                should_clear,
                reached_end,
                last_position,
            );
        },
        _ => {},
    }
}

#[verifier::rlimit(100)]
#[verifier::spinoff_prover]
proof fn lemma_pl_segment_is_sealed(m: WireCommandView)
    requires
        wf_command(m),
        m is SegmentIsSealed,
    ensures
        spec_decode_payload(spec_code(m), spec_payload(m)) == Ok::<
            WireCommandView,
            DecodeError,
        >(m),
{
    let p = spec_payload(m);
    match m {
        WireCommandView::SegmentIsSealed { request_id, segment, offset } => {
            lemma_rid_seg_off(p, request_id, segment, offset);
        },
        _ => {},
    }
}

#[verifier::rlimit(100)]
#[verifier::spinoff_prover]
proof fn lemma_pl_no_such_segment(m: WireCommandView)
    requires
        wf_command(m),
        m is NoSuchSegment,
    ensures
        spec_decode_payload(spec_code(m), spec_payload(m)) == Ok::<
            WireCommandView,
            DecodeError,
        >(m),
{
    let p = spec_payload(m);
    match m {
        WireCommandView::NoSuchSegment { request_id, segment, offset } => {
            lemma_rid_seg_off(p, request_id, segment, offset);
        },
        _ => {},
    }
}

#[verifier::rlimit(100)]
#[verifier::spinoff_prover]
proof fn lemma_pl_segment_is_truncated(m: WireCommandView)
    requires
        wf_command(m),
        m is SegmentIsTruncated,
    ensures
        spec_decode_payload(spec_code(m), spec_payload(m)) == Ok::<
            WireCommandView,
            DecodeError,
        >(m),
{
    let p = spec_payload(m);
    match m {
        WireCommandView::SegmentIsTruncated { request_id, segment, start_offset } => {
            lemma_rid_seg_off(p, request_id, segment, start_offset);
        },
        _ => {},
    }
}

#[verifier::rlimit(100)]
#[verifier::spinoff_prover]
proof fn lemma_pl_invalid_event_number(m: WireCommandView)
    requires
        wf_command(m),
        m is InvalidEventNumber,
    ensures
        spec_decode_payload(spec_code(m), spec_payload(m)) == Ok::<
            WireCommandView,
            DecodeError,
        >(m),
{
    let p = spec_payload(m);
    match m {
        WireCommandView::InvalidEventNumber { writer_id, request_id, event_number } => {
            let o1 = 16int;
            let o2 = o1 + 8;
            let o3 = o2 + 8;
            assert(p.len() == o3);
            assert(p.subrange(0, o1) =~= enc_u128(writer_id));
            lemma_sp_u128_at(p, 0, writer_id);
            assert(p.subrange(o1, o2) =~= enc_i64(request_id));
            lemma_sp_i64_at(p, o1, request_id);
            assert(p.subrange(o2, o3) =~= enc_i64(event_number));
            lemma_sp_i64_at(p, o2, event_number);
        },
        _ => {},
    }
}

#[verifier::rlimit(100)]
#[verifier::spinoff_prover]
proof fn lemma_pl_table_key_bad_version(m: WireCommandView)
    requires
        wf_command(m),
        m is TableKeyBadVersion,
    ensures
        spec_decode_payload(spec_code(m), spec_payload(m)) == Ok::<
            WireCommandView,
            DecodeError,
        >(m),
{
    let p = spec_payload(m);
    match m {
        WireCommandView::TableKeyBadVersion { request_id, segment } => {
            let o1 = 8int;
            let o2 = o1 + 4 + segment.len() as int;
            assert(p.len() == o2);
            assert(p.subrange(0, o1) =~= enc_i64(request_id));
            lemma_sp_i64_at(p, 0, request_id);
            assert(p.subrange(o1, o2) =~= enc_var(segment));
            lemma_sp_str_at(p, o1, segment);
        },
        _ => {},
    }
}

#[verifier::rlimit(100)]
#[verifier::spinoff_prover]
proof fn lemma_pl_auth_token_check_failed(m: WireCommandView)
    requires
        wf_command(m),
        m is AuthTokenCheckFailed,
    ensures
        spec_decode_payload(spec_code(m), spec_payload(m)) == Ok::<
            WireCommandView,
            DecodeError,
        >(m),
{
    let p = spec_payload(m);
    match m {
        WireCommandView::AuthTokenCheckFailed { request_id } => {
            assert(p.subrange(0, 8) =~= enc_i64(request_id));
            lemma_sp_i64_at(p, 0, request_id);
        },
        _ => {},
    }
}

/// The shared reply shape request id, segment, offset parses back to its
/// fields.
proof fn lemma_rid_seg_off(p: Seq<u8>, request_id: i64, segment: Seq<u8>, offset: i64)
    requires
        segment.len() <= WIRE_LEN_MAX,
        utf8_ok(segment),
        p == enc_i64(request_id) + enc_var(segment) + enc_i64(offset),
    ensures
        sp_rid_seg_off(p) == Some((request_id, segment, offset)),
{
    let o1 = 8int;
    let o2 = o1 + 4 + segment.len() as int;
    let o3 = o2 + 8;
    assert(p.len() == o3);
    assert(p.subrange(0, o1) =~= enc_i64(request_id));
    lemma_sp_i64_at(p, 0, request_id);
    assert(p.subrange(o1, o2) =~= enc_var(segment));
    lemma_sp_str_at(p, o1, segment);
    assert(p.subrange(o2, o3) =~= enc_i64(offset));
    lemma_sp_i64_at(p, o2, offset);
}

} // verus!
