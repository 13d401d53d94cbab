//! Slicing segment reads into events.
//!
//! The bytes a segment read returns are a run of event envelopes — each a
//! 4-byte event type code, a 4-byte big-endian length, and the payload —
//! with possibly a partial envelope at the tail, which is carried over to
//! the next read. A slice yields the whole events in offset order and says
//! how many bytes it consumed, so the reader's next request starts exactly
//! at the first unconsumed byte.

use vstd::prelude::*;

use crate::be_bytes::{get_be32, spec_read_be32};
use crate::commands::{WireCommand, WireCommandView, WIRE_LEN_MAX, TYPE_EVENT};

verus! {

/// What a reply to a segment read means to the reader that sent it.
#[derive(Debug)]
pub enum ReadOutcome {
    /// Bytes arrived: slice them, starting at this offset.
    Data { offset: i64, at_tail: bool, end_of_segment: bool, data: Vec<u8> },
    /// The segment was truncated under the requested offset: retry the read
    /// from this, the segment's current start offset.
    RetryTruncated { start_offset: i64 },
    /// The segment is gone; the error is surfaced.
    SegmentGone,
    /// The delegation token was rejected; surfaced, never retried.
    AuthFailed,
    /// Not a reader's reply.
    Ignore,
}

/// Sorts a decoded reply into what the reader should do with it: slice the
/// returned bytes, remap a truncated read to the segment's current start
/// offset and retry, or surface a missing segment or a rejected token.
pub fn classify_read_reply(reply: WireCommand) -> (r: ReadOutcome)
    ensures
        (match reply@ {
            WireCommandView::SegmentRead { offset, at_tail, end_of_segment, data, .. } => (r
                matches ReadOutcome::Data {
                offset: roff,
                at_tail: rtail,
                end_of_segment: rend,
                data: rdata,
            } && roff == offset && rtail == at_tail && rend == end_of_segment && rdata@ == data),
            WireCommandView::SegmentIsTruncated { start_offset, .. } => r == (
            ReadOutcome::RetryTruncated { start_offset }),
            WireCommandView::NoSuchSegment { .. } => r == ReadOutcome::SegmentGone,
            WireCommandView::AuthTokenCheckFailed { .. } => r == ReadOutcome::AuthFailed,
            _ => r == ReadOutcome::Ignore,
        }),
{
    match reply {
        WireCommand::SegmentRead { offset, at_tail, end_of_segment, data, .. } => {
            ReadOutcome::Data { offset, at_tail, end_of_segment, data }
        },
        WireCommand::SegmentIsTruncated { start_offset, .. } => ReadOutcome::RetryTruncated {
            start_offset,
        },
        WireCommand::NoSuchSegment { .. } => ReadOutcome::SegmentGone,
        WireCommand::AuthTokenCheckFailed { .. } => ReadOutcome::AuthFailed,
        _ => ReadOutcome::Ignore,
    }
}

/// What the event envelopes of `s`, from `i` on, contain: the payloads of
/// the whole envelopes in order and the position where the first incomplete
/// envelope (if any) starts; or an error if an envelope carries a type code
/// that is not an event's, or an over-long length.
pub open spec fn spec_slice_events(s: Seq<u8>, i: int) -> Result<(Seq<Seq<u8>>, int), ()>
    decreases s.len() - i,
{
    if i < 0 || i + 8 > s.len() {
        Ok((Seq::empty(), i))
    } else {
        let code = spec_read_be32(s.subrange(i, i + 4)) as i32;
        let n = spec_read_be32(s.subrange(i + 4, i + 8));
        if code != TYPE_EVENT || n > WIRE_LEN_MAX {
            Err(())
        } else if i + 8 + n > s.len() {
            Ok((Seq::empty(), i))
        } else {
            match spec_slice_events(s, i + 8 + n) {
                Ok((evs, j)) => Ok((seq![s.subrange(i + 8, i + 8 + n)] + evs, j)),
                Err(e) => Err(e),
            }
        }
    }
}

/// A decoded run of events from one segment read: where it started, the
/// events in offset order, and how many bytes of the read they cover.
pub struct SegmentSlice {
    pub segment: i64,
    pub start_offset: i64,
    pub events: Vec<Vec<u8>>,
    pub consumed: usize,
}

/// Splits a segment read's bytes into whole events. On success the events
/// and the count of bytes consumed are exactly what `spec_slice_events`
/// says: every whole envelope's payload in offset order, with a partial
/// trailing envelope left unconsumed for the next read. A malformed
/// envelope is an error.
pub fn slice_events(data: &[u8]) -> (r: Result<(Vec<Vec<u8>>, usize), ()>)
    ensures
        (match r {
            Ok((evs, consumed)) => spec_slice_events(data@, 0) == Ok::<(Seq<Seq<u8>>, int), ()>(
                (evs@.map_values((|e: Vec<u8>| e@)), consumed as int),
            ) && consumed <= data@.len(),
            Err(e) => spec_slice_events(data@, 0) == Err::<(Seq<Seq<u8>>, int), ()>(e),
        }),
{
    let mut evs: Vec<Vec<u8>> = Vec::new();
    let mut pos: usize = 0;
    let n = data.len();
    loop
        invariant
            pos <= n,
            n == data@.len(),
            spec_slice_events(data@, 0) == (match spec_slice_events(data@, pos as int) {
                Ok((tail, j)) => Ok::<(Seq<Seq<u8>>, int), ()>(
                    (evs@.map_values((|e: Vec<u8>| e@)) + tail, j),
                ),
                Err(e) => Err::<(Seq<Seq<u8>>, int), ()>(e),
            }),
        ensures
            spec_slice_events(data@, 0) == Ok::<(Seq<Seq<u8>>, int), ()>(
                (evs@.map_values((|e: Vec<u8>| e@)), pos as int),
            ),
        decreases n - pos,
    {
        if n - pos < 8 {
            proof {
                assert(spec_slice_events(data@, pos as int) == Ok::<(Seq<Seq<u8>>, int), ()>(
                    (Seq::<Seq<u8>>::empty(), pos as int),
                ));
                assert(evs@.map_values((|e: Vec<u8>| e@)) + Seq::<Seq<u8>>::empty()
                    =~= evs@.map_values((|e: Vec<u8>| e@)));
            }
            break;
        }
        let code = get_be32(data, pos) as i32;
        let len = get_be32(data, pos + 4);
        if code != TYPE_EVENT || len > WIRE_LEN_MAX as u32 {
            return Err(());
        }
        let len = len as usize;
        if len > n - (pos + 8) {
            proof {
                assert(spec_slice_events(data@, pos as int) == Ok::<(Seq<Seq<u8>>, int), ()>(
                    (Seq::<Seq<u8>>::empty(), pos as int),
                ));
                assert(evs@.map_values((|e: Vec<u8>| e@)) + Seq::<Seq<u8>>::empty()
                    =~= evs@.map_values((|e: Vec<u8>| e@)));
            }
            break;
        }
        let payload = vstd::slice::slice_to_vec(
            vstd::slice::slice_subrange(data, pos + 8, pos + 8 + len),
        );
        proof {
            let tail0 = spec_slice_events(data@, pos as int + 8 + len as int);
            assert(spec_slice_events(data@, pos as int) == (match tail0 {
                Ok((tevs, j)) => Ok::<(Seq<Seq<u8>>, int), ()>(
                    (seq![data@.subrange(pos as int + 8, pos as int + 8 + len as int)] + tevs, j),
                ),
                Err(e) => Err::<(Seq<Seq<u8>>, int), ()>(e),
            }));
            assert(evs@.push(payload).map_values((|e: Vec<u8>| e@)) =~= evs@.map_values(
                (|e: Vec<u8>| e@),
            ).push(payload@));
            match tail0 {
                Ok((tevs, j)) => {
                    assert(evs@.map_values((|e: Vec<u8>| e@)) + (seq![payload@] + tevs)
                        =~= evs@.push(payload).map_values((|e: Vec<u8>| e@)) + tevs);
                },
                Err(_) => {},
            }
        }
        evs.push(payload);
        pos = pos + 8 + len;
    }
    Ok((evs, pos))
}

impl SegmentSlice {
    /// Builds the slice for one segment read: the events it carries and
    /// where the next read of this segment must start.
    pub fn from_read(segment: i64, start_offset: i64, data: &[u8]) -> (r: Result<
        SegmentSlice,
        (),
    >)
        ensures
            (match r {
                Ok(slice) => {
                    &&& slice.segment == segment
                    &&& slice.start_offset == start_offset
                    &&& spec_slice_events(data@, 0) == Ok::<(Seq<Seq<u8>>, int), ()>(
                        (slice.events@.map_values((|e: Vec<u8>| e@)), slice.consumed as int),
                    )
                    &&& slice.consumed <= data@.len()
                },
                Err(e) => spec_slice_events(data@, 0) == Err::<(Seq<Seq<u8>>, int), ()>(e),
            }),
    {
        match slice_events(data) {
            Ok((events, consumed)) => Ok(
                SegmentSlice { segment, start_offset, events, consumed },
            ),
            Err(e) => Err(e),
        }
    }

    /// Where the next read of this segment starts: just past the bytes this
    /// slice consumed.
    pub fn next_read_offset(&self) -> (o: i64)
        requires
            self.start_offset >= 0,
            self.start_offset + self.consumed <= i64::MAX,
        ensures
            o == self.start_offset + self.consumed,
    {
        self.start_offset + (self.consumed as i64)
    }
}

} // verus!
