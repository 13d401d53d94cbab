//! Routing keys to segments.
//!
//! The active segments of a stream partition the routing-key space: each
//! carries an interval of 64-bit hash values, lower bound inclusive. A keyed
//! event goes to the segment whose interval contains the SHA-256-derived
//! hash of its key (so peers that hash the same way agree); an unkeyed event
//! is assigned round-robin over the active segments.

use vstd::prelude::*;

use sha2::Digest;

use crate::be_bytes::{get_be64, spec_read_be64};

verus! {

/// The SHA-256 digest of the bytes; a function of the bytes alone.
pub uninterp spec fn sha256_of(b: Seq<u8>) -> Seq<u8>;

/// Relies on sha2::Sha256 (through the digest crate's `Digest` trait): the
/// digest depends on the input bytes alone and is 32 bytes long.
#[verifier::external_body]
fn sha256(b: &[u8]) -> (r: Vec<u8>)
    ensures
        r@ == sha256_of(b@),
        r@.len() == 32,
{
    sha2::Sha256::digest(b).to_vec()
}

/// The routing hash of a key: the first eight digest bytes, big-endian, as
/// a position in the key space `[0, 2^64)`.
pub open spec fn route_hash_of(key: Seq<u8>) -> u64 {
    spec_read_be64(sha256_of(key).subrange(0, 8))
}

/// Computes the routing hash of a key.
pub fn route_hash(key: &[u8]) -> (h: u64)
    ensures
        h == route_hash_of(key@),
{
    let digest = sha256(key);
    get_be64(digest.as_slice(), 0)
}

/// One active segment and the hash interval it owns, both bounds inclusive
/// (the key space's top, `2^64`, is not a `u64`, so the upper bound is kept
/// inclusive).
#[derive(Clone, Copy, Debug, PartialEq, Eq, Structural)]
pub struct SegmentEntry {
    pub segment: i64,
    pub lo: u64,
    pub hi: u64,
}

/// The entries partition the whole key space: ordered, gapless intervals
/// from 0 through `u64::MAX`.
pub open spec fn segments_wf(entries: Seq<SegmentEntry>) -> bool {
    &&& entries.len() > 0
    &&& entries.first().lo == 0
    &&& entries.last().hi == u64::MAX
    &&& forall|i: int| 0 <= i < entries.len() ==> (#[trigger] entries[i]).lo <= entries[i].hi
    &&& forall|i: int|
        0 <= i < entries.len() - 1 ==> (#[trigger] entries[i]).hi + 1 == entries[i + 1].lo
}

/// The first entry whose interval contains `h`, scanning in order.
pub open spec fn spec_select(entries: Seq<SegmentEntry>, h: u64) -> Option<i64>
    decreases entries.len(),
{
    if entries.len() == 0 {
        None
    } else if entries.first().lo <= h && h <= entries.first().hi {
        Some(entries.first().segment)
    } else {
        spec_select(entries.drop_first(), h)
    }
}

/// Over a well-formed partition, every hash lands in some interval, so
/// selection never fails. (Stated from `start`: the entries cover
/// `[start, u64::MAX]` and `h` lies in it.)
proof fn lemma_select_total_from(entries: Seq<SegmentEntry>, h: u64, start: u64)
    requires
        entries.len() > 0,
        entries.first().lo == start,
        entries.last().hi == u64::MAX,
        forall|i: int| 0 <= i < entries.len() ==> (#[trigger] entries[i]).lo <= entries[i].hi,
        forall|i: int|
            0 <= i < entries.len() - 1 ==> (#[trigger] entries[i]).hi + 1 == entries[i + 1].lo,
        start <= h,
    ensures
        spec_select(entries, h) is Some,
    decreases entries.len(),
{
    if entries.first().lo <= h && h <= entries.first().hi {
    } else {
        assert(entries.len() > 1) by {
            assert(entries.first().hi < h);
        }
        let rest = entries.drop_first();
        assert(rest.first() == entries[1]);
        assert(entries[0].hi + 1 == entries[1].lo);
        assert(rest.last() == entries.last());
        assert(forall|i: int| 0 <= i < rest.len() ==> rest[i] == entries[i + 1]);
        lemma_select_total_from(rest, h, entries[1].lo);
    }
}

/// P3 of routing: over a well-formed partition every key has a segment.
pub proof fn lemma_select_total(entries: Seq<SegmentEntry>, h: u64)
    requires
        segments_wf(entries),
    ensures
        spec_select(entries, h) is Some,
{
    lemma_select_total_from(entries, h, 0);
}

/// Selection is a function of the entries and the hash alone: two readers
/// of the same active-segment set send one key to one segment. (This is
/// immediate from `spec_select` being a function; stated so callers can
/// appeal to it by name.)
pub proof fn lemma_select_deterministic(entries: Seq<SegmentEntry>, h1: u64, h2: u64)
    requires
        h1 == h2,
    ensures
        spec_select(entries, h1) == spec_select(entries, h2),
{
}

/// Finds the segment owning hash `h`.
pub fn select_segment(entries: &Vec<SegmentEntry>, h: u64) -> (r: Option<i64>)
    ensures
        r == spec_select(entries@, h),
{
    let n = entries.len();
    let mut k: usize = 0;
    proof {
        assert(entries@.skip(0) =~= entries@);
    }
    while k < n
        invariant
            k <= n,
            n == entries@.len(),
            spec_select(entries@, h) == spec_select(entries@.skip(k as int), h),
        decreases n - k,
    {
        let e = entries[k];
        proof {
            let tail = entries@.skip(k as int);
            assert(tail.first() == entries@[k as int]);
            assert(tail.drop_first() =~= entries@.skip(k as int + 1));
        }
        if e.lo <= h && h <= e.hi {
            return Some(e.segment);
        }
        k = k + 1;
    }
    proof {
        assert(entries@.skip(n as int) =~= Seq::<SegmentEntry>::empty());
    }
    None
}

/// Maps routing keys to active segments and deals unkeyed events
/// round-robin.
pub struct SegmentSelector {
    /// The active segments with their hash intervals.
    pub entries: Vec<SegmentEntry>,
    /// How many unkeyed events have been dealt so far; the next one goes to
    /// the entry at this count modulo the number of entries.
    pub dealt: u64,
}

impl SegmentSelector {
    /// A selector over the given active-segment set.
    pub fn new(entries: Vec<SegmentEntry>) -> (s: SegmentSelector)
        ensures
            s.entries == entries,
            s.dealt == 0,
    {
        SegmentSelector { entries, dealt: 0 }
    }

    /// Replaces the active-segment set after the stream scaled.
    pub fn refresh(&mut self, entries: Vec<SegmentEntry>)
        ensures
            final(self).entries == entries,
            final(self).dealt == old(self).dealt,
    {
        self.entries = entries;
    }

    /// The segment for a keyed event: the owner of the key's hash interval.
    pub fn segment_for_key(&self, key: &[u8]) -> (r: Option<i64>)
        ensures
            r == spec_select(self.entries@, route_hash_of(key@)),
    {
        let h = route_hash(key);
        select_segment(&self.entries, h)
    }

    /// The segment for an unkeyed event: round-robin over the active
    /// segments, in order (the deal counter wraps at its top).
    pub fn segment_round_robin(&mut self) -> (r: Option<i64>)
        ensures
            final(self).entries == old(self).entries,
            old(self).entries@.len() == 0 ==> r is None && final(self).dealt == old(self).dealt,
            old(self).entries@.len() > 0 ==> r == Some(
                old(self).entries@[(old(self).dealt % (old(self).entries@.len() as u64)) as int].segment,
            ) && final(self).dealt == (if old(self).dealt == u64::MAX {
                0int
            } else {
                old(self).dealt + 1
            }),
    {
        let n = self.entries.len();
        if n == 0 {
            return None;
        }
        let idx = (self.dealt % (n as u64)) as usize;
        if self.dealt == u64::MAX {
            self.dealt = 0;
        } else {
            self.dealt = self.dealt + 1;
        }
        Some(self.entries[idx].segment)
    }
}

} // verus!
