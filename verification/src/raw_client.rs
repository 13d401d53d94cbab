//! Request/reply bookkeeping for the raw client.
//!
//! The raw client is a thin facade over one pooled connection: it stamps
//! each outgoing request with a fresh id and matches replies back by that
//! id. Pipelining is allowed, so replies may return in any order; a reply
//! whose id matches nothing outstanding is unsolicited and gets dropped by
//! the caller. The id bookkeeping is verified here; the socket lives
//! outside.

use vstd::prelude::*;

verus! {

/// The ids of requests written but not yet answered, oldest first.
pub struct RequestTracker {
    /// The id the next request will take.
    pub next_request_id: i64,
    /// Outstanding request ids, in issue order (so strictly ascending).
    pub outstanding: Vec<i64>,
}

/// The first outstanding id equal to `id`, scanning in order.
pub open spec fn find_id_from(ids: Seq<i64>, id: i64, k: int) -> Option<int>
    decreases ids.len() - k,
{
    if k < 0 || k >= ids.len() {
        None
    } else if ids[k] == id {
        Some(k)
    } else {
        find_id_from(ids, id, k + 1)
    }
}

/// Ids are issued in ascending order and never repeat while outstanding.
pub open spec fn tracker_wf(t: RequestTracker) -> bool {
    &&& forall|i: int, j: int|
        0 <= i < j < t.outstanding@.len() ==> t.outstanding@[i] < t.outstanding@[j]
    &&& forall|i: int|
        0 <= i < t.outstanding@.len() ==> (#[trigger] t.outstanding@[i]) < t.next_request_id
}

impl RequestTracker {
    /// A tracker with nothing outstanding, issuing ids from zero.
    pub fn new() -> (t: RequestTracker)
        ensures
            t.next_request_id == 0,
            t.outstanding@ == Seq::<i64>::empty(),
            tracker_wf(t),
    {
        RequestTracker { next_request_id: 0, outstanding: Vec::new() }
    }

    /// Stamps one outgoing request: a fresh id, unequal to every id still
    /// outstanding.
    pub fn register(&mut self) -> (id: i64)
        requires
            tracker_wf(*old(self)),
            old(self).next_request_id < i64::MAX,
        ensures
            tracker_wf(*final(self)),
            id == old(self).next_request_id,
            final(self).next_request_id == old(self).next_request_id + 1,
            final(self).outstanding@ == old(self).outstanding@.push(id),
    {
        let id = self.next_request_id;
        self.next_request_id = id + 1;
        self.outstanding.push(id);
        id
    }

    /// Matches one incoming reply: a reply for an outstanding request takes
    /// that request out, exactly once; anything else is unsolicited and
    /// changes nothing.
    pub fn take_match(&mut self, id: i64) -> (matched: bool)
        requires
            tracker_wf(*old(self)),
        ensures
            tracker_wf(*final(self)),
            final(self).next_request_id == old(self).next_request_id,
            (match find_id_from(old(self).outstanding@, id, 0) {
                Some(i) => matched && final(self).outstanding@ == old(self).outstanding@.remove(i),
                None => !matched && final(self).outstanding@ == old(self).outstanding@,
            }),
    {
        let n = self.outstanding.len();
        let mut k: usize = 0;
        while k < n
            invariant
                k <= n,
                n == self.outstanding@.len(),
                tracker_wf(*self),
                *self == *old(self),
                find_id_from(self.outstanding@, id, 0) == find_id_from(
                    self.outstanding@,
                    id,
                    k as int,
                ),
            decreases n - k,
        {
            if self.outstanding[k] == id {
                proof {
                    assert(find_id_from(self.outstanding@, id, k as int) == Some(k as int));
                }
                let ghost before = self.outstanding@;
                let _ = self.outstanding.remove(k);
                proof {
                    assert(self.outstanding@ =~= before.subrange(0, k as int) + before.subrange(
                        k as int + 1,
                        n as int,
                    ));
                }
                return true;
            }
            k = k + 1;
        }
        false
    }
}

} // verus!
