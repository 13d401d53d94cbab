//! The writer reactor: the per-stream append pipeline.
//!
//! One reactor owns the segment selector and every per-segment writer
//! session. Callers submit events over a bounded queue; the reactor routes
//! each to the active segment its routing key hashes to (round-robin when
//! unkeyed), numbers it, tracks it in the session's in-flight list, and
//! completes it when the store acknowledges. Acknowledgements are
//! monotonic: a stale one resets the session. A sealed or missing segment
//! parks the session's unacknowledged events until a fresh active-segment
//! set arrives, then resends them through the selector, so no accepted
//! event is lost or completed twice.
//!
//! Everything here is a pure state transition returning actions; the task
//! that performs them (framing bytes, TCP, timers) lives outside.

use vstd::multiset::Multiset;
use vstd::prelude::*;

use crate::commands::{WireCommand, WireCommandView};
use crate::selector::{route_hash_of, spec_select, SegmentEntry, SegmentSelector};

verus! {

/// Largest event payload a writer accepts.
pub const MAX_WRITE_SIZE: usize = 8 * 1024 * 1024;

/// One event accepted from a caller: an optional routing key (as its UTF-8
/// bytes), the payload, and the caller's completion ticket, fulfilled
/// exactly once.
pub struct PendingEvent {
    pub routing_key: Option<Vec<u8>>,
    pub data: Vec<u8>,
    pub completion_id: u64,
}

impl PendingEvent {
    /// An event with nothing in it: no payload and no routing key.
    pub open spec fn spec_is_empty(self) -> bool {
        self.data@.len() == 0 && self.routing_key is None
    }

    pub fn is_empty(&self) -> (r: bool)
        ensures
            r == self.spec_is_empty(),
    {
        self.data.len() == 0 && self.routing_key.is_none()
    }

    /// Makes an event from a caller's payload, refusing exactly the
    /// payloads over `MAX_WRITE_SIZE`.
    pub fn without_header(
        routing_key: Option<Vec<u8>>,
        data: Vec<u8>,
        completion_id: u64,
    ) -> (r: Option<PendingEvent>)
        ensures
            data@.len() <= MAX_WRITE_SIZE ==> r == Some(
                PendingEvent { routing_key, data, completion_id },
            ),
            data@.len() > MAX_WRITE_SIZE ==> r is None,
    {
        if data.len() <= MAX_WRITE_SIZE {
            Some(PendingEvent { routing_key, data, completion_id })
        } else {
            None
        }
    }
}

/// The life of a per-segment writer session.
#[derive(Clone, Copy, Debug, PartialEq, Eq, Structural)]
pub enum SessionState {
    /// `SetupAppend` sent, `AppendSetup` not yet received; events wait.
    SetupPending,
    /// Appending; events flow and acknowledgements drain.
    Open,
    /// The segment was sealed or lost; the session only waits to be drained.
    Sealing,
    /// Drained; the reactor forgets the session.
    Closed,
}

/// One event in flight: numbered, awaiting its acknowledgement.
pub struct Append {
    pub event_number: i64,
    pub event: PendingEvent,
}

/// One append session with one segment store: the segment, this writer's
/// id on it, the numbering state and the in-flight list.
pub struct SegmentSession {
    pub segment: i64,
    pub writer_id: u128,
    pub state: SessionState,
    /// The number the next append will take.
    pub next_event_number: i64,
    /// The highest acknowledged event number (its sentinel is one below the
    /// first number handed out).
    pub last_acked_event_number: i64,
    /// Numbered appends not yet acknowledged, in numbering order.
    pub inflight: Vec<Append>,
    /// Events waiting to be numbered: accepted while the session was still
    /// setting up, or suspended because the send window was full.
    pub pending: Vec<PendingEvent>,
    /// The connection's send window: the in-flight payload bytes never
    /// exceed it.
    pub send_window: usize,
    /// The in-flight payload byte total, kept in step with `inflight`.
    pub inflight_bytes: usize,
}

/// The payload bytes of a run of numbered appends.
pub open spec fn spec_inflight_bytes(aps: Seq<Append>) -> int
    decreases aps.len(),
{
    if aps.len() == 0 {
        0
    } else {
        spec_inflight_bytes(aps.drop_last()) + aps.last().event.data@.len()
    }
}

/// The byte total of a run of appends is never negative.
proof fn lemma_inflight_bytes_nonneg(aps: Seq<Append>)
    ensures
        spec_inflight_bytes(aps) >= 0,
    decreases aps.len(),
{
    if aps.len() > 0 {
        lemma_inflight_bytes_nonneg(aps.drop_last());
    }
}

/// One more append adds its payload's bytes.
proof fn lemma_inflight_bytes_push(aps: Seq<Append>, a: Append)
    ensures
        spec_inflight_bytes(aps.push(a)) == spec_inflight_bytes(aps) + a.event.data@.len(),
{
    assert(aps.push(a).drop_last() =~= aps);
    assert(aps.push(a).last() == a);
}

/// Splitting a run of appends splits its byte total.
proof fn lemma_inflight_bytes_split(aps: Seq<Append>, k: int)
    requires
        0 <= k <= aps.len(),
    ensures
        spec_inflight_bytes(aps) == spec_inflight_bytes(aps.take(k)) + spec_inflight_bytes(
            aps.skip(k),
        ),
    decreases aps.len() - k,
{
    if k == aps.len() {
        assert(aps.take(k) =~= aps);
        assert(aps.skip(k) =~= Seq::<Append>::empty());
    } else {
        lemma_inflight_bytes_split(aps, k + 1);
        assert(aps.take(k + 1).drop_last() =~= aps.take(k));
        assert(aps.take(k + 1).last() == aps[k]);
        assert(aps.skip(k).drop_last() =~= Seq::<Append>::empty() || true);
        // one element moves from the tail's head to the prefix's end
        assert(aps.skip(k) =~= seq![aps[k]] + aps.skip(k + 1));
        lemma_inflight_bytes_cons(aps[k], aps.skip(k + 1));
    }
}

/// Prepending one append adds its payload's bytes.
proof fn lemma_inflight_bytes_cons(a: Append, rest: Seq<Append>)
    ensures
        spec_inflight_bytes(seq![a] + rest) == a.event.data@.len() + spec_inflight_bytes(rest),
    decreases rest.len(),
{
    if rest.len() == 0 {
        assert(seq![a] + rest =~= seq![a]);
        assert((seq![a] + rest).drop_last() =~= Seq::<Append>::empty());
        assert((seq![a] + rest).last() == a);
        assert(spec_inflight_bytes(Seq::<Append>::empty()) == 0);
    } else {
        assert((seq![a] + rest).drop_last() =~= seq![a] + rest.drop_last());
        assert((seq![a] + rest).last() == rest.last());
        lemma_inflight_bytes_cons(a, rest.drop_last());
    }
}

/// The session invariant: the in-flight list is strictly ascending by
/// event number, strictly between the last acknowledged number and the
/// next to be handed out; and its payload byte total is tracked exactly and
/// never exceeds the connection's send window.
pub open spec fn session_wf(s: SegmentSession) -> bool {
    &&& forall|i: int, j: int|
        0 <= i < j < s.inflight@.len() ==> s.inflight@[i].event_number
            < s.inflight@[j].event_number
    &&& forall|i: int|
        0 <= i < s.inflight@.len() ==> s.last_acked_event_number < (#[trigger] s.inflight@[
        i]).event_number < s.next_event_number
    &&& s.last_acked_event_number < s.next_event_number
    &&& s.state == SessionState::SetupPending ==> s.inflight@.len() == 0
    &&& s.inflight_bytes == spec_inflight_bytes(s.inflight@)
    &&& s.inflight_bytes <= s.send_window
}

/// What draining the send window did: starting from session `s`, the first
/// `m` waiting events were numbered consecutively from `s`'s next number and
/// put in flight, one send action was emitted for each in order, and the
/// first event that did not fit the window (if any) stayed waiting with
/// everything behind it.
pub open spec fn drained_to(
    s: SegmentSession,
    s2: SegmentSession,
    acts0: Seq<Action>,
    acts1: Seq<Action>,
    m: int,
) -> bool {
    &&& 0 <= m <= s.pending@.len()
    &&& s2.pending@ == s.pending@.skip(m)
    &&& s2.next_event_number == s.next_event_number + m
    &&& s2.inflight@.len() == s.inflight@.len() + m
    &&& s2.inflight@.take(s.inflight@.len() as int) == s.inflight@
    &&& (forall|j: int|
        0 <= j < m ==> (#[trigger] s2.inflight@[s.inflight@.len() + j]).event_number
            == s.next_event_number + j && s2.inflight@[s.inflight@.len() + j].event == s.pending@[
        j])
    &&& (m < s.pending@.len() ==> s2.inflight_bytes + s.pending@[m].data@.len()
        > s2.send_window)
    &&& acts1.len() == acts0.len() + m
    &&& (forall|j: int|
        0 <= j < m ==> ((#[trigger] acts1[acts0.len() + j]) matches Action::SendAppend {
            segment: aseg,
            writer_id: awid,
            event_number: an,
            data: adata,
        } && aseg == s.segment && awid == s.writer_id && an == s.next_event_number + j && adata@
            == s.pending@[j].data@))
}

/// The session drained as much waiting work as its window allowed, from
/// where it stood.
pub open spec fn session_drained(
    s: SegmentSession,
    s2: SegmentSession,
    acts0: Seq<Action>,
    acts1: Seq<Action>,
) -> bool {
    exists|m: int| drained_to(s, s2, acts0, acts1, m)
}

/// After its setup reply named `base` as the first number, the session
/// opened and drained as much waiting work as its window allowed.
pub open spec fn setup_drained(
    s: SegmentSession,
    base: int,
    s2: SegmentSession,
    acts0: Seq<Action>,
    acts1: Seq<Action>,
) -> bool {
    exists|m: int| drained_to(opened_session(s, base), s2, acts0, acts1, m)
}

/// The session as it stands right after its setup reply: open, numbering
/// from `base`.
pub open spec fn opened_session(s: SegmentSession, base: int) -> SegmentSession {
    SegmentSession {
        state: SessionState::Open,
        next_event_number: base as i64,
        last_acked_event_number: (base - 1) as i64,
        ..s
    }
}

/// `drained_to` reads only the observable parts of its starting session, so
/// any session showing the same parts drains the same way.
proof fn lemma_drained_to_congruence(
    a: SegmentSession,
    b: SegmentSession,
    s2: SegmentSession,
    acts0: Seq<Action>,
    acts1: Seq<Action>,
    m: int,
)
    requires
        drained_to(a, s2, acts0, acts1, m),
        a.pending@ == b.pending@,
        a.inflight@ == b.inflight@,
        a.next_event_number == b.next_event_number,
        a.segment == b.segment,
        a.writer_id == b.writer_id,
    ensures
        drained_to(b, s2, acts0, acts1, m),
{
}

/// What an acknowledgement did to a session.
#[derive(Debug)]
pub enum AckOutcome {
    /// The completion tickets of the events the acknowledgement covers, in
    /// numbering order; each leaves the in-flight list.
    Completed(Vec<u64>),
    /// The acknowledgement was not strictly above the last one (or named an
    /// event never sent): a protocol violation, the session closes for
    /// resend.
    ProtocolViolation,
}

impl SegmentSession {
    /// A fresh session for `segment`: setup pending, nothing in flight,
    /// numbering to start at zero unless the store says otherwise.
    pub fn new(segment: i64, writer_id: u128, send_window: usize) -> (s: SegmentSession)
        ensures
            s.segment == segment,
            s.writer_id == writer_id,
            s.state == SessionState::SetupPending,
            s.next_event_number == 0,
            s.last_acked_event_number == -1,
            s.inflight@ == Seq::<Append>::empty(),
            s.pending@ == Seq::<PendingEvent>::empty(),
            s.send_window == send_window,
            s.inflight_bytes == 0,
            session_wf(s),
    {
        SegmentSession {
            segment,
            writer_id,
            state: SessionState::SetupPending,
            next_event_number: 0,
            last_acked_event_number: -1,
            inflight: Vec::new(),
            pending: Vec::new(),
            send_window,
            inflight_bytes: 0,
        }
    }

    /// The store confirmed the setup, telling us the last event number it
    /// has from this writer (`i64::MIN` for none). Numbering continues one
    /// above it.
    pub fn on_append_setup(&mut self, last_event_number: i64)
        requires
            session_wf(*old(self)),
            old(self).state == SessionState::SetupPending,
            old(self).inflight@.len() == 0,
            last_event_number < i64::MAX,
        ensures
            session_wf(*final(self)),
            final(self).state == SessionState::Open,
            final(self).next_event_number == (if last_event_number == i64::MIN {
                0int
            } else {
                last_event_number + 1
            }),
            final(self).last_acked_event_number == (if last_event_number == i64::MIN {
                -1int
            } else {
                last_event_number as int
            }),
            final(self).inflight@ == old(self).inflight@,
            final(self).pending@ == old(self).pending@,
            final(self).segment == old(self).segment,
            final(self).writer_id == old(self).writer_id,
            final(self).send_window == old(self).send_window,
            final(self).inflight_bytes == old(self).inflight_bytes,
    {
        if last_event_number == i64::MIN {
            self.next_event_number = 0;
            self.last_acked_event_number = -1;
        } else {
            self.next_event_number = last_event_number + 1;
            self.last_acked_event_number = last_event_number;
        }
        self.state = SessionState::Open;
    }

    /// Numbers one event and puts it in flight, charging its payload
    /// against the send window. Numbers are handed out in submission order,
    /// one apart.
    pub fn begin_append(&mut self, event: PendingEvent) -> (n: i64)
        requires
            session_wf(*old(self)),
            old(self).state == SessionState::Open,
            old(self).next_event_number < i64::MAX,
            old(self).inflight_bytes + event.data@.len() <= old(self).send_window,
        ensures
            session_wf(*final(self)),
            n == old(self).next_event_number,
            final(self).next_event_number == old(self).next_event_number + 1,
            final(self).inflight@ == old(self).inflight@.push(Append { event_number: n, event }),
            final(self).inflight_bytes == old(self).inflight_bytes + event.data@.len(),
            final(self).last_acked_event_number == old(self).last_acked_event_number,
            final(self).state == old(self).state,
            final(self).pending@ == old(self).pending@,
            final(self).segment == old(self).segment,
            final(self).writer_id == old(self).writer_id,
            final(self).send_window == old(self).send_window,
    {
        let n = self.next_event_number;
        self.next_event_number = n + 1;
        let size = event.data.len();
        proof {
            lemma_inflight_bytes_push(
                self.inflight@,
                Append { event_number: n, event },
            );
        }
        self.inflight.push(Append { event_number: n, event });
        self.inflight_bytes = self.inflight_bytes + size;
        n
    }

    /// Sends as much waiting work as the window allows: the longest prefix
    /// of the waiting events whose payloads fit the send window goes into
    /// flight, numbered in submission order, with one send action each. The
    /// first waiting event that does not fit stays waiting — with everything
    /// behind it, so order holds — until acknowledgements free window space.
    pub fn drain_window(&mut self, acts: &mut Vec<Action>)
        requires
            session_wf(*old(self)),
            old(self).state == SessionState::Open,
            old(self).next_event_number + old(self).pending@.len() <= i64::MAX,
        ensures
            session_wf(*final(self)),
            final(self).segment == old(self).segment,
            final(self).writer_id == old(self).writer_id,
            final(self).state == SessionState::Open,
            final(self).last_acked_event_number == old(self).last_acked_event_number,
            final(self).send_window == old(self).send_window,
            final(acts)@.len() >= old(acts)@.len(),
            final(acts)@.take(old(acts)@.len() as int) == old(acts)@,
            exists|m: int| drained_to(*old(self), *final(self), old(acts)@, final(acts)@, m),
    {
        let ghost s0 = *self;
        let ghost acts0 = acts@;
        let ghost fl0 = self.inflight@.len() as int;
        proof {
            assert(self.pending@ =~= s0.pending@.skip(0));
            assert(self.inflight@.take(fl0) =~= s0.inflight@);
        }
        while self.pending.len() > 0
            invariant
                session_wf(*self),
                self.state == SessionState::Open,
                self.segment == s0.segment,
                self.writer_id == s0.writer_id,
                self.last_acked_event_number == s0.last_acked_event_number,
                self.send_window == s0.send_window,
                s0.next_event_number + s0.pending@.len() <= i64::MAX,
                fl0 == s0.inflight@.len(),
                self.pending@.len() <= s0.pending@.len(),
                self.pending@ == s0.pending@.skip(s0.pending@.len() - self.pending@.len()),
                self.next_event_number == s0.next_event_number + (s0.pending@.len()
                    - self.pending@.len()),
                self.inflight@.len() == fl0 + (s0.pending@.len() - self.pending@.len()),
                self.inflight@.take(fl0) == s0.inflight@,
                forall|j: int|
                    0 <= j < s0.pending@.len() - self.pending@.len() ==> (#[trigger] self.inflight@[
                    fl0 + j]).event_number == s0.next_event_number + j && self.inflight@[fl0
                        + j].event == s0.pending@[j],
                acts@.len() == acts0.len() + (s0.pending@.len() - self.pending@.len()),
                acts@.take(acts0.len() as int) == acts0,
                forall|j: int|
                    0 <= j < s0.pending@.len() - self.pending@.len() ==> ((#[trigger] acts@[
                    acts0.len() + j]) matches Action::SendAppend {
                        segment: aseg,
                        writer_id: awid,
                        event_number: an,
                        data: adata,
                    } && aseg == s0.segment && awid == s0.writer_id && an == s0.next_event_number
                        + j && adata@ == s0.pending@[j].data@),
            ensures
                self.pending@.len() > 0 ==> self.inflight_bytes + self.pending@[0].data@.len()
                    > self.send_window,
            decreases self.pending@.len(),
        {
            let ghost m = s0.pending@.len() - self.pending@.len();
            let size = self.pending[0].data.len();
            if size > self.send_window - self.inflight_bytes {
                break;
            }
            let ev = self.pending.remove(0);
            proof {
                assert(ev == s0.pending@[m as int]);
                assert(self.pending@ =~= s0.pending@.skip(m as int + 1));
            }
            let data = clone_bytes(&ev.data);
            let n = self.begin_append(ev);
            acts.push(
                Action::SendAppend {
                    segment: self.segment,
                    writer_id: self.writer_id,
                    event_number: n,
                    data,
                },
            );
            proof {
                assert(acts@.take(acts0.len() as int) =~= acts0);
                assert(self.inflight@.take(fl0) =~= s0.inflight@);
            }
        }
        proof {
            let m = s0.pending@.len() - self.pending@.len();
            assert(drained_to(s0, *self, acts0, acts@, m as int));
        }
    }

    /// Drains an acknowledgement. A valid one is strictly above the last
    /// and below the next number: every in-flight event up to it completes,
    /// in numbering order, and leaves the list. Anything else is a
    /// protocol violation and closes the session with its list intact, for
    /// resend.
    pub fn on_data_appended(&mut self, acked: i64) -> (r: AckOutcome)
        requires
            session_wf(*old(self)),
            old(self).state == SessionState::Open,
        ensures
            session_wf(*final(self)),
            final(self).segment == old(self).segment,
            final(self).writer_id == old(self).writer_id,
            final(self).pending@ == old(self).pending@,
            final(self).next_event_number == old(self).next_event_number,
            final(self).send_window == old(self).send_window,
            !(old(self).last_acked_event_number < acked < old(self).next_event_number) ==> {
                &&& r is ProtocolViolation
                &&& final(self).state == SessionState::Closed
                &&& final(self).inflight@ == old(self).inflight@
                &&& final(self).last_acked_event_number == old(self).last_acked_event_number
            },
            (old(self).last_acked_event_number < acked < old(self).next_event_number) ==> (match r {
                AckOutcome::Completed(ids) => {
                    exists|k: int|
                        {
                            &&& 0 <= k <= old(self).inflight@.len()
                            &&& (forall|i: int|
                                0 <= i < k ==> (#[trigger] old(self).inflight@[i]).event_number
                                    <= acked)
                            &&& (forall|i: int|
                                k <= i < old(self).inflight@.len() ==> (#[trigger] old(
                                    self,
                                ).inflight@[i]).event_number > acked)
                            &&& ids@ == old(self).inflight@.take(k).map_values(
                                (|a: Append| a.event.completion_id),
                            )
                            &&& final(self).inflight@ == old(self).inflight@.skip(k)
                        }
                },
                AckOutcome::ProtocolViolation => false,
            }) && final(self).state == SessionState::Open && final(self).last_acked_event_number
                == acked,
    {
        if !(self.last_acked_event_number < acked && acked < self.next_event_number) {
            self.state = SessionState::Closed;
            return AckOutcome::ProtocolViolation;
        }
        let mut ids: Vec<u64> = Vec::new();
        let mut freed: usize = 0;
        let mut k: usize = 0;
        let n = self.inflight.len();
        proof {
            lemma_inflight_bytes_nonneg(self.inflight@);
        }
        while k < n && self.inflight[k].event_number <= acked
            invariant
                k <= n,
                n == self.inflight@.len(),
                *self == *old(self),
                session_wf(*self),
                forall|i: int| 0 <= i < k ==> (#[trigger] self.inflight@[i]).event_number <= acked,
                ids@ == self.inflight@.take(k as int).map_values(
                    (|a: Append| a.event.completion_id),
                ),
                freed == spec_inflight_bytes(self.inflight@.take(k as int)),
                freed <= self.inflight_bytes,
            decreases n - k,
        {
            ids.push(self.inflight[k].event.completion_id);
            let size = self.inflight[k].event.data.len();
            proof {
                assert(self.inflight@.take(k as int + 1) =~= self.inflight@.take(
                    k as int,
                ).push(self.inflight@[k as int]));
                assert(ids@ =~= self.inflight@.take(k as int + 1).map_values(
                    (|a: Append| a.event.completion_id),
                ));
                lemma_inflight_bytes_push(
                    self.inflight@.take(k as int),
                    self.inflight@[k as int],
                );
                lemma_inflight_bytes_split(self.inflight@, k as int + 1);
                lemma_inflight_bytes_nonneg(self.inflight@.skip(k as int + 1));
            }
            freed = freed + size;
            k = k + 1;
        }
        proof {
            if k < n {
                assert(forall|i: int|
                    k <= i < n ==> (#[trigger] self.inflight@[i]).event_number >= self.inflight@[
                    k as int].event_number);
            }
            lemma_inflight_bytes_split(self.inflight@, k as int);
            lemma_inflight_bytes_nonneg(self.inflight@.skip(k as int));
        }
        let tail = self.inflight.split_off(k);
        self.inflight = tail;
        self.inflight_bytes = self.inflight_bytes - freed;
        self.last_acked_event_number = acked;
        AckOutcome::Completed(ids)
    }

    /// The segment was sealed or lost: the session stops accepting work and
    /// waits to be drained.
    pub fn mark_sealing(&mut self)
        requires
            session_wf(*old(self)),
        ensures
            session_wf(*final(self)),
            *final(self) == (SegmentSession { state: SessionState::Sealing, ..*old(self) }),
    {
        self.state = SessionState::Sealing;
    }

    /// Takes every event the session still owes — unacknowledged in-flight
    /// ones first, in numbering order, then the ones still waiting for
    /// setup — and closes the session. Nothing is lost: the reactor
    /// resends them all through the selector.
    pub fn drain_for_resend(&mut self) -> (evs: Vec<PendingEvent>)
        requires
            session_wf(*old(self)),
        ensures
            session_wf(*final(self)),
            final(self).state == SessionState::Closed,
            final(self).inflight@ == Seq::<Append>::empty(),
            final(self).pending@ == Seq::<PendingEvent>::empty(),
            evs@ == old(self).inflight@.map_values((|a: Append| a.event)) + old(self).pending@,
    {
        let ghost olds = *old(self);
        let mut evs: Vec<PendingEvent> = Vec::new();
        let mut rest = self.inflight.split_off(0);
        proof {
            assert(rest@ == olds.inflight@);
            assert(self.inflight@ =~= Seq::<Append>::empty());
        }
        let ghost total = rest@;
        let ghost mut taken: int = 0;
        while rest.len() > 0
            invariant
                0 <= taken && taken + rest@.len() == total.len(),
                rest@ == total.skip(taken),
                evs@ == total.take(taken).map_values((|a: Append| a.event)),
            decreases rest@.len(),
        {
            let a = rest.remove(0);
            proof {
                assert(a == total[taken]);
                assert(rest@ =~= total.skip(taken + 1));
                assert(total.take(taken + 1) =~= total.take(taken).push(total[taken]));
                assert(evs@.push(a.event) =~= total.take(taken + 1).map_values(
                    (|a: Append| a.event),
                ));
            }
            evs.push(a.event);
            proof {
                taken = taken + 1;
            }
        }
        proof {
            assert(total.take(taken) =~= total);
        }
        let mut waiting = self.pending.split_off(0);
        evs.append(&mut waiting);
        self.state = SessionState::Closed;
        self.inflight_bytes = 0;
        proof {
            assert(self.pending@ =~= Seq::<PendingEvent>::empty());
            assert(evs@ =~= olds.inflight@.map_values((|a: Append| a.event)) + olds.pending@);
        }
        evs
    }
}

/// A verified byte copy, so actions can carry an event's payload while the
/// event itself stays in flight.
fn clone_bytes(v: &Vec<u8>) -> (r: Vec<u8>)
    ensures
        r@ == v@,
{
    let mut r: Vec<u8> = Vec::new();
    let n = v.len();
    let mut k: usize = 0;
    while k < n
        invariant
            k <= n,
            n == v@.len(),
            r@ == v@.take(k as int),
        decreases n - k,
    {
        r.push(v[k]);
        proof {
            assert(v@.take(k as int + 1) =~= v@.take(k as int).push(v@[k as int]));
        }
        k = k + 1;
    }
    proof {
        assert(v@.take(n as int) =~= v@);
    }
    r
}

/// Relies on uuid::Uuid::new_v4: a fresh random writer id. Nothing is
/// promised of its value.
#[verifier::external_body]
pub fn new_writer_id() -> u128 {
    uuid::Uuid::new_v4().as_u128()
}

/// What the reactor asks its surrounding task to do.
#[derive(Debug)]
pub enum Action {
    /// Open an append session: send `SetupAppend` for this segment under
    /// this writer id and route the `AppendSetup` reply back in.
    SendSetupAppend { segment: i64, writer_id: u128 },
    /// Frame and send this numbered append on the segment's connection.
    SendAppend { segment: i64, writer_id: u128, event_number: i64, data: Vec<u8> },
    /// Fulfil the caller's completion ticket.
    Complete { completion_id: u64, ok: bool },
    /// Ask the controller for the current active segments and route the
    /// answer back in as a segment update.
    FetchSegments,
}

/// The first session at or after `k` on this segment.
pub open spec fn find_seg_from(s: Seq<SegmentSession>, segment: i64, k: int) -> Option<int>
    decreases s.len() - k,
{
    if k < 0 || k >= s.len() {
        None
    } else if s[k].segment == segment {
        Some(k)
    } else {
        find_seg_from(s, segment, k + 1)
    }
}

/// The first session at or after `k` under this writer id.
pub open spec fn find_writer_from(s: Seq<SegmentSession>, writer_id: u128, k: int) -> Option<int>
    decreases s.len() - k,
{
    if k < 0 || k >= s.len() {
        None
    } else if s[k].writer_id == writer_id {
        Some(k)
    } else {
        find_writer_from(s, writer_id, k + 1)
    }
}

/// The reactor: the selector, the per-segment sessions, the bounded intake
/// queue, and the events parked for resend while a fresh segment set is
/// fetched.
pub struct Reactor {
    pub selector: SegmentSelector,
    pub sessions: Vec<SegmentSession>,
    /// Events accepted from callers, oldest first, at most `capacity`.
    pub queue: Vec<PendingEvent>,
    pub capacity: usize,
    /// Events whose segment failed, waiting for the refreshed segment set.
    pub parked: Vec<PendingEvent>,
    /// The send window every new session gets: its in-flight payload bytes
    /// never exceed it.
    pub send_window: usize,
}

/// The reactor invariant: every session is well formed, no two sessions
/// serve one segment, and the intake queue respects its capacity.
pub open spec fn reactor_wf(r: Reactor) -> bool {
    &&& forall|i: int| 0 <= i < r.sessions@.len() ==> session_wf(#[trigger] r.sessions@[i])
    &&& forall|i: int, j: int|
        0 <= i < j < r.sessions@.len() ==> r.sessions@[i].segment != r.sessions@[j].segment
    &&& r.queue@.len() <= r.capacity
}

/// Where the selector of `r` would send `ev`.
pub open spec fn spec_target(r: Reactor, ev: PendingEvent) -> Option<i64> {
    match ev.routing_key {
        Some(k) => spec_select(r.selector.entries@, route_hash_of(k@)),
        None => {
            if r.selector.entries@.len() == 0 {
                None
            } else {
                Some(
                    r.selector.entries@[(r.selector.dealt % (
                    r.selector.entries@.len() as u64)) as int].segment,
                )
            }
        },
    }
}

// ---------------------------------------------------------------------------
// Ticket accounting: the bag of completion tickets the reactor still owes.
// Routing conserves it — an event's ticket ends up in flight, pending,
// parked, or failed, exactly once — which is what makes resend-after-scaling
// lose nothing.
// ---------------------------------------------------------------------------
/// The completion tickets of a run of events, as a bag.
pub open spec fn event_ids(evs: Seq<PendingEvent>) -> Multiset<u64> {
    evs.map_values(|e: PendingEvent| e.completion_id).to_multiset()
}

/// The completion tickets of a run of numbered appends, as a bag.
pub open spec fn append_ids(aps: Seq<Append>) -> Multiset<u64> {
    aps.map_values(|a: Append| a.event.completion_id).to_multiset()
}

/// Every ticket one session still owes: in flight or waiting for setup.
pub open spec fn session_ids(s: SegmentSession) -> Multiset<u64> {
    append_ids(s.inflight@).add(event_ids(s.pending@))
}

/// Every ticket the sessions together still owe.
pub open spec fn sessions_ids(ss: Seq<SegmentSession>) -> Multiset<u64>
    decreases ss.len(),
{
    if ss.len() == 0 {
        Multiset::empty()
    } else {
        sessions_ids(ss.drop_last()).add(session_ids(ss.last()))
    }
}

/// Every ticket the reactor still owes past its intake queue: held by a
/// session or parked for resend.
pub open spec fn owned_ids(r: Reactor) -> Multiset<u64> {
    sessions_ids(r.sessions@).add(event_ids(r.parked@))
}

/// The tickets these actions fail.
pub open spec fn failed_ids(acts: Seq<Action>) -> Multiset<u64>
    decreases acts.len(),
{
    if acts.len() == 0 {
        Multiset::empty()
    } else {
        failed_ids(acts.drop_last()).add(
            match acts.last() {
                Action::Complete { completion_id, ok } => if !ok {
                    Multiset::singleton(completion_id)
                } else {
                    Multiset::empty()
                },
                _ => Multiset::empty(),
            },
        )
    }
}

proof fn lemma_event_ids_empty()
    ensures
        event_ids(Seq::<PendingEvent>::empty()) == Multiset::<u64>::empty(),
{
    broadcast use vstd::multiset::group_multiset_axioms;
    broadcast use vstd::seq_lib::group_to_multiset_ensures;

    let m = Seq::<PendingEvent>::empty().map_values(|e: PendingEvent| e.completion_id);
    assert(m =~= Seq::<u64>::empty());
    assert(m.to_multiset().len() == 0);
    assert(m.to_multiset() =~= Multiset::<u64>::empty());
}

proof fn lemma_append_ids_empty()
    ensures
        append_ids(Seq::<Append>::empty()) == Multiset::<u64>::empty(),
{
    broadcast use vstd::multiset::group_multiset_axioms;
    broadcast use vstd::seq_lib::group_to_multiset_ensures;

    let m = Seq::<Append>::empty().map_values(|a: Append| a.event.completion_id);
    assert(m =~= Seq::<u64>::empty());
    assert(m.to_multiset().len() == 0);
    assert(m.to_multiset() =~= Multiset::<u64>::empty());
}

proof fn lemma_event_ids_push(evs: Seq<PendingEvent>, ev: PendingEvent)
    ensures
        event_ids(evs.push(ev)) == event_ids(evs).insert(ev.completion_id),
{
    broadcast use vstd::multiset::group_multiset_axioms;
    broadcast use vstd::seq_lib::group_to_multiset_ensures;

    assert(evs.push(ev).map_values(|e: PendingEvent| e.completion_id) =~= evs.map_values(
        (|e: PendingEvent| e.completion_id),
    ).push(ev.completion_id));
}

proof fn lemma_append_ids_push(aps: Seq<Append>, a: Append)
    ensures
        append_ids(aps.push(a)) == append_ids(aps).insert(a.event.completion_id),
{
    broadcast use vstd::multiset::group_multiset_axioms;
    broadcast use vstd::seq_lib::group_to_multiset_ensures;

    assert(aps.push(a).map_values(|x: Append| x.event.completion_id) =~= aps.map_values(
        (|x: Append| x.event.completion_id),
    ).push(a.event.completion_id));
}

proof fn lemma_event_ids_remove_first(evs: Seq<PendingEvent>)
    requires
        evs.len() > 0,
    ensures
        event_ids(evs.remove(0)) == event_ids(evs).remove(evs[0].completion_id),
        event_ids(evs).count(evs[0].completion_id) >= 1,
{
    broadcast use vstd::multiset::group_multiset_axioms;
    broadcast use vstd::seq_lib::group_to_multiset_ensures;

    let m = evs.map_values(|e: PendingEvent| e.completion_id);
    assert(evs.remove(0).map_values(|e: PendingEvent| e.completion_id) =~= m.remove(0));
    assert(m.remove(0).to_multiset() =~= m.to_multiset().remove(m[0]));
    assert(m.contains(m[0]));
}

proof fn lemma_sessions_ids_push(ss: Seq<SegmentSession>, s: SegmentSession)
    ensures
        sessions_ids(ss.push(s)) == sessions_ids(ss).add(session_ids(s)),
{
    assert(ss.push(s).drop_last() =~= ss);
    assert(ss.push(s).last() == s);
}

proof fn lemma_sessions_ids_update(ss: Seq<SegmentSession>, i: int, s2: SegmentSession)
    requires
        0 <= i < ss.len(),
    ensures
        sessions_ids(ss.update(i, s2)).add(session_ids(ss[i])) == sessions_ids(ss).add(
            session_ids(s2),
        ),
    decreases ss.len(),
{
    broadcast use vstd::multiset::group_multiset_axioms;

    assert(sessions_ids(ss) == sessions_ids(ss.drop_last()).add(session_ids(ss.last())));
    if i == ss.len() - 1 {
        assert(ss.update(i, s2).drop_last() =~= ss.drop_last());
        assert(ss.update(i, s2).last() == s2);
        assert(sessions_ids(ss.update(i, s2)) == sessions_ids(ss.update(i, s2).drop_last()).add(
            session_ids(ss.update(i, s2).last()),
        ));
        assert(sessions_ids(ss.update(i, s2)) == sessions_ids(ss.drop_last()).add(
            session_ids(s2),
        ));
        assert(ss[i] == ss.last());
        assert(sessions_ids(ss.update(i, s2)).add(session_ids(ss[i])) =~= sessions_ids(ss).add(
            session_ids(s2),
        ));
    } else {
        assert(ss.update(i, s2).drop_last() =~= ss.drop_last().update(i, s2));
        assert(ss.update(i, s2).last() == ss.last());
        assert(sessions_ids(ss.update(i, s2)) == sessions_ids(ss.update(i, s2).drop_last()).add(
            session_ids(ss.update(i, s2).last()),
        ));
        assert(sessions_ids(ss.update(i, s2)) == sessions_ids(ss.drop_last().update(i, s2)).add(
            session_ids(ss.last()),
        ));
        lemma_sessions_ids_update(ss.drop_last(), i, s2);
        assert(ss.drop_last()[i] == ss[i]);
        assert(sessions_ids(ss.update(i, s2)).add(session_ids(ss[i])) =~= sessions_ids(ss).add(
            session_ids(s2),
        ));
    }
}

/// Replacing the session at `i` with one owing one more ticket adds that
/// ticket to what the reactor owes.
proof fn lemma_owned_update_insert(
    ss: Seq<SegmentSession>,
    i: int,
    s2: SegmentSession,
    parked: Seq<PendingEvent>,
    id: u64,
)
    requires
        0 <= i < ss.len(),
        session_ids(s2) == session_ids(ss[i]).insert(id),
    ensures
        sessions_ids(ss.update(i, s2)).add(event_ids(parked)) == sessions_ids(ss).add(
            event_ids(parked),
        ).insert(id),
{
    broadcast use vstd::multiset::group_multiset_axioms;

    lemma_sessions_ids_update(ss, i, s2);
    assert forall|x: u64|
        sessions_ids(ss.update(i, s2)).add(event_ids(parked)).count(x) == sessions_ids(ss).add(
            event_ids(parked),
        ).insert(id).count(x) by {
        assert(sessions_ids(ss.update(i, s2)).add(session_ids(ss[i])).count(x) == sessions_ids(
            ss,
        ).add(session_ids(ss[i]).insert(id)).count(x));
    }
    assert(sessions_ids(ss.update(i, s2)).add(event_ids(parked)) =~= sessions_ids(ss).add(
        event_ids(parked),
    ).insert(id));
}

/// The tickets failed by the one action just pushed.
proof fn lemma_failed_suffix_push(acts0: Seq<Action>, a: Action)
    ensures
        failed_ids(acts0.push(a).skip(acts0.len() as int)) == (match a {
            Action::Complete { completion_id, ok } => if !ok {
                Multiset::singleton(completion_id)
            } else {
                Multiset::<u64>::empty()
            },
            _ => Multiset::<u64>::empty(),
        }),
{
    broadcast use vstd::multiset::group_multiset_axioms;

    let suf = acts0.push(a).skip(acts0.len() as int);
    assert(suf =~= seq![a]);
    assert(seq![a].drop_last() =~= Seq::<Action>::empty());
    assert(seq![a].last() == a);
    assert(failed_ids(Seq::<Action>::empty()) == Multiset::<u64>::empty());
    assert(failed_ids(seq![a]) =~= (match a {
        Action::Complete { completion_id, ok } => if !ok {
            Multiset::singleton(completion_id)
        } else {
            Multiset::<u64>::empty()
        },
        _ => Multiset::<u64>::empty(),
    }));
}

proof fn lemma_add_empty_id(m: Multiset<u64>)
    ensures
        m.add(Multiset::<u64>::empty()) == m,
{
    broadcast use vstd::multiset::group_multiset_axioms;

    assert(m.add(Multiset::<u64>::empty()) =~= m);
}

/// Putting one more event in flight adds its ticket to the session's debt.
proof fn lemma_session_ids_inflight_push(
    s0: SegmentSession,
    s2: SegmentSession,
    n: i64,
    ev0: PendingEvent,
)
    requires
        s2.inflight@ == s0.inflight@.push(Append { event_number: n, event: ev0 }),
        s2.pending@ == s0.pending@,
    ensures
        session_ids(s2) == session_ids(s0).insert(ev0.completion_id),
{
    broadcast use vstd::multiset::group_multiset_axioms;

    lemma_append_ids_push(s0.inflight@, Append { event_number: n, event: ev0 });
    assert(session_ids(s2) =~= session_ids(s0).insert(ev0.completion_id));
}

/// Holding one more event for setup adds its ticket to the session's debt.
proof fn lemma_session_ids_pending_push(s0: SegmentSession, s2: SegmentSession, ev0: PendingEvent)
    requires
        s2.pending@ == s0.pending@.push(ev0),
        s2.inflight@ == s0.inflight@,
    ensures
        session_ids(s2) == session_ids(s0).insert(ev0.completion_id),
{
    broadcast use vstd::multiset::group_multiset_axioms;

    lemma_event_ids_push(s0.pending@, ev0);
    assert(session_ids(s2) =~= session_ids(s0).insert(ev0.completion_id));
}

/// Parking one more event adds its ticket to what the reactor owes.
proof fn lemma_owned_parked_push(
    ss: Seq<SegmentSession>,
    parked: Seq<PendingEvent>,
    ev0: PendingEvent,
)
    ensures
        sessions_ids(ss).add(event_ids(parked.push(ev0))) == sessions_ids(ss).add(
            event_ids(parked),
        ).insert(ev0.completion_id),
{
    broadcast use vstd::multiset::group_multiset_axioms;

    lemma_event_ids_push(parked, ev0);
    assert(sessions_ids(ss).add(event_ids(parked.push(ev0))) =~= sessions_ids(ss).add(
        event_ids(parked),
    ).insert(ev0.completion_id));
}

/// A fresh session holding one waiting event adds its ticket to what the
/// reactor owes.
proof fn lemma_owned_new_session(
    ss: Seq<SegmentSession>,
    ns: SegmentSession,
    parked: Seq<PendingEvent>,
    ev0: PendingEvent,
)
    requires
        ns.inflight@ == Seq::<Append>::empty(),
        ns.pending@ == seq![ev0],
    ensures
        sessions_ids(ss.push(ns)).add(event_ids(parked)) == sessions_ids(ss).add(
            event_ids(parked),
        ).insert(ev0.completion_id),
{
    broadcast use vstd::multiset::group_multiset_axioms;

    lemma_sessions_ids_push(ss, ns);
    lemma_append_ids_empty();
    lemma_event_ids_empty();
    assert(seq![ev0] =~= Seq::<PendingEvent>::empty().push(ev0));
    lemma_event_ids_push(Seq::<PendingEvent>::empty(), ev0);
    assert(session_ids(ns) == Multiset::<u64>::empty().insert(ev0.completion_id));
    assert(sessions_ids(ss.push(ns)).add(event_ids(parked)) =~= sessions_ids(ss).add(
        event_ids(parked),
    ).insert(ev0.completion_id));
}

/// Splitting a run of actions splits the tickets it fails.
proof fn lemma_failed_ids_concat(a: Seq<Action>, b: Seq<Action>)
    ensures
        failed_ids(a + b) == failed_ids(a).add(failed_ids(b)),
    decreases b.len(),
{
    broadcast use vstd::multiset::group_multiset_axioms;

    if b.len() == 0 {
        assert(a + b =~= a);
        assert(failed_ids(b) == Multiset::<u64>::empty());
        assert(failed_ids(a).add(failed_ids(b)) =~= failed_ids(a));
    } else {
        assert((a + b).drop_last() =~= a + b.drop_last());
        assert((a + b).last() == b.last());
        lemma_failed_ids_concat(a, b.drop_last());
        assert(failed_ids(a + b) =~= failed_ids(a).add(failed_ids(b)));
    }
}

impl Reactor {
    /// A reactor over the given selector, with the given intake capacity and
    /// per-session send window.
    pub fn new(selector: SegmentSelector, capacity: usize, send_window: usize) -> (r: Reactor)
        ensures
            r.selector == selector,
            r.capacity == capacity,
            r.send_window == send_window,
            r.sessions@ == Seq::<SegmentSession>::empty(),
            r.queue@ == Seq::<PendingEvent>::empty(),
            r.parked@ == Seq::<PendingEvent>::empty(),
            reactor_wf(r),
    {
        Reactor {
            selector,
            sessions: Vec::new(),
            queue: Vec::new(),
            capacity,
            parked: Vec::new(),
            send_window,
        }
    }

    /// One caller submits an event. A full queue rejects it — the caller
    /// must hold it and back off — and nothing already queued is touched or
    /// dropped.
    pub fn offer(&mut self, ev: PendingEvent) -> (accepted: bool)
        requires
            reactor_wf(*old(self)),
        ensures
            reactor_wf(*final(self)),
            old(self).queue@.len() < old(self).capacity ==> accepted && final(self).queue@ == old(
                self,
            ).queue@.push(ev),
            old(self).queue@.len() >= old(self).capacity ==> !accepted && final(self).queue@
                == old(self).queue@,
            final(self).sessions@ == old(self).sessions@,
            final(self).parked@ == old(self).parked@,
            final(self).selector == old(self).selector,
            final(self).capacity == old(self).capacity,
    {
        if self.queue.len() < self.capacity {
            self.queue.push(ev);
            true
        } else {
            false
        }
    }

    /// The reactor takes the oldest queued event, if any.
    pub fn take_next(&mut self) -> (r: Option<PendingEvent>)
        requires
            reactor_wf(*old(self)),
        ensures
            reactor_wf(*final(self)),
            old(self).queue@.len() > 0 ==> r == Some(old(self).queue@.first()) && final(self).queue@ == old(self).queue@.drop_first(),
            old(self).queue@.len() == 0 ==> r is None && final(self).queue@ == old(self).queue@,
            final(self).sessions@ == old(self).sessions@,
            final(self).parked@ == old(self).parked@,
            final(self).selector == old(self).selector,
            final(self).capacity == old(self).capacity,
    {
        if self.queue.len() > 0 {
            let ev = self.queue.remove(0);
            proof {
                assert(self.queue@ =~= old(self).queue@.drop_first());
            }
            Some(ev)
        } else {
            None
        }
    }

    /// The index of the session on this segment, scanning in order.
    fn find_by_segment(&self, segment: i64) -> (r: Option<usize>)
        ensures
            (match r {
                Some(i) => find_seg_from(self.sessions@, segment, 0) == Some(i as int) && i
                    < self.sessions@.len() && self.sessions@[i as int].segment == segment,
                None => find_seg_from(self.sessions@, segment, 0) is None,
            }),
    {
        let n = self.sessions.len();
        let mut k: usize = 0;
        while k < n
            invariant
                k <= n,
                n == self.sessions@.len(),
                find_seg_from(self.sessions@, segment, 0) == find_seg_from(
                    self.sessions@,
                    segment,
                    k as int,
                ),
            decreases n - k,
        {
            if self.sessions[k].segment == segment {
                return Some(k);
            }
            k = k + 1;
        }
        None
    }

    /// The index of the session under this writer id, scanning in order.
    fn find_by_writer(&self, writer_id: u128) -> (r: Option<usize>)
        ensures
            (match r {
                Some(i) => find_writer_from(self.sessions@, writer_id, 0) == Some(i as int) && i
                    < self.sessions@.len() && self.sessions@[i as int].writer_id == writer_id,
                None => find_writer_from(self.sessions@, writer_id, 0) is None,
            }),
    {
        let n = self.sessions.len();
        let mut k: usize = 0;
        while k < n
            invariant
                k <= n,
                n == self.sessions@.len(),
                find_writer_from(self.sessions@, writer_id, 0) == find_writer_from(
                    self.sessions@,
                    writer_id,
                    k as int,
                ),
            decreases n - k,
        {
            if self.sessions[k].writer_id == writer_id {
                return Some(k);
            }
            k = k + 1;
        }
        None
    }

    /// Routes one accepted event. The selector picks the target segment —
    /// by the key's hash, or round-robin when unkeyed. An existing open
    /// session numbers the event and sends it; a session still setting up
    /// or sealing holds it; a missing session is created, asking the store
    /// for setup first. With no active segment at all (or a session whose
    /// numbering is exhausted) the event fails its caller rather than being
    /// dropped silently.
    pub fn route_event(&mut self, ev: PendingEvent, acts: &mut Vec<Action>)
        requires
            reactor_wf(*old(self)),
        ensures
            reactor_wf(*final(self)),
            final(self).queue@ == old(self).queue@,
            final(self).capacity == old(self).capacity,
            final(self).selector.entries@ == old(self).selector.entries@,
            final(acts)@.len() >= old(acts)@.len(),
            final(acts)@.take(old(acts)@.len() as int) == old(acts)@,
            owned_ids(*final(self)).add(
                failed_ids(final(acts)@.skip(old(acts)@.len() as int)),
            ) == owned_ids(*old(self)).insert(ev.completion_id),
            spec_target(*old(self), ev) is None ==> final(acts)@ == old(acts)@.push(
                Action::Complete { completion_id: ev.completion_id, ok: false },
            ) && final(self).sessions@ == old(self).sessions@ && final(self).parked@ == old(
                self,
            ).parked@,
            (match spec_target(*old(self), ev) {
                Some(seg) => (match find_seg_from(old(self).sessions@, seg, 0) {
                    Some(i) => {
                        let s = old(self).sessions@[i];
                        let s2 = final(self).sessions@[i];
                        &&& (s.state == SessionState::Open && s.next_event_number < i64::MAX
                            && s.inflight_bytes + ev.data@.len() <= s.send_window) ==> {
                            &&& final(self).sessions@ == old(self).sessions@.update(i, s2)
                            &&& s2.segment == s.segment
                            &&& s2.writer_id == s.writer_id
                            &&& s2.state == s.state
                            &&& s2.next_event_number == s.next_event_number + 1
                            &&& s2.last_acked_event_number == s.last_acked_event_number
                            &&& s2.inflight@ == s.inflight@.push(
                                Append { event_number: s.next_event_number, event: ev },
                            )
                            &&& s2.pending@ == s.pending@
                            &&& final(acts)@ == old(acts)@.push(final(acts)@.last())
                            &&& final(acts)@.last() matches Action::SendAppend {
                                segment: aseg,
                                writer_id: awid,
                                event_number: an,
                                data: adata,
                            } && aseg == seg && awid == s.writer_id && an == s.next_event_number
                                && adata@ == ev.data@
                            &&& final(self).parked@ == old(self).parked@
                        }
                        &&& (s.state == SessionState::Open && s.next_event_number == i64::MAX)
                            ==> final(acts)@ == old(acts)@.push(
                            Action::Complete { completion_id: ev.completion_id, ok: false },
                        ) && final(self).sessions@ == old(self).sessions@ && final(self).parked@
                            == old(self).parked@
                        &&& (s.state == SessionState::Open && s.next_event_number < i64::MAX
                            && ev.data@.len() > s.send_window) ==> final(acts)@ == old(
                            acts,
                        )@.push(Action::Complete { completion_id: ev.completion_id, ok: false })
                            && final(self).sessions@ == old(self).sessions@ && final(self).parked@
                            == old(self).parked@
                        &&& (s.state == SessionState::Open && s.next_event_number < i64::MAX
                            && ev.data@.len() <= s.send_window && s.inflight_bytes
                            + ev.data@.len() > s.send_window) ==> {
                            &&& final(self).sessions@ == old(self).sessions@.update(i, s2)
                            &&& s2.segment == s.segment
                            &&& s2.writer_id == s.writer_id
                            &&& s2.state == s.state
                            &&& s2.next_event_number == s.next_event_number
                            &&& s2.last_acked_event_number == s.last_acked_event_number
                            &&& s2.inflight@ == s.inflight@
                            &&& s2.pending@ == s.pending@.push(ev)
                            &&& final(acts)@ == old(acts)@
                            &&& final(self).parked@ == old(self).parked@
                        }
                        &&& s.state == SessionState::SetupPending ==> {
                            &&& final(self).sessions@ == old(self).sessions@.update(i, s2)
                            &&& s2.segment == s.segment
                            &&& s2.writer_id == s.writer_id
                            &&& s2.state == s.state
                            &&& s2.next_event_number == s.next_event_number
                            &&& s2.last_acked_event_number == s.last_acked_event_number
                            &&& s2.inflight@ == s.inflight@
                            &&& s2.pending@ == s.pending@.push(ev)
                            &&& final(acts)@ == old(acts)@
                            &&& final(self).parked@ == old(self).parked@
                        }
                        &&& (s.state == SessionState::Sealing || s.state == SessionState::Closed)
                            ==> final(self).parked@ == old(self).parked@.push(ev) && final(self).sessions@ == old(self).sessions@ && final(acts)@ == old(acts)@
                    },
                    None => {
                        &&& final(self).sessions@.len() == old(self).sessions@.len() + 1
                        &&& final(self).sessions@.take(old(self).sessions@.len() as int) == old(
                            self,
                        ).sessions@
                        &&& {
                            let ns = final(self).sessions@.last();
                            &&& ns.segment == seg
                            &&& ns.state == SessionState::SetupPending
                            &&& ns.inflight@ == Seq::<Append>::empty()
                            &&& ns.pending@ == seq![ev]
                            &&& final(acts)@ == old(acts)@.push(
                                Action::SendSetupAppend { segment: seg, writer_id: ns.writer_id },
                            )
                        }
                        &&& final(self).parked@ == old(self).parked@
                    },
                }),
                None => true,
            }),
    {
        let ghost ev0 = ev;
        let target: Option<i64> = match &ev.routing_key {
            Some(k) => self.selector.segment_for_key(k.as_slice()),
            None => self.selector.segment_round_robin(),
        };
        let seg = match target {
            Some(seg) => seg,
            None => {
                acts.push(Action::Complete { completion_id: ev.completion_id, ok: false });
                proof {
                    lemma_failed_suffix_push(
                        old(acts)@,
                        Action::Complete { completion_id: ev0.completion_id, ok: false },
                    );
                    assert(acts@.take(old(acts)@.len() as int) =~= old(acts)@);
                }
                return ;
            },
        };
        match self.find_by_segment(seg) {
            Some(i) => {
                let mut s = self.sessions.remove(i);
                let ghost s0 = s;
                match s.state {
                    SessionState::Open => {
                        if s.next_event_number == i64::MAX {
                            self.sessions.insert(i, s);
                            proof {
                                assert(self.sessions@ =~= old(self).sessions@);
                            }
                            acts.push(
                                Action::Complete { completion_id: ev.completion_id, ok: false },
                            );
                            proof {
                                lemma_failed_suffix_push(
                                    old(acts)@,
                                    Action::Complete { completion_id: ev0.completion_id, ok: false },
                                );
                                assert(acts@.take(old(acts)@.len() as int) =~= old(acts)@);
                            }
                        } else if ev.data.len() > s.send_window {
                            // The payload can never fit this window: fail the
                            // caller rather than hold the event forever.
                            self.sessions.insert(i, s);
                            proof {
                                assert(self.sessions@ =~= old(self).sessions@);
                            }
                            acts.push(
                                Action::Complete { completion_id: ev.completion_id, ok: false },
                            );
                            proof {
                                lemma_failed_suffix_push(
                                    old(acts)@,
                                    Action::Complete { completion_id: ev0.completion_id, ok: false },
                                );
                                assert(acts@.take(old(acts)@.len() as int) =~= old(acts)@);
                            }
                        } else if ev.data.len() > s.send_window - s.inflight_bytes {
                            // The window is full: suspend the event behind the
                            // session until acknowledgements free space.
                            s.pending.push(ev);
                            self.sessions.insert(i, s);
                            proof {
                                assert(self.sessions@ =~= old(self).sessions@.update(
                                    i as int,
                                    self.sessions@[i as int],
                                ));
                                lemma_session_ids_pending_push(s0, self.sessions@[i as int], ev0);
                                lemma_owned_update_insert(
                                    old(self).sessions@,
                                    i as int,
                                    self.sessions@[i as int],
                                    old(self).parked@,
                                    ev0.completion_id,
                                );
                                assert(acts@.skip(old(acts)@.len() as int) =~= Seq::<
                                    Action,
                                >::empty());
                                lemma_add_empty_id(owned_ids(*self));
                                assert(acts@.take(old(acts)@.len() as int) =~= old(acts)@);
                            }
                        } else {
                            let data = clone_bytes(&ev.data);
                            let writer_id = s.writer_id;
                            let n = s.begin_append(ev);
                            self.sessions.insert(i, s);
                            proof {
                                assert(self.sessions@ =~= old(self).sessions@.update(
                                    i as int,
                                    self.sessions@[i as int],
                                ));
                            }
                            acts.push(
                                Action::SendAppend { segment: seg, writer_id, event_number: n, data },
                            );
                            proof {
                                lemma_session_ids_inflight_push(
                                    s0,
                                    self.sessions@[i as int],
                                    n,
                                    ev0,
                                );
                                lemma_owned_update_insert(
                                    old(self).sessions@,
                                    i as int,
                                    self.sessions@[i as int],
                                    old(self).parked@,
                                    ev0.completion_id,
                                );
                                lemma_failed_suffix_push(old(acts)@, acts@.last());
                                lemma_add_empty_id(owned_ids(*self));
                                assert(acts@.take(old(acts)@.len() as int) =~= old(acts)@);
                            }
                        }
                    },
                    SessionState::SetupPending => {
                        s.pending.push(ev);
                        self.sessions.insert(i, s);
                        proof {
                            assert(self.sessions@ =~= old(self).sessions@.update(
                                i as int,
                                self.sessions@[i as int],
                            ));
                            lemma_session_ids_pending_push(s0, self.sessions@[i as int], ev0);
                            lemma_owned_update_insert(
                                old(self).sessions@,
                                i as int,
                                self.sessions@[i as int],
                                old(self).parked@,
                                ev0.completion_id,
                            );
                            assert(acts@.skip(old(acts)@.len() as int) =~= Seq::<Action>::empty());
                            lemma_add_empty_id(owned_ids(*self));
                            assert(acts@.take(old(acts)@.len() as int) =~= old(acts)@);
                        }
                    },
                    _ => {
                        self.sessions.insert(i, s);
                        proof {
                            assert(self.sessions@ =~= old(self).sessions@);
                        }
                        self.parked.push(ev);
                        proof {
                            lemma_owned_parked_push(
                                old(self).sessions@,
                                old(self).parked@,
                                ev0,
                            );
                            assert(acts@.skip(old(acts)@.len() as int) =~= Seq::<Action>::empty());
                            lemma_add_empty_id(owned_ids(*self));
                            assert(acts@.take(old(acts)@.len() as int) =~= old(acts)@);
                        }
                    },
                }
            },
            None => {
                let writer_id = new_writer_id();
                let mut ns = SegmentSession::new(seg, writer_id, self.send_window);
                ns.pending.push(ev);
                self.sessions.push(ns);
                proof {
                    assert(self.sessions@.take(old(self).sessions@.len() as int) =~= old(
                        self,
                    ).sessions@);
                    assert(forall|j: int|
                        0 <= j < old(self).sessions@.len() ==> old(self).sessions@[j].segment
                            != seg ==> self.sessions@[j].segment != seg);
                    lemma_find_none_means_no_match(old(self).sessions@, seg);
                }
                acts.push(Action::SendSetupAppend { segment: seg, writer_id });
                proof {
                    assert(self.sessions@.last().pending@ =~= seq![ev0]);
                    lemma_owned_new_session(
                        old(self).sessions@,
                        self.sessions@.last(),
                        old(self).parked@,
                        ev0,
                    );
                    lemma_failed_suffix_push(old(acts)@, acts@.last());
                    lemma_add_empty_id(owned_ids(*self));
                    assert(acts@.take(old(acts)@.len() as int) =~= old(acts)@);
                }
            },
        }
    }
}

impl Reactor {
    /// The store confirmed an append setup under this writer id, naming the
    /// last event number it already has (`i64::MIN` for none). The session
    /// opens, and every event that waited for it is numbered consecutively
    /// from one above that and sent, in submission order. A reply for an
    /// unknown writer or an already-open session changes nothing. A last
    /// event number so large the waiting events cannot be numbered is a
    /// protocol violation: the session's events are parked for resend and a
    /// fresh segment set is fetched.
    #[verifier::rlimit(100)]
    #[verifier::spinoff_prover]
    pub fn on_append_setup(&mut self, writer_id: u128, last_event_number: i64, acts: &mut Vec<
        Action,
    >)
        requires
            reactor_wf(*old(self)),
        ensures
            reactor_wf(*final(self)),
            final(self).queue@ == old(self).queue@,
            final(self).capacity == old(self).capacity,
            final(self).selector == old(self).selector,
            (match find_writer_from(old(self).sessions@, writer_id, 0) {
                Some(i) => {
                    let s = old(self).sessions@[i];
                    let s2 = final(self).sessions@[i];
                    let base = if last_event_number == i64::MIN {
                        0int
                    } else {
                        last_event_number + 1
                    };
                    let fits = last_event_number < i64::MAX && base + s.pending@.len()
                        <= i64::MAX;
                    &&& s.state != SessionState::SetupPending ==> final(self).sessions@ == old(
                        self,
                    ).sessions@ && final(acts)@ == old(acts)@ && final(self).parked@ == old(
                        self,
                    ).parked@
                    &&& (s.state == SessionState::SetupPending && fits) ==> {
                        &&& final(self).sessions@ == old(self).sessions@.update(i, s2)
                        &&& s2.segment == s.segment
                        &&& s2.writer_id == s.writer_id
                        &&& s2.state == SessionState::Open
                        &&& s2.last_acked_event_number == base - 1
                        &&& s2.send_window == s.send_window
                        &&& final(acts)@.take(old(acts)@.len() as int) == old(acts)@
                        &&& setup_drained(s, base, s2, old(acts)@, final(acts)@)
                        &&& final(self).parked@ == old(self).parked@
                    }
                    &&& (s.state == SessionState::SetupPending && !fits) ==> {
                        &&& final(self).sessions@ == old(self).sessions@.remove(i)
                        &&& final(self).parked@ == old(self).parked@ + s.inflight@.map_values(
                            (|a: Append| a.event),
                        ) + s.pending@
                        &&& final(acts)@ == old(acts)@.push(Action::FetchSegments)
                    }
                },
                None => final(self).sessions@ == old(self).sessions@ && final(acts)@ == old(
                    acts,
                )@ && final(self).parked@ == old(self).parked@,
            }),
    {
        let i = match self.find_by_writer(writer_id) {
            Some(i) => i,
            None => {
                return ;
            },
        };
        let is_setup_pending = match self.sessions[i].state {
            SessionState::SetupPending => true,
            _ => false,
        };
        if !is_setup_pending {
            return ;
        }
        let mut s = self.sessions.remove(i);
        let ghost s0 = s;
        let pending_len = s.pending.len();
        let fits = last_event_number < i64::MAX && (pending_len as i128) <= (i64::MAX as i128)
            - (if last_event_number == i64::MIN {
            0i128
        } else {
            (last_event_number as i128) + 1
        });
        if !fits {
            s.mark_sealing();
        let mut evs = s.drain_for_resend();
            self.parked.append(&mut evs);
            proof {
                assert(self.sessions@ =~= old(self).sessions@.remove(i as int));
            }
            acts.push(Action::FetchSegments);
            return ;
        }
        s.on_append_setup(last_event_number);
        let ghost base = if last_event_number == i64::MIN {
            0int
        } else {
            last_event_number + 1
        };
        let ghost mid = s;
        let ghost acts0 = acts@;
        s.drain_window(&mut *acts);
        proof {
            assert(acts0 == old(acts)@);
            assert(mid.next_event_number == base);
            assert(mid.pending@ == s0.pending@);
            assert(mid.inflight@ == s0.inflight@);
            assert(opened_session(s0, base).next_event_number == base);
            assert(opened_session(s0, base).pending@ == s0.pending@);
            let m0 = choose|m: int| drained_to(mid, s, acts0, acts@, m);
            lemma_drained_to_congruence(mid, opened_session(s0, base), s, acts0, acts@, m0);
            assert(exists|m: int| drained_to(opened_session(s0, base), s, acts0, acts@, m));
        }
        self.sessions.insert(i, s);
        proof {
            assert(self.sessions@ =~= old(self).sessions@.update(i as int, self.sessions@[
                i as int]));
            assert(self.sessions@[i as int] == s);
            assert(exists|m: int|
                drained_to(opened_session(s0, base), self.sessions@[i as int], old(acts)@, acts@, m));
            assert(setup_drained(s0, base, self.sessions@[i as int], old(acts)@, acts@));
            assert(final(acts)@.take(acts0.len() as int) == acts0);
        }
    }

    /// The store acknowledged appends under this writer id, up to and
    /// including `event_number`. Every in-flight event up to it completes
    /// its caller, in numbering order, exactly once, and its bytes leave the
    /// send window (`refill` then sends what was suspended on the window). A
    /// stale or impossible acknowledgement is a protocol violation: the
    /// session's events are parked for resend and a fresh segment set is
    /// fetched. A reply for an unknown writer or a session that is not open
    /// changes nothing.
    pub fn on_data_appended(&mut self, writer_id: u128, event_number: i64, acts: &mut Vec<Action>)
        requires
            reactor_wf(*old(self)),
        ensures
            reactor_wf(*final(self)),
            final(self).queue@ == old(self).queue@,
            final(self).capacity == old(self).capacity,
            final(self).selector == old(self).selector,
            (match find_writer_from(old(self).sessions@, writer_id, 0) {
                Some(i) => {
                    let s = old(self).sessions@[i];
                    let s2 = final(self).sessions@[i];
                    let valid = s.last_acked_event_number < event_number
                        < s.next_event_number;
                    &&& s.state != SessionState::Open ==> final(self).sessions@ == old(
                        self,
                    ).sessions@ && final(acts)@ == old(acts)@ && final(self).parked@ == old(
                        self,
                    ).parked@
                    &&& (s.state == SessionState::Open && valid) ==> {
                        &&& final(self).sessions@ == old(self).sessions@.update(i, s2)
                        &&& s2.segment == s.segment
                        &&& s2.writer_id == s.writer_id
                        &&& s2.state == SessionState::Open
                        &&& s2.next_event_number == s.next_event_number
                        &&& s2.last_acked_event_number == event_number
                        &&& s2.pending@ == s.pending@
                        &&& exists|k: int|
                            {
                                &&& 0 <= k <= s.inflight@.len()
                                &&& (forall|j: int|
                                    0 <= j < k ==> (#[trigger] s.inflight@[j]).event_number
                                        <= event_number)
                                &&& (forall|j: int|
                                    k <= j < s.inflight@.len() ==> (#[trigger] s.inflight@[
                                    j]).event_number > event_number)
                                &&& s2.inflight@ == s.inflight@.skip(k)
                                &&& final(acts)@.len() == old(acts)@.len() + k
                                &&& (forall|j: int|
                                    0 <= j < k ==> (#[trigger] final(acts)@[old(acts)@.len() + j])
                                        == (Action::Complete {
                                        completion_id: s.inflight@[j].event.completion_id,
                                        ok: true,
                                    }))
                            }
                        &&& final(acts)@.take(old(acts)@.len() as int) == old(acts)@
                        &&& final(self).parked@ == old(self).parked@
                    }
                    &&& (s.state == SessionState::Open && !valid) ==> {
                        &&& final(self).sessions@ == old(self).sessions@.remove(i)
                        &&& final(self).parked@ == old(self).parked@ + s.inflight@.map_values(
                            (|a: Append| a.event),
                        ) + s.pending@
                        &&& final(acts)@ == old(acts)@.push(Action::FetchSegments)
                    }
                },
                None => final(self).sessions@ == old(self).sessions@ && final(acts)@ == old(
                    acts,
                )@ && final(self).parked@ == old(self).parked@,
            }),
    {
        let i = match self.find_by_writer(writer_id) {
            Some(i) => i,
            None => {
                return ;
            },
        };
        let is_open = match self.sessions[i].state {
            SessionState::Open => true,
            _ => false,
        };
        if !is_open {
            return ;
        }
        let mut s = self.sessions.remove(i);
        let ghost s0 = s;
        match s.on_data_appended(event_number) {
            AckOutcome::Completed(ids) => {
                let ghost acts0 = acts@;
                let n = ids.len();
                let mut j: usize = 0;
                while j < n
                    invariant
                        j <= n,
                        n == ids@.len(),
                        acts@.len() == acts0.len() + j,
                        acts@.take(acts0.len() as int) == acts0,
                        forall|t: int|
                            0 <= t < j ==> (#[trigger] acts@[acts0.len() + t]) == (
                            Action::Complete { completion_id: ids@[t], ok: true }),
                    decreases n - j,
                {
                    acts.push(Action::Complete { completion_id: ids[j], ok: true });
                    proof {
                        assert(acts@.take(acts0.len() as int) =~= acts0);
                    }
                    j = j + 1;
                }
                self.sessions.insert(i, s);
                proof {
                    assert(self.sessions@ =~= old(self).sessions@.update(i as int, self.sessions@[
                        i as int]));
                    let k0 = choose|k: int|
                        {
                            &&& 0 <= k <= s0.inflight@.len()
                            &&& (forall|t: int|
                                0 <= t < k ==> (#[trigger] s0.inflight@[t]).event_number
                                    <= event_number)
                            &&& (forall|t: int|
                                k <= t < s0.inflight@.len() ==> (#[trigger] s0.inflight@[
                                t]).event_number > event_number)
                            &&& ids@ == s0.inflight@.take(k).map_values(
                                (|a: Append| a.event.completion_id),
                            )
                            &&& s.inflight@ == s0.inflight@.skip(k)
                        };
                    assert(forall|t: int|
                        0 <= t < k0 ==> (#[trigger] s0.inflight@.take(k0)[t]) == s0.inflight@[t]);
                }
            },
            AckOutcome::ProtocolViolation => {
                s.mark_sealing();
        let mut evs = s.drain_for_resend();
                self.parked.append(&mut evs);
                proof {
                    assert(self.sessions@ =~= old(self).sessions@.remove(i as int));
                }
                acts.push(Action::FetchSegments);
            },
        }
    }

    /// After acknowledgements freed window space under this writer id, sends
    /// as much of the session's suspended work as now fits, in submission
    /// order. An unknown writer, a session that is not open, or one whose
    /// numbering could not take the waiting events changes nothing.
    pub fn refill(&mut self, writer_id: u128, acts: &mut Vec<Action>)
        requires
            reactor_wf(*old(self)),
        ensures
            reactor_wf(*final(self)),
            final(self).queue@ == old(self).queue@,
            final(self).capacity == old(self).capacity,
            final(self).selector == old(self).selector,
            final(self).parked@ == old(self).parked@,
            final(acts)@.len() >= old(acts)@.len(),
            final(acts)@.take(old(acts)@.len() as int) == old(acts)@,
            (match find_writer_from(old(self).sessions@, writer_id, 0) {
                Some(i) => {
                    let s = old(self).sessions@[i];
                    let s2 = final(self).sessions@[i];
                    let room = s.next_event_number + s.pending@.len() <= i64::MAX;
                    &&& (s.state != SessionState::Open || !room) ==> final(self).sessions@ == old(
                        self,
                    ).sessions@ && final(acts)@ == old(acts)@
                    &&& (s.state == SessionState::Open && room) ==> {
                        &&& final(self).sessions@ == old(self).sessions@.update(i, s2)
                        &&& s2.segment == s.segment
                        &&& s2.writer_id == s.writer_id
                        &&& s2.state == SessionState::Open
                        &&& s2.last_acked_event_number == s.last_acked_event_number
                        &&& s2.send_window == s.send_window
                        &&& session_drained(s, s2, old(acts)@, final(acts)@)
                    }
                },
                None => final(self).sessions@ == old(self).sessions@ && final(acts)@ == old(
                    acts,
                )@,
            }),
    {
        let i = match self.find_by_writer(writer_id) {
            Some(i) => i,
            None => {
                return ;
            },
        };
        let is_open = match self.sessions[i].state {
            SessionState::Open => true,
            _ => false,
        };
        if !is_open {
            return ;
        }
        let has_room = {
            let s = &self.sessions[i];
            (s.pending.len() as i128) <= (i64::MAX as i128) - (s.next_event_number as i128)
        };
        if !has_room {
            return ;
        }
        let mut s = self.sessions.remove(i);
        let ghost s0 = s;
        let ghost acts0 = acts@;
        s.drain_window(&mut *acts);
        proof {
            let m0 = choose|m: int| drained_to(s0, s, acts0, acts@, m);
            assert(drained_to(s0, s, acts0, acts@, m0));
        }
        self.sessions.insert(i, s);
        proof {
            assert(self.sessions@ =~= old(self).sessions@.update(i as int, self.sessions@[
                i as int]));
            assert(self.sessions@[i as int] == s);
            assert(session_drained(s0, self.sessions@[i as int], old(acts)@, acts@));
        }
    }

    /// A segment was sealed or reported gone (or the controller announced a
    /// scale affecting it). Its session is drained: every unacknowledged
    /// and still-waiting event is parked, in order, to be resent through
    /// the selector once the refreshed segment set arrives, and a fetch of
    /// that set is requested. No accepted event is dropped. An unknown
    /// segment changes nothing.
    pub fn on_segment_failed(&mut self, segment: i64, acts: &mut Vec<Action>)
        requires
            reactor_wf(*old(self)),
        ensures
            reactor_wf(*final(self)),
            final(self).queue@ == old(self).queue@,
            final(self).capacity == old(self).capacity,
            final(self).selector == old(self).selector,
            (match find_seg_from(old(self).sessions@, segment, 0) {
                Some(i) => {
                    let s = old(self).sessions@[i];
                    &&& final(self).sessions@ == old(self).sessions@.remove(i)
                    &&& final(self).parked@ == old(self).parked@ + s.inflight@.map_values(
                        (|a: Append| a.event),
                    ) + s.pending@
                    &&& final(acts)@ == old(acts)@.push(Action::FetchSegments)
                },
                None => final(self).sessions@ == old(self).sessions@ && final(acts)@ == old(
                    acts,
                )@ && final(self).parked@ == old(self).parked@,
            }),
    {
        let i = match self.find_by_segment(segment) {
            Some(i) => i,
            None => {
                return ;
            },
        };
        let mut s = self.sessions.remove(i);
        s.mark_sealing();
        let mut evs = s.drain_for_resend();
        self.parked.append(&mut evs);
        proof {
            assert(self.sessions@ =~= old(self).sessions@.remove(i as int));
        }
        acts.push(Action::FetchSegments);
    }

    /// The connection under this writer id was lost. The session is drained
    /// exactly as for a failed segment: its events are parked for resend
    /// and a fresh segment set is fetched.
    pub fn on_connection_failed(&mut self, writer_id: u128, acts: &mut Vec<Action>)
        requires
            reactor_wf(*old(self)),
        ensures
            reactor_wf(*final(self)),
            final(self).queue@ == old(self).queue@,
            final(self).capacity == old(self).capacity,
            final(self).selector == old(self).selector,
            (match find_writer_from(old(self).sessions@, writer_id, 0) {
                Some(i) => {
                    let s = old(self).sessions@[i];
                    &&& final(self).sessions@ == old(self).sessions@.remove(i)
                    &&& final(self).parked@ == old(self).parked@ + s.inflight@.map_values(
                        (|a: Append| a.event),
                    ) + s.pending@
                    &&& final(acts)@ == old(acts)@.push(Action::FetchSegments)
                },
                None => final(self).sessions@ == old(self).sessions@ && final(acts)@ == old(
                    acts,
                )@ && final(self).parked@ == old(self).parked@,
            }),
    {
        let i = match self.find_by_writer(writer_id) {
            Some(i) => i,
            None => {
                return ;
            },
        };
        let mut s = self.sessions.remove(i);
        s.mark_sealing();
        let mut evs = s.drain_for_resend();
        self.parked.append(&mut evs);
        proof {
            assert(self.sessions@ =~= old(self).sessions@.remove(i as int));
        }
        acts.push(Action::FetchSegments);
    }

    /// The refreshed active-segment set arrived. The selector adopts it and
    /// every parked event is resent through it, oldest first, exactly as
    /// `route_event` says — events with one routing key hash to one
    /// segment, so their submission order is preserved.
    pub fn on_segments_update(&mut self, entries: Vec<SegmentEntry>, acts: &mut Vec<Action>)
        requires
            reactor_wf(*old(self)),
        ensures
            reactor_wf(*final(self)),
            final(self).queue@ == old(self).queue@,
            final(self).capacity == old(self).capacity,
            final(self).selector.entries@ == entries@,
            final(acts)@.len() >= old(acts)@.len(),
            final(acts)@.take(old(acts)@.len() as int) == old(acts)@,
            owned_ids(*final(self)).add(
                failed_ids(final(acts)@.skip(old(acts)@.len() as int)),
            ) == owned_ids(*old(self)),
    {
        let ghost a0 = old(acts)@.len() as int;
        self.selector.refresh(entries);
        let mut evs = self.parked.split_off(0);
        proof {
            broadcast use vstd::multiset::group_multiset_axioms;

            assert(self.parked@ =~= Seq::<PendingEvent>::empty());
            assert(evs@ =~= old(self).parked@);
            assert(self.sessions@ == old(self).sessions@);
            lemma_event_ids_empty();
            assert(acts@.skip(a0) =~= Seq::<Action>::empty());
            assert(failed_ids(Seq::<Action>::empty()) == Multiset::<u64>::empty());
            assert(owned_ids(*self).add(event_ids(evs@)).add(failed_ids(acts@.skip(a0)))
                =~= owned_ids(*old(self)));
        }
        while evs.len() > 0
            invariant
                reactor_wf(*self),
                self.queue@ == old(self).queue@,
                self.capacity == old(self).capacity,
                self.selector.entries@ == entries@,
                a0 == old(acts)@.len(),
                acts@.len() >= a0,
                acts@.take(a0) == old(acts)@,
                owned_ids(*self).add(event_ids(evs@)).add(failed_ids(acts@.skip(a0)))
                    == owned_ids(*old(self)),
            decreases evs@.len(),
        {
            let ghost acts_pre = acts@;
            let ghost owned_pre = owned_ids(*self);
            let ghost evs_pre = evs@;
            let ev = evs.remove(0);
            let ghost evid = ev.completion_id;
            proof {
                lemma_event_ids_remove_first(evs_pre);
            }
            self.route_event(ev, acts);
            proof {
                broadcast use vstd::multiset::group_multiset_axioms;

                assert(forall|k: int|
                    0 <= k < acts_pre.len() ==> acts@[k] == #[trigger] acts_pre[k]) by {
                    assert(forall|k: int|
                        0 <= k < acts_pre.len() ==> #[trigger] acts@.take(
                            acts_pre.len() as int,
                        )[k] == acts@[k]);
                }
                assert(acts@.skip(a0) =~= acts_pre.skip(a0) + acts@.skip(acts_pre.len() as int));
                lemma_failed_ids_concat(acts_pre.skip(a0), acts@.skip(acts_pre.len() as int));
                assert(acts@.take(a0) =~= old(acts)@);
                assert(ev == evs_pre[0]);
                assert(event_ids(evs@) == event_ids(evs_pre).remove(evid));
                assert(event_ids(evs_pre).count(evid) >= 1);
                assert(owned_pre.add(event_ids(evs_pre)).add(failed_ids(acts_pre.skip(a0)))
                    == owned_ids(*old(self)));
                assert(owned_ids(*self).add(failed_ids(acts@.skip(acts_pre.len() as int)))
                    == owned_pre.insert(evid));
                assert(failed_ids(acts@.skip(a0)) == failed_ids(acts_pre.skip(a0)).add(
                    failed_ids(acts@.skip(acts_pre.len() as int)),
                ));
                assert forall|x: u64|
                    owned_ids(*self).add(event_ids(evs@)).add(
                        failed_ids(acts@.skip(a0)),
                    ).count(x) == owned_ids(*old(self)).count(x) by {
                    let f_new = failed_ids(acts@.skip(acts_pre.len() as int));
                    let f_pre = failed_ids(acts_pre.skip(a0));
                    assert(owned_ids(*self).add(f_new).count(x) == owned_pre.insert(
                        evid,
                    ).count(x));
                    assert(owned_ids(*self).add(f_new).count(x) == owned_ids(*self).count(x)
                        + f_new.count(x));
                    assert(owned_pre.insert(evid).count(x) == owned_pre.add(
                        Multiset::singleton(evid),
                    ).count(x));
                    assert(owned_pre.add(Multiset::singleton(evid)).count(x) == owned_pre.count(
                        x,
                    ) + Multiset::singleton(evid).count(x));
                    assert(event_ids(evs@).count(x) == event_ids(evs_pre).remove(evid).count(x));
                    assert(event_ids(evs_pre).remove(evid).count(x) == event_ids(evs_pre).sub(
                        Multiset::singleton(evid),
                    ).count(x));
                    if x == evid {
                        assert(Multiset::singleton(evid).count(x) == 1);
                        assert(event_ids(evs@).count(x) + 1 == event_ids(evs_pre).count(x));
                    } else {
                        assert(Multiset::singleton(evid).count(x) == 0);
                        assert(event_ids(evs@).count(x) == event_ids(evs_pre).count(x));
                    }
                    assert(owned_ids(*self).add(event_ids(evs@)).add(
                        failed_ids(acts@.skip(a0)),
                    ).count(x) == owned_ids(*self).count(x) + event_ids(evs@).count(x)
                        + failed_ids(acts@.skip(a0)).count(x));
                    assert(failed_ids(acts@.skip(a0)).count(x) == f_pre.count(x) + f_new.count(
                        x,
                    ));
                    assert(owned_ids(*old(self)).count(x) == owned_pre.add(
                        event_ids(evs_pre),
                    ).add(f_pre).count(x));
                    assert(owned_pre.add(event_ids(evs_pre)).add(f_pre).count(x)
                        == owned_pre.count(x) + event_ids(evs_pre).count(x) + f_pre.count(x));
                }
                assert(owned_ids(*self).add(event_ids(evs@)).add(failed_ids(acts@.skip(a0)))
                    =~= owned_ids(*old(self)));
            }
        }
        proof {
            broadcast use vstd::multiset::group_multiset_axioms;

            lemma_event_ids_empty();
            assert(evs@ =~= Seq::<PendingEvent>::empty());
            assert(owned_ids(*self).add(failed_ids(acts@.skip(a0))) =~= owned_ids(*old(self)));
        }
    }
}

/// Completion order and exactly-once, at the session level. An
/// acknowledgement covering the in-flight prefix up to `acked` completes
/// those events in the order they were submitted — numbers are handed out
/// one apart in submission order, and the in-flight list is ascending — and
/// no completed event is still in flight afterwards, so nothing can ever
/// complete a second time.
pub proof fn lemma_completion_prefix_ordered_and_unique(inflight: Seq<Append>, acked: i64, k: int)
    requires
        forall|i: int, j: int|
            0 <= i < j < inflight.len() ==> inflight[i].event_number < inflight[j].event_number,
        0 <= k <= inflight.len(),
        forall|i: int| 0 <= i < k ==> (#[trigger] inflight[i]).event_number <= acked,
        forall|i: int| k <= i < inflight.len() ==> (#[trigger] inflight[i]).event_number > acked,
    ensures
        forall|i: int, j: int|
            0 <= i < j < k ==> inflight.take(k)[i].event_number < inflight.take(
                k,
            )[j].event_number,
        forall|i: int, j: int|
            (0 <= i < k && 0 <= j < inflight.len() - k) ==> inflight.take(k)[i].event_number
                != inflight.skip(k)[j].event_number,
{
    assert forall|i: int, j: int|
        (0 <= i < k && 0 <= j < inflight.len() - k) implies inflight.take(k)[i].event_number
        != inflight.skip(k)[j].event_number by {
        assert(inflight.take(k)[i] == inflight[i]);
        assert(inflight.skip(k)[j] == inflight[k + j]);
    }
}

/// What a decoded reply from a segment store means to the reactor that
/// owns the connection it arrived on.
#[derive(Clone, Copy, Debug, PartialEq, Eq, Structural)]
pub enum ReplyAction {
    /// An `AppendSetup`: open the session, numbering from one above this.
    Setup { last_event_number: i64 },
    /// A `DataAppended`: complete everything up to this event number.
    Ack { event_number: i64 },
    /// The segment is sealed, gone, or rejected an event number: drain the
    /// session and resend through the selector.
    Failed,
    /// Not a writer's concern (server push for readers, hello, requests).
    Ignore,
}

/// Sorts a decoded reply into what the reactor should do with it. The
/// connection it arrived on names the session (its writer id); only the
/// reply's kind and numbers matter here.
pub fn classify_reply(reply: &WireCommand) -> (r: ReplyAction)
    ensures
        (match reply@ {
            WireCommandView::AppendSetup { last_event_number, .. } => r == (ReplyAction::Setup {
                last_event_number,
            }),
            WireCommandView::DataAppended { event_number, .. } => r == (ReplyAction::Ack {
                event_number,
            }),
            WireCommandView::SegmentIsSealed { .. } => r == ReplyAction::Failed,
            WireCommandView::NoSuchSegment { .. } => r == ReplyAction::Failed,
            WireCommandView::InvalidEventNumber { .. } => r == ReplyAction::Failed,
            _ => r == ReplyAction::Ignore,
        }),
{
    match reply {
        WireCommand::AppendSetup { last_event_number, .. } => ReplyAction::Setup {
            last_event_number: *last_event_number,
        },
        WireCommand::DataAppended { event_number, .. } => ReplyAction::Ack {
            event_number: *event_number,
        },
        WireCommand::SegmentIsSealed { .. } => ReplyAction::Failed,
        WireCommand::NoSuchSegment { .. } => ReplyAction::Failed,
        WireCommand::InvalidEventNumber { .. } => ReplyAction::Failed,
        _ => ReplyAction::Ignore,
    }
}

/// If the scan found no session for the segment, no session serves it.
proof fn lemma_find_none_means_no_match(s: Seq<SegmentSession>, segment: i64)
    requires
        find_seg_from(s, segment, 0) is None,
    ensures
        forall|i: int| 0 <= i < s.len() ==> (#[trigger] s[i]).segment != segment,
{
    assert forall|i: int| 0 <= i < s.len() implies (#[trigger] s[i]).segment != segment by {
        lemma_find_from_none(s, segment, 0, i);
    }
}

/// If the scan from `k` found nothing, no session at or after `k` matches.
proof fn lemma_find_from_none(s: Seq<SegmentSession>, segment: i64, k: int, i: int)
    requires
        find_seg_from(s, segment, k) is None,
        0 <= k <= i < s.len(),
    ensures
        s[i].segment != segment,
    decreases i - k,
{
    if k < i {
        lemma_find_from_none(s, segment, k + 1, i);
    }
}

} // verus!
