//! Connection-pool accounting for one endpoint.
//!
//! The pool hands out leases on connections to a single segment store
//! endpoint. It reuses an idle connection when one is available, lets the
//! caller establish a new one while the endpoint is under its cap, and
//! queues waiters in arrival order otherwise. A released connection goes to
//! the longest-waiting caller first, back to the idle set if it is still
//! valid, and is discarded if not: an invalid connection never returns to
//! the pool.
//!
//! The accounting here is the verified heart of the pool; the I/O that
//! actually opens a TCP connection and hands leases across tasks lives
//! outside and drives this state machine.

use vstd::prelude::*;

verus! {

/// Accounting for one endpoint's connections. `idle` and leases are
/// identified by the numbers the pool assigned when they were established.
pub struct EndpointPool {
    /// The cap: open connections (idle, leased, or being established) never
    /// exceed it.
    pub max_connections: u32,
    /// Connections sitting in the pool, ready for reuse.
    pub idle: Vec<u64>,
    /// How many connections are currently leased out.
    pub checked_out: u32,
    /// How many callers are currently establishing a new connection under a
    /// slot this pool reserved for them.
    pub pending_establish: u32,
    /// Tickets of callers waiting for a connection, oldest first.
    pub waiting: Vec<u64>,
    /// The next waiter ticket to hand out.
    pub next_ticket: u64,
    /// How many connections were ever established for this endpoint.
    pub established: u64,
}

/// Everything the pool counts as an open connection for this endpoint.
pub open spec fn open_count(p: EndpointPool) -> int {
    p.idle@.len() + p.checked_out + p.pending_establish
}

/// The pool's invariant: open connections never exceed the cap.
pub open spec fn pool_inv(p: EndpointPool) -> bool {
    open_count(p) <= p.max_connections
}

/// What `acquire` tells the caller to do.
#[derive(Clone, Copy, Debug, PartialEq, Eq, Structural)]
pub enum AcquireOutcome {
    /// Take this idle connection; the lease is yours.
    Reused(u64),
    /// No idle connection, but the endpoint is under its cap: establish a
    /// new connection, then report `establish_done` or `establish_failed`.
    Establish,
    /// The endpoint is at its cap: wait under this ticket until a release
    /// hands you a connection or an establishment slot.
    Wait(u64),
}

/// What `release` did with the returned connection.
#[derive(Clone, Copy, Debug, PartialEq, Eq, Structural)]
pub enum ReleaseOutcome {
    /// The connection stays leased: it was handed to the waiter holding
    /// this ticket, the oldest one.
    HandedToWaiter(u64, u64),
    /// The connection was valid and went back to the idle set.
    Pooled,
    /// The connection was invalid and was dropped.
    Discarded,
    /// The connection was invalid and was dropped, and the slot it freed
    /// was given to the waiter holding this ticket, the oldest one, to
    /// establish a fresh connection.
    DiscardedWakeWaiter(u64),
}

impl EndpointPool {
    /// An empty pool for one endpoint with the given cap.
    pub fn new(max_connections: u32) -> (p: EndpointPool)
        ensures
            p.max_connections == max_connections,
            p.idle@ == Seq::<u64>::empty(),
            p.checked_out == 0,
            p.pending_establish == 0,
            p.waiting@ == Seq::<u64>::empty(),
            p.next_ticket == 0,
            p.established == 0,
            pool_inv(p),
    {
        EndpointPool {
            max_connections,
            idle: Vec::new(),
            checked_out: 0,
            pending_establish: 0,
            waiting: Vec::new(),
            next_ticket: 0,
            established: 0,
        }
    }

    /// One caller asks for a connection. Reuses the most recently pooled
    /// idle connection if there is one; otherwise reserves an establishment
    /// slot if the endpoint is under its cap; otherwise queues the caller
    /// behind every earlier waiter. Never opens more than `max_connections`.
    pub fn acquire(&mut self) -> (r: AcquireOutcome)
        requires
            pool_inv(*old(self)),
            old(self).checked_out < u32::MAX,
            old(self).next_ticket < u64::MAX,
        ensures
            pool_inv(*final(self)),
            final(self).max_connections == old(self).max_connections,
            final(self).established == old(self).established,
            old(self).idle@.len() > 0 ==> r == AcquireOutcome::Reused(old(self).idle@.last())
                && final(self).idle@ == old(self).idle@.drop_last() && final(self).checked_out == old(
                self,
            ).checked_out + 1 && final(self).pending_establish == old(self).pending_establish
                && final(self).waiting@ == old(self).waiting@ && final(self).next_ticket == old(self).next_ticket,
            old(self).idle@.len() == 0 && open_count(*old(self)) < old(self).max_connections
                ==> r == AcquireOutcome::Establish && final(self).idle@ == old(self).idle@
                && final(self).checked_out == old(self).checked_out && final(self).pending_establish == old(
                self,
            ).pending_establish + 1 && final(self).waiting@ == old(self).waiting@ && final(self).next_ticket == old(
                self,
            ).next_ticket,
            old(self).idle@.len() == 0 && open_count(*old(self)) >= old(self).max_connections
                ==> r == AcquireOutcome::Wait(old(self).next_ticket) && final(self).idle@ == old(self).idle@
                && final(self).checked_out == old(self).checked_out && final(self).pending_establish == old(
                self,
            ).pending_establish && final(self).waiting@ == old(self).waiting@.push(old(self).next_ticket)
                && final(self).next_ticket == old(self).next_ticket + 1,
    {
        match self.idle.pop() {
            Some(id) => {
                self.checked_out = self.checked_out + 1;
                AcquireOutcome::Reused(id)
            },
            None => {
                let open = self.idle.len() as u64 + self.checked_out as u64
                    + self.pending_establish as u64;
                if open < self.max_connections as u64 {
                    self.pending_establish = self.pending_establish + 1;
                    AcquireOutcome::Establish
                } else {
                    let ticket = self.next_ticket;
                    self.next_ticket = self.next_ticket + 1;
                    self.waiting.push(ticket);
                    AcquireOutcome::Wait(ticket)
                }
            },
        }
    }

    /// The caller holding an establishment slot opened its connection. The
    /// pool assigns the connection number `established` and leases it to
    /// that caller.
    pub fn establish_done(&mut self) -> (id: u64)
        requires
            pool_inv(*old(self)),
            old(self).pending_establish > 0,
            old(self).checked_out < u32::MAX,
            old(self).established < u64::MAX,
        ensures
            pool_inv(*final(self)),
            id == old(self).established,
            final(self).established == old(self).established + 1,
            final(self).pending_establish == old(self).pending_establish - 1,
            final(self).checked_out == old(self).checked_out + 1,
            final(self).idle@ == old(self).idle@,
            final(self).waiting@ == old(self).waiting@,
            final(self).max_connections == old(self).max_connections,
            final(self).next_ticket == old(self).next_ticket,
    {
        let id = self.established;
        self.established = self.established + 1;
        self.pending_establish = self.pending_establish - 1;
        self.checked_out = self.checked_out + 1;
        id
    }

    /// The caller holding an establishment slot failed to open its
    /// connection; the slot is freed. The caller surfaces the underlying
    /// error and may retry with a fresh `acquire`.
    pub fn establish_failed(&mut self)
        requires
            pool_inv(*old(self)),
            old(self).pending_establish > 0,
        ensures
            pool_inv(*final(self)),
            final(self).pending_establish == old(self).pending_establish - 1,
            final(self).checked_out == old(self).checked_out,
            final(self).idle@ == old(self).idle@,
            final(self).waiting@ == old(self).waiting@,
            final(self).established == old(self).established,
            final(self).max_connections == old(self).max_connections,
            final(self).next_ticket == old(self).next_ticket,
    {
        self.pending_establish = self.pending_establish - 1;
    }

    /// A lease ends. A valid connection goes to the oldest waiter if one
    /// exists, else back to the idle set; an invalid connection is dropped,
    /// and the slot it frees is offered to the oldest waiter as an
    /// establishment slot. An invalid connection is never pooled.
    pub fn release(&mut self, id: u64, valid: bool) -> (r: ReleaseOutcome)
        requires
            pool_inv(*old(self)),
            old(self).checked_out > 0,
        ensures
            pool_inv(*final(self)),
            final(self).max_connections == old(self).max_connections,
            final(self).established == old(self).established,
            final(self).next_ticket == old(self).next_ticket,
            valid && old(self).waiting@.len() > 0 ==> r == ReleaseOutcome::HandedToWaiter(
                old(self).waiting@.first(),
                id,
            ) && final(self).waiting@ == old(self).waiting@.drop_first() && final(self).checked_out == old(
                self,
            ).checked_out && final(self).idle@ == old(self).idle@ && final(self).pending_establish == old(
                self,
            ).pending_establish,
            valid && old(self).waiting@.len() == 0 ==> r == ReleaseOutcome::Pooled && final(self).idle@
                == old(self).idle@.push(id) && final(self).checked_out == old(self).checked_out - 1
                && final(self).waiting@ == old(self).waiting@ && final(self).pending_establish == old(
                self,
            ).pending_establish,
            !valid && old(self).waiting@.len() > 0 ==> r == ReleaseOutcome::DiscardedWakeWaiter(
                old(self).waiting@.first(),
            ) && final(self).waiting@ == old(self).waiting@.drop_first() && final(self).checked_out == old(
                self,
            ).checked_out - 1 && final(self).idle@ == old(self).idle@ && final(self).pending_establish == old(
                self,
            ).pending_establish + 1,
            !valid && old(self).waiting@.len() == 0 ==> r == ReleaseOutcome::Discarded
                && final(self).checked_out == old(self).checked_out - 1 && final(self).idle@ == old(self).idle@
                && final(self).waiting@ == old(self).waiting@ && final(self).pending_establish == old(
                self,
            ).pending_establish,
    {
        if valid {
            if self.waiting.len() > 0 {
                let ticket = self.waiting.remove(0);
                ReleaseOutcome::HandedToWaiter(ticket, id)
            } else {
                self.checked_out = self.checked_out - 1;
                self.idle.push(id);
                ReleaseOutcome::Pooled
            }
        } else {
            self.checked_out = self.checked_out - 1;
            if self.waiting.len() > 0 {
                let ticket = self.waiting.remove(0);
                self.pending_establish = self.pending_establish + 1;
                ReleaseOutcome::DiscardedWakeWaiter(ticket)
            } else {
                ReleaseOutcome::Discarded
            }
        }
    }
}

} // verus!
