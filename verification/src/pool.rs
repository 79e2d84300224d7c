//! The worker pool's concurrency accounting.
//!
//! The pool throttles probes with a counting-semaphore discipline: a probe
//! takes a slot before it runs and hands it back when done. The type
//! invariant — never more slots taken than the ceiling — is what bounds
//! the number of probes in flight, and `lemma_pool_bounded` states it for
//! every sequence of acquire and release events.

use vstd::prelude::*;

verus! {

/// The slot accounting of a bounded worker pool.
pub struct WorkerPool {
    limit: usize,
    in_flight: usize,
}

impl WorkerPool {
    /// The concurrency ceiling.
    pub closed spec fn spec_limit(self) -> int {
        self.limit as int
    }

    /// The number of slots currently taken.
    pub closed spec fn spec_in_flight(self) -> int {
        self.in_flight as int
    }

    /// The pool invariant: never more probes past the acquire point than
    /// the ceiling.
    pub open spec fn wf(self) -> bool {
        0 <= self.spec_in_flight() <= self.spec_limit()
    }

    /// A fresh pool with the given ceiling and no probe in flight.
    pub fn new(limit: usize) -> (s: Self)
        ensures
            s.wf(),
            s.spec_limit() == limit,
            s.spec_in_flight() == 0,
    {
        WorkerPool { limit, in_flight: 0 }
    }

    /// Takes a slot when one is free: succeeds exactly when the pool is
    /// not full, and then one more probe is in flight.
    pub fn try_acquire(&mut self) -> (r: bool)
        requires
            old(self).wf(),
        ensures
            final(self).wf(),
            final(self).spec_limit() == old(self).spec_limit(),
            r == (old(self).spec_in_flight() < old(self).spec_limit()),
            r ==> final(self).spec_in_flight() == old(self).spec_in_flight() + 1,
            !r ==> final(self).spec_in_flight() == old(self).spec_in_flight(),
    {
        if self.in_flight < self.limit {
            self.in_flight = self.in_flight + 1;
            true
        } else {
            false
        }
    }

    /// Hands a slot back after a probe completes.
    pub fn release(&mut self)
        requires
            old(self).wf(),
            old(self).spec_in_flight() >= 1,
        ensures
            final(self).wf(),
            final(self).spec_limit() == old(self).spec_limit(),
            final(self).spec_in_flight() == old(self).spec_in_flight() - 1,
    {
        self.in_flight = self.in_flight - 1;
    }

    /// The number of probes currently past the acquire point.
    pub fn in_flight(&self) -> (r: usize)
        ensures
            r as int == self.spec_in_flight(),
    {
        self.in_flight
    }

    /// The concurrency ceiling.
    pub fn limit(&self) -> (r: usize)
        ensures
            r as int == self.spec_limit(),
    {
        self.limit
    }
}

/// One acquire attempt (`true`) or release (`false`) applied to a slot
/// count under a ceiling.
pub open spec fn pool_step(count: int, limit: int, acquire: bool) -> int {
    if acquire {
        if count < limit {
            count + 1
        } else {
            count
        }
    } else {
        if count > 0 {
            count - 1
        } else {
            count
        }
    }
}

/// The slot count after a sequence of acquire attempts and releases,
/// starting from an idle pool.
pub open spec fn pool_count_after(limit: int, ops: Seq<bool>) -> int
    decreases ops.len(),
{
    if ops.len() == 0 {
        0
    } else {
        pool_step(pool_count_after(limit, ops.drop_last()), limit, ops.last())
    }
}

/// However many probes are submitted and in whatever order they finish,
/// the number of probes past the acquire point never exceeds the
/// ceiling.
pub proof fn lemma_pool_bounded(limit: int, ops: Seq<bool>)
    requires
        limit >= 0,
    ensures
        0 <= pool_count_after(limit, ops) <= limit,
    decreases ops.len(),
{
    if ops.len() > 0 {
        lemma_pool_bounded(limit, ops.drop_last());
    }
}

} // verus!
