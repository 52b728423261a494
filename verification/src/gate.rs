//! Admission accounting for concurrent storage reads: at most `limit` reads
//! hold a permit at once. Waiting for a permit is the caller's business.

use vstd::prelude::*;

verus! {

/// Most reader threads one source gets, whatever the read limit.
pub const MAX_WORKERS_PER_SOURCE: usize = 4;

/// How many reader threads serve one source under a read limit.
pub fn worker_count(limit: usize) -> (count: usize)
    ensures
        count == if limit < MAX_WORKERS_PER_SOURCE { limit } else { MAX_WORKERS_PER_SOURCE },
{
    if limit < MAX_WORKERS_PER_SOURCE {
        limit
    } else {
        MAX_WORKERS_PER_SOURCE
    }
}

/// Counts the reads that currently hold a permit.
#[derive(Debug)]
pub struct ReadConcurrencyGate {
    active: usize,
    limit: usize,
}

impl ReadConcurrencyGate {
    #[verifier::type_invariant]
    closed spec fn within_limit(self) -> bool {
        0 < self.limit && self.active <= self.limit
    }

    /// Reads currently holding a permit.
    pub closed spec fn active_reads(&self) -> nat {
        self.active as nat
    }

    /// Most reads that may hold a permit at once.
    pub closed spec fn read_limit(&self) -> nat {
        self.limit as nat
    }

    /// A gate admitting `limit` concurrent reads, none admitted yet.
    pub fn new(limit: usize) -> (gate: Self)
        requires
            limit > 0,
        ensures
            gate.active_reads() == 0,
            gate.read_limit() == limit,
    {
        ReadConcurrencyGate { active: 0, limit }
    }

    /// Most reads that may hold a permit at once.
    pub fn limit(&self) -> (limit: usize)
        ensures
            limit == self.read_limit(),
    {
        self.limit
    }

    /// Reads currently holding a permit.
    pub fn active(&self) -> (active: usize)
        ensures
            active == self.active_reads(),
    {
        self.active
    }

    /// Grants a permit when fewer than `limit` reads hold one; otherwise
    /// nothing changes and the caller must wait for a release.
    pub fn try_acquire(&mut self) -> (granted: bool)
        ensures
            granted == (old(self).active_reads() < old(self).read_limit()),
            granted ==> final(self).active_reads() == old(self).active_reads() + 1,
            !granted ==> final(self).active_reads() == old(self).active_reads(),
            final(self).read_limit() == old(self).read_limit(),
            final(self).active_reads() <= final(self).read_limit(),
    {
        proof {
            use_type_invariant(&*self);
        }
        if self.active < self.limit {
            self.active = self.active + 1;
            true
        } else {
            false
        }
    }

    /// A gate never admits more reads than its limit.
    pub fn check_within_limit(&self)
        ensures
            self.active_reads() <= self.read_limit(),
            self.read_limit() > 0,
    {
        proof {
            use_type_invariant(self);
        }
    }

    /// Returns one permit.
    pub fn release(&mut self)
        requires
            old(self).active_reads() > 0,
        ensures
            final(self).active_reads() == old(self).active_reads() - 1,
            final(self).read_limit() == old(self).read_limit(),
    {
        proof {
            use_type_invariant(&*self);
        }
        self.active = self.active - 1;
    }
}

} // verus!
