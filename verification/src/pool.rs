//! The worker pool's shared job queue, modelled over job identifiers:
//! first-in first-out claiming, exactly-once delivery, and the shutdown
//! protocol workers observe.

use vstd::prelude::*;

verus! {

/// Submitting a job after the queue stopped accepting work; the caller
/// may recover, the pool is unaffected.
#[derive(Clone, Copy, Debug, PartialEq, Eq, Structural)]
pub struct PoolShutdownError;

/// What a worker's claim attempt observes: the next job, nothing yet
/// (more may still be submitted), or nothing ever again.
#[derive(Clone, Copy, Debug, PartialEq, Eq, Structural)]
pub enum ClaimOutcome {
    Job(u64),
    Empty,
    ShutDown,
}

/// The shared job queue: jobs wait in submission order until exactly one
/// worker claims each; closing it stops submissions and lets idle
/// workers exit.
pub struct JobQueue {
    jobs: Vec<u64>,
    closed: bool,
}

impl JobQueue {
    /// The jobs submitted and not yet claimed, oldest first.
    pub closed spec fn pending(&self) -> Seq<u64> {
        self.jobs@
    }

    /// Whether the queue has stopped accepting submissions.
    pub closed spec fn is_closed(&self) -> bool {
        self.closed
    }

    /// A fresh queue: empty and accepting submissions.
    pub fn new() -> (q: JobQueue)
        ensures
            q.pending() == Seq::<u64>::empty(),
            !q.is_closed(),
    {
        JobQueue { jobs: Vec::new(), closed: false }
    }

    /// Enqueues a job for later, single execution; fails exactly when
    /// the queue has been closed, leaving it unchanged.
    pub fn submit(&mut self, id: u64) -> (r: Result<(), PoolShutdownError>)
        ensures
            !old(self).is_closed() ==> r is Ok && final(self).pending() == old(
                self,
            ).pending().push(id) && !final(self).is_closed(),
            old(self).is_closed() ==> r is Err && *final(self) == *old(self),
    {
        if self.closed {
            Err(PoolShutdownError)
        } else {
            self.jobs.push(id);
            Ok(())
        }
    }

    /// A worker's claim attempt: takes the oldest pending job; on an
    /// empty queue, reports whether more work may still come or the
    /// queue is closed for good.
    pub fn claim(&mut self) -> (r: ClaimOutcome)
        ensures
            old(self).pending().len() > 0 ==> r == ClaimOutcome::Job(old(self).pending()[0])
                && final(self).pending() == old(self).pending().drop_first()
                && final(self).is_closed() == old(self).is_closed(),
            old(self).pending().len() == 0 && old(self).is_closed() ==> r
                == ClaimOutcome::ShutDown && *final(self) == *old(self),
            old(self).pending().len() == 0 && !old(self).is_closed() ==> r == ClaimOutcome::Empty
                && *final(self) == *old(self),
    {
        if self.jobs.len() > 0 {
            let id = self.jobs.remove(0);
            proof {
                assert(self.jobs@ =~= old(self).jobs@.drop_first());
            }
            ClaimOutcome::Job(id)
        } else if self.closed {
            ClaimOutcome::ShutDown
        } else {
            ClaimOutcome::Empty
        }
    }

    /// Stops accepting submissions; jobs already pending stay claimable.
    pub fn close(&mut self)
        ensures
            final(self).is_closed(),
            final(self).pending() == old(self).pending(),
    {
        self.closed = true;
    }

    /// How many jobs are pending.
    pub fn pending_count(&self) -> (n: usize)
        ensures
            n == self.pending().len(),
    {
        self.jobs.len()
    }
}

/// No two of the jobs are the same.
pub open spec fn distinct_jobs(s: Seq<u64>) -> bool {
    forall|i: int, j: int| 0 <= i < j < s.len() ==> s[i] != s[j]
}

/// Exactly-once, order-preserving delivery in the queue model: after any
/// number `k` of claims from a queue holding the distinct pending jobs
/// `s`, the claimed jobs are precisely the first `k` of `s` in
/// submission order, none is claimed twice, none claimed is still
/// pending, and nothing is dropped — claimed and pending together
/// re-form `s`.
pub proof fn lemma_exactly_once(s: Seq<u64>, k: int)
    requires
        0 <= k <= s.len(),
        distinct_jobs(s),
    ensures
        s.take(k) + s.skip(k) == s,
        s.take(k).len() == k,
        distinct_jobs(s.take(k)),
        forall|i: int| 0 <= i < k ==> !s.skip(k).contains(s.take(k)[i]),
{
    assert(s.take(k) + s.skip(k) =~= s);
    assert forall|i: int| 0 <= i < k implies !s.skip(k).contains(s.take(k)[i]) by {
        assert(s.take(k)[i] == s[i]);
        assert forall|j: int| 0 <= j < s.skip(k).len() implies s.skip(k)[j] != s[i] by {
            assert(s.skip(k)[j] == s[k + j]);
        }
    }
}

} // verus!
