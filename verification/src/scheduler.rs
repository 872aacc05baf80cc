//! Admission control for proving work.
//!
//! Proving is slow and occupies a worker for its whole duration, so the
//! service hands each request to one of a fixed number of proving workers.
//! Requests that find every worker occupied wait in arrival order; where a
//! queue limit is configured, a request that finds the queue full is turned
//! away at once. The pool only decides: the caller runs the proofs and
//! reports back when a worker is done.

use vstd::prelude::*;

verus! {

/// What the pool decided for a submitted request.
#[derive(Debug, Clone, Copy, PartialEq, Eq)]
pub enum Admission {
    /// The request starts now on the given worker.
    Started { worker: usize },
    /// Every worker is occupied; the request waits its turn.
    Queued,
    /// Every worker is occupied and the queue is full; the request is refused.
    Busy,
}

/// The mathematical content of a pool.
pub ghost struct PoolState {
    /// One entry per worker: the request it is proving, if any.
    pub slots: Seq<Option<u64>>,
    /// The waiting requests, oldest first.
    pub queue: Seq<u64>,
    /// The most requests that may wait, if limited.
    pub limit: Option<usize>,
}

/// Every worker is proving a request.
pub open spec fn all_busy(slots: Seq<Option<u64>>) -> bool {
    forall|i: int| 0 <= i < slots.len() ==> (#[trigger] slots[i]) is Some
}

/// One more request may wait.
pub open spec fn has_room(queue: Seq<u64>, limit: Option<usize>) -> bool {
    match limit {
        Some(l) => queue.len() < l,
        None => true,
    }
}

/// The number of workers that are proving a request.
pub open spec fn busy_count(slots: Seq<Option<u64>>) -> nat
    decreases slots.len(),
{
    if slots.len() == 0 {
        0
    } else {
        busy_count(slots.drop_last()) + if slots.last() is Some {
            1nat
        } else {
            0nat
        }
    }
}

/// The number of requests the pool holds, proving or waiting.
pub open spec fn load(state: PoolState) -> nat {
    busy_count(state.slots) + state.queue.len()
}

/// The waiting line respects its limit, and nobody waits while a worker is idle.
pub open spec fn well_formed(state: PoolState) -> bool {
    &&& match state.limit {
        Some(l) => state.queue.len() <= l,
        None => true,
    }
    &&& state.queue.len() > 0 ==> all_busy(state.slots)
}

/// No more workers are busy than there are workers, and all of them are
/// busy exactly when the count reaches their number.
pub proof fn lemma_busy_count_bound(slots: Seq<Option<u64>>)
    ensures
        busy_count(slots) <= slots.len(),
        busy_count(slots) == slots.len() <==> all_busy(slots),
    decreases slots.len(),
{
    if slots.len() > 0 {
        let front = slots.drop_last();
        lemma_busy_count_bound(front);
        if all_busy(slots) {
            assert forall|i: int| 0 <= i < front.len() implies (#[trigger] front[i]) is Some by {
                assert(slots[i] is Some);
            };
            assert(slots[slots.len() - 1] is Some);
        }
        if busy_count(slots) == slots.len() {
            assert forall|i: int| 0 <= i < slots.len() implies (#[trigger] slots[i]) is Some by {
                if i < front.len() {
                    assert(front[i] is Some);
                }
            };
        }
    }
}

/// Giving one worker another assignment changes the count by that worker
/// alone.
pub proof fn lemma_busy_count_update(slots: Seq<Option<u64>>, worker: int, to: Option<u64>)
    requires
        0 <= worker < slots.len(),
    ensures
        busy_count(slots.update(worker, to)) + (if slots[worker] is Some {
            1nat
        } else {
            0nat
        }) == busy_count(slots) + (if to is Some {
            1nat
        } else {
            0nat
        }),
    decreases slots.len(),
{
    let changed = slots.update(worker, to);
    if worker == slots.len() - 1 {
        assert(changed.drop_last() =~= slots.drop_last());
    } else {
        lemma_busy_count_update(slots.drop_last(), worker, to);
        assert(changed.drop_last() =~= slots.drop_last().update(worker, to));
    }
}

/// A pool never holds more requests than it has workers and places in the
/// queue, and it is full, so that the next request is refused, exactly when
/// it holds that many.
pub proof fn lemma_full_at_capacity(state: PoolState, limit: usize)
    requires
        well_formed(state),
        state.limit == Some(limit),
    ensures
        load(state) <= state.slots.len() + limit,
        load(state) == state.slots.len() + limit <==> all_busy(state.slots) && !has_room(
            state.queue,
            state.limit,
        ),
{
    lemma_busy_count_bound(state.slots);
}

/// A bounded set of proving workers with a waiting line.
pub struct ProvingPool {
    slots: Vec<Option<u64>>,
    queue: Vec<u64>,
    limit: Option<usize>,
}

impl View for ProvingPool {
    type V = PoolState;

    closed spec fn view(&self) -> PoolState {
        PoolState { slots: self.slots@, queue: self.queue@, limit: self.limit }
    }
}

impl ProvingPool {
    /// The pool's state is [`well_formed`].
    pub open spec fn wf(&self) -> bool {
        well_formed(self@)
    }

    /// A pool of `workers` idle workers and an empty queue.
    pub fn new(workers: usize, queue_limit: Option<usize>) -> (pool: Self)
        ensures
            pool.wf(),
            pool@.slots == Seq::new(workers as nat, |i: int| None::<u64>),
            pool@.queue == Seq::<u64>::empty(),
            pool@.limit == queue_limit,
    {
        let mut slots: Vec<Option<u64>> = Vec::new();
        let mut i: usize = 0;
        while i < workers
            invariant
                i <= workers,
                slots@ == Seq::new(i as nat, |k: int| None::<u64>),
            decreases workers - i,
        {
            slots.push(None);
            i += 1;
            assert(slots@ =~= Seq::new(i as nat, |k: int| None::<u64>));
        }
        ProvingPool { slots, queue: Vec::new(), limit: queue_limit }
    }

    /// The number of proving workers.
    pub fn workers(&self) -> (n: usize)
        ensures
            n == self@.slots.len(),
    {
        self.slots.len()
    }

    /// The number of waiting requests.
    pub fn queued(&self) -> (n: usize)
        ensures
            n == self@.queue.len(),
    {
        self.queue.len()
    }

    /// The request that `worker` is proving, if any.
    pub fn running(&self, worker: usize) -> (request: Option<u64>)
        ensures
            worker < self@.slots.len() ==> request == self@.slots[worker as int],
            worker >= self@.slots.len() ==> request is None,
    {
        if worker < self.slots.len() {
            self.slots[worker]
        } else {
            None
        }
    }

    /// Offers `request` to the pool. It starts on the idle worker of lowest
    /// index; with no idle worker it joins the queue; with the queue at its
    /// limit it is refused and the pool is unchanged.
    pub fn submit(&mut self, request: u64) -> (admission: Admission)
        requires
            old(self).wf(),
        ensures
            final(self).wf(),
            final(self)@.limit == old(self)@.limit,
            load(final(self)@) == load(old(self)@) + (if admission is Busy {
                0nat
            } else {
                1nat
            }),
            match admission {
                Admission::Started { worker } => {
                    &&& worker < old(self)@.slots.len()
                    &&& old(self)@.slots[worker as int] is None
                    &&& all_busy(old(self)@.slots.take(worker as int))
                    &&& final(self)@.slots == old(self)@.slots.update(
                        worker as int,
                        Some(request),
                    )
                    &&& final(self)@.queue == old(self)@.queue
                },
                Admission::Queued => {
                    &&& all_busy(old(self)@.slots)
                    &&& has_room(old(self)@.queue, old(self)@.limit)
                    &&& final(self)@.slots == old(self)@.slots
                    &&& final(self)@.queue == old(self)@.queue.push(request)
                },
                Admission::Busy => {
                    &&& all_busy(old(self)@.slots)
                    &&& !has_room(old(self)@.queue, old(self)@.limit)
                    &&& final(self)@ == old(self)@
                },
            },
    {
        let mut i: usize = 0;
        while i < self.slots.len()
            invariant
                old(self).wf(),
                *self == *old(self),
                i <= self.slots.len(),
                all_busy(self.slots@.take(i as int)),
            decreases self.slots.len() - i,
        {
            if self.slots[i].is_none() {
                assert(old(self)@.slots[i as int] is None);
                proof {
                    lemma_busy_count_update(self.slots@, i as int, Some(request));
                }
                self.slots.set(i, Some(request));
                return Admission::Started { worker: i };
            }
            i += 1;
        }
        assert(self.slots@.take(i as int) =~= self.slots@);
        let room = match self.limit {
            Some(l) => self.queue.len() < l,
            None => true,
        };
        if room {
            self.queue.push(request);
            Admission::Queued
        } else {
            Admission::Busy
        }
    }

    /// Reports that `worker` is done with its request. The oldest waiting
    /// request, if any, starts on that worker and is returned; otherwise the
    /// worker becomes idle. A number that names no worker changes nothing.
    pub fn finish(&mut self, worker: usize) -> (next: Option<u64>)
        requires
            old(self).wf(),
        ensures
            final(self).wf(),
            final(self)@.limit == old(self)@.limit,
            worker >= old(self)@.slots.len() ==> next is None && final(self)@ == old(self)@,
            worker < old(self)@.slots.len() ==> load(final(self)@) + (if old(
                self,
            )@.slots[worker as int] is Some {
                1nat
            } else {
                0nat
            }) == load(old(self)@),
            worker < old(self)@.slots.len() && old(self)@.queue.len() == 0 ==> {
                &&& next is None
                &&& final(self)@.slots == old(self)@.slots.update(worker as int, None)
                &&& final(self)@.queue == old(self)@.queue
            },
            worker < old(self)@.slots.len() && old(self)@.queue.len() > 0 ==> {
                &&& next == Some(old(self)@.queue[0])
                &&& final(self)@.slots == old(self)@.slots.update(worker as int, next)
                &&& final(self)@.queue == old(self)@.queue.drop_first()
            },
    {
        if worker >= self.slots.len() {
            return None;
        }
        if self.queue.len() == 0 {
            proof {
                lemma_busy_count_update(self.slots@, worker as int, None);
            }
            self.slots.set(worker, None);
            None
        } else {
            let request = self.queue.remove(0);
            proof {
                assert(self.slots@[worker as int] is Some);
                lemma_busy_count_update(self.slots@, worker as int, Some(request));
            }
            self.slots.set(worker, Some(request));
            assert(self.queue@ =~= old(self)@.queue.drop_first());
            Some(request)
        }
    }

    /// Withdraws the oldest waiting entry for `request`, which costs nothing
    /// because no proof has started for it. Returns whether one was waiting.
    pub fn cancel_queued(&mut self, request: u64) -> (found: bool)
        requires
            old(self).wf(),
        ensures
            final(self).wf(),
            final(self)@.limit == old(self)@.limit,
            final(self)@.slots == old(self)@.slots,
            load(final(self)@) + (if found {
                1nat
            } else {
                0nat
            }) == load(old(self)@),
            found == old(self)@.queue.contains(request),
            found ==> exists|at: int|
                {
                    &&& 0 <= at < old(self)@.queue.len()
                    &&& old(self)@.queue[at] == request
                    &&& !old(self)@.queue.take(at).contains(request)
                    &&& final(self)@.queue == #[trigger] old(self)@.queue.remove(at)
                },
            !found ==> final(self)@.queue == old(self)@.queue,
    {
        let mut i: usize = 0;
        while i < self.queue.len()
            invariant
                old(self).wf(),
                *self == *old(self),
                i <= self.queue.len(),
                forall|k: int| 0 <= k < i ==> self.queue@[k] != request,
            decreases self.queue.len() - i,
        {
            if self.queue[i] == request {
                assert(self.queue@.contains(request));
                self.queue.remove(i);
                proof {
                    let before = old(self)@.queue;
                    let at = i as int;
                    assert(self.queue@ == before.remove(at));
                    assert(!before.take(at).contains(request)) by {
                        if before.take(at).contains(request) {
                            let k = choose|k: int|
                                0 <= k < before.take(at).len() && before.take(at)[k] == request;
                            assert(before[k] == request);
                        }
                    };
                }
                return true;
            }
            i += 1;
        }
        assert(!self.queue@.contains(request));
        false
    }
}

} // verus!
