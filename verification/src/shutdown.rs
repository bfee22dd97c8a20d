//! Graceful shutdown of the pool: which workers still have to be told to
//! terminate and be waited for.

use crate::types::HandleId;
use vstd::prelude::*;

verus! {

/// The handles `0 .. n` in ascending order.
pub open spec fn handles(n: nat) -> Seq<HandleId> {
    Seq::new(n, |w: int| w as HandleId)
}

/// The first `n` workers that `joined` does not mark, in ascending order.
pub open spec fn unjoined_among(joined: Seq<bool>, n: nat) -> Seq<HandleId> {
    handles(n).filter(|w: HandleId| !joined[w as int])
}

/// The workers that `joined` does not mark, in ascending order.
pub open spec fn unjoined(joined: Seq<bool>) -> Seq<HandleId> {
    unjoined_among(joined, joined.len())
}

/// Every one of `n` workers marked as joined.
pub open spec fn all_joined(n: nat) -> Seq<bool> {
    Seq::new(n, |w: int| true)
}

/// Remembers for each worker of the pool whether it was already waited for,
/// so that no worker is stopped twice.
///
/// Its view says for each worker, by its handle, whether it was joined.
pub struct ShutdownCoordinator {
    joined: Vec<bool>,
}

impl View for ShutdownCoordinator {
    type V = Seq<bool>;

    closed spec fn view(&self) -> Seq<bool> {
        self.joined@
    }
}

impl ShutdownCoordinator {
    /// The pool is small enough for its workers to be named by a handle.
    pub open spec fn wf(&self) -> bool {
        self@.len() <= i32::MAX
    }

    /// The coordinator of a pool of `worker_count` running workers.
    pub fn new(worker_count: usize) -> (coordinator: ShutdownCoordinator)
        requires
            worker_count <= i32::MAX,
        ensures
            coordinator.wf(),
            coordinator@ == Seq::new(worker_count as nat, |w: int| false),
    {
        let mut joined: Vec<bool> = Vec::with_capacity(worker_count);
        let mut id: usize = 0;
        while id < worker_count
            invariant
                id <= worker_count,
                joined@ == Seq::new(id as nat, |w: int| false),
            decreases worker_count - id,
        {
            joined.push(false);
            id += 1;
        }
        ShutdownCoordinator { joined }
    }

    /// The number of workers in the pool.
    pub fn worker_count(&self) -> (n: usize)
        ensures
            n == self@.len(),
    {
        self.joined.len()
    }

    /// Whether `worker` was already joined. A handle that names no worker of
    /// the pool has nothing left to wait for.
    pub fn is_joined(&self, worker: HandleId) -> (joined: bool)
        ensures
            joined == (0 <= worker < self@.len() ==> self@[worker as int]),
    {
        if worker < 0 || worker as usize >= self.joined.len() {
            true
        } else {
            self.joined[worker as usize]
        }
    }

    /// Claims `worker` for joining: true when it was not joined before, in
    /// which case the caller has to wait for it. Afterwards it counts as
    /// joined. A handle that names no worker of the pool is never claimed.
    pub fn claim(&mut self, worker: HandleId) -> (first: bool)
        requires
            old(self).wf(),
        ensures
            final(self).wf(),
            first == (0 <= worker < old(self)@.len() && !old(self)@[worker as int]),
            final(self)@ == if 0 <= worker < old(self)@.len() {
                old(self)@.update(worker as int, true)
            } else {
                old(self)@
            },
    {
        if worker < 0 || worker as usize >= self.joined.len() {
            false
        } else {
            let first: bool = !self.joined[worker as usize];
            self.joined.set(worker as usize, true);
            first
        }
    }

    /// Starts a shutdown: returns the workers that were not joined yet, in
    /// ascending order, and counts every worker as joined from now on.
    ///
    /// The caller sends `Terminate` to each returned worker and then waits
    /// for each of them. A second shutdown returns no worker.
    pub fn shutdown(&mut self) -> (stopping: Vec<HandleId>)
        requires
            old(self).wf(),
        ensures
            final(self).wf(),
            stopping@ == unjoined(old(self)@),
            final(self)@ == all_joined(old(self)@.len()),
    {
        let mut stopping: Vec<HandleId> = Vec::new();
        let count: usize = self.joined.len();
        let mut id: usize = 0;
        assert(unjoined_among(old(self)@, 0) =~= Seq::<HandleId>::empty()) by {
            reveal(Seq::filter);
        }
        while id < count
            invariant
                id <= count == old(self)@.len() <= i32::MAX,
                self.wf(),
                self@.len() == count,
                forall|w: int| 0 <= w < id ==> self@[w],
                forall|w: int| id <= w < count ==> self@[w] == old(self)@[w],
                stopping@ == unjoined_among(old(self)@, id as nat),
            decreases count - id,
        {
            let first: bool = self.claim(id as HandleId);
            proof {
                let pred = |w: HandleId| !old(self)@[w as int];
                assert(handles((id + 1) as nat) =~= handles(id as nat).push(id as HandleId));
                handles(id as nat).lemma_filter_push(id as HandleId, pred);
            }
            if first {
                stopping.push(id as HandleId);
            }
            id += 1;
        }
        stopping
    }
}

/// A shutdown leaves no worker for the next shutdown to stop, and the next
/// shutdown changes nothing.
pub proof fn lemma_shutdown_idempotent(n: nat)
    requires
        n <= i32::MAX,
    ensures
        unjoined(all_joined(n)) == Seq::<HandleId>::empty(),
        all_joined(all_joined(n).len()) == all_joined(n),
{
    let pred = |w: HandleId| !all_joined(n)[w as int];
    let kept = handles(n).filter(pred);
    if kept.len() > 0 {
        handles(n).lemma_filter_pred(pred, 0);
        handles(n).lemma_filter_len(pred);
        lemma_unjoined_are_workers(all_joined(n), n, 0);
    }
}

/// Every handle that a shutdown returns names a worker of the pool that was
/// not joined before.
pub proof fn lemma_unjoined_are_workers(joined: Seq<bool>, n: nat, i: int)
    requires
        n <= joined.len() <= i32::MAX,
        0 <= i < unjoined_among(joined, n).len(),
    ensures
        0 <= unjoined_among(joined, n)[i] < n,
        !joined[unjoined_among(joined, n)[i] as int],
    decreases n,
{
    let pred = |w: HandleId| !joined[w as int];
    reveal(Seq::filter);
    if n > 0 {
        let m = (n - 1) as nat;
        assert(handles(n).drop_last() =~= handles(m));
        if i < unjoined_among(joined, m).len() {
            lemma_unjoined_are_workers(joined, m, i);
        }
    }
}

} // verus!
