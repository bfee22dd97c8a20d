//! The pool as a whole: the ledger together with the queue of every worker.
//!
//! The dispatcher and the workers run concurrently, but each of them touches
//! the ledger in one critical section, so every run of the pool is a sequence
//! of two kinds of step: the dispatcher accepts a transaction, or a worker
//! settles the oldest transaction of its queue. This module states what holds
//! after every such sequence.
//!
//! The ledger part of each step is what `dispatcher::submit` and
//! `Worker::settle` do to a `ServerData`. The queue of a worker stands for
//! everything that was sent to it and is not settled yet, the transaction that
//! it is working on included. A transaction counts as sent when it is
//! accepted: callers that submit from several threads hand each transaction to
//! its queue before they accept the next one.

use crate::history::{
    deposited, lemma_apply_entry, lemma_replay_is_net, never_overdrawn, replay, withdrawn,
};
use crate::model::Ledger;
use crate::types::{AccountId, HandleId, Tx, INVALID_HANDLE};
use vstd::prelude::*;

verus! {

/// Selects the transactions on `account`.
pub open spec fn on_account(account: AccountId) -> spec_fn(Tx) -> bool {
    |tx: Tx| tx.account == account
}

/// One step of the pool.
pub enum Event {
    /// The dispatcher accepts a transaction and sends it to a worker.
    Submit(Tx),
    /// A worker settles the oldest transaction of its queue.
    Settle(HandleId),
}

/// The state of the pool between two steps.
pub struct Pool {
    /// The ledger.
    pub ledger: Ledger,
    /// For each worker, by its handle, the transactions that were sent to it
    /// and are not settled yet, oldest first.
    pub queues: Seq<Seq<Tx>>,
    /// For each account every transaction that was ever accepted for it, in
    /// the order of acceptance.
    pub accepted: Map<AccountId, Seq<Tx>>,
}

impl Pool {
    /// A fresh pool of `workers` workers.
    pub open spec fn init(workers: int) -> Pool {
        Pool {
            ledger: Ledger::init(workers),
            queues: Seq::new(workers as nat, |w: int| Seq::<Tx>::empty()),
            accepted: Map::total(|a: AccountId| Seq::<Tx>::empty()),
        }
    }

    /// The dispatcher accepts `tx`: the ledger does the bookkeeping of
    /// `Ledger::dispatch`, and the transaction joins the queue of the worker
    /// that was resolved for its account.
    pub open spec fn submit(self, tx: Tx) -> Pool {
        let worker = self.ledger.resolve(tx.account) as int;
        Pool {
            ledger: self.ledger.dispatch(tx.account),
            queues: self.queues.update(worker, self.queues[worker].push(tx)),
            accepted: self.accepted.insert(tx.account, self.accepted[tx.account].push(tx)),
        }
    }

    /// `worker` has a transaction to settle.
    pub open spec fn can_settle(self, worker: HandleId) -> bool {
        &&& 0 <= worker < self.queues.len()
        &&& self.queues[worker as int].len() > 0
    }

    /// `worker` settles the oldest transaction of its queue, as
    /// `Ledger::settle` says.
    pub open spec fn settle(self, worker: HandleId) -> Pool {
        let queue = self.queues[worker as int];
        Pool {
            ledger: self.ledger.settle(worker, queue.first()),
            queues: self.queues.update(worker as int, queue.drop_first()),
            accepted: self.accepted,
        }
    }

    /// `event` can happen in this state.
    pub open spec fn enabled(self, event: Event) -> bool {
        match event {
            Event::Submit(_) => true,
            Event::Settle(worker) => self.can_settle(worker),
        }
    }

    /// The state after `event`.
    pub open spec fn step(self, event: Event) -> Pool {
        match event {
            Event::Submit(tx) => self.submit(tx),
            Event::Settle(worker) => self.settle(worker),
        }
    }

    /// The state of a pool of `workers` workers after `events`.
    pub open spec fn run(workers: int, events: Seq<Event>) -> Pool
        decreases events.len(),
    {
        if events.len() == 0 {
            Pool::init(workers)
        } else {
            Pool::run(workers, events.drop_last()).step(events.last())
        }
    }

    /// `events` is a possible run of a pool of `workers` workers: each event
    /// can happen in the state that the events before it lead to.
    pub open spec fn admissible(workers: int, events: Seq<Event>) -> bool
        decreases events.len(),
    {
        events.len() > 0 ==> {
            &&& Pool::admissible(workers, events.drop_last())
            &&& Pool::run(workers, events.drop_last()).enabled(events.last())
        }
    }

    /// Nothing is in flight: every accepted transaction was settled.
    pub open spec fn quiescent(self) -> bool {
        forall|w: int| 0 <= w < self.queues.len() ==> (#[trigger] self.queues[w]).len() == 0
    }

    /// The transactions on `account` that are accepted and not settled yet,
    /// oldest first: they all wait in the queue of the worker that the account
    /// is bound to.
    pub open spec fn in_flight(self, account: AccountId) -> Seq<Tx> {
        if self.ledger.handler[account] == INVALID_HANDLE {
            Seq::empty()
        } else {
            self.queues[self.ledger.handler[account] as int].filter(on_account(account))
        }
    }

    /// The transactions on `account` that were settled, in the order in which
    /// they were accepted.
    pub open spec fn settled(self, account: AccountId) -> Seq<Tx> {
        self.accepted[account].take(
            self.accepted[account].len() - self.ledger.pending[account],
        )
    }

    /// What holds of the worker `w` between two steps: its load is the length
    /// of its queue, and it is the handler of every account that has a
    /// transaction in its queue.
    pub open spec fn worker_inv(self, w: HandleId) -> bool {
        &&& self.ledger.load[w] == self.queues[w as int].len()
        &&& forall|i: int|
            0 <= i < self.queues[w as int].len() ==> self.ledger.handler[(
            #[trigger] self.queues[w as int][i]).account] == w
    }

    /// What holds of the account `a` between two steps: its pending count is
    /// the number of its transactions in flight, it has a handler exactly
    /// while some are in flight, they are the youngest of its accepted
    /// transactions, and its balance entry is what the older ones made it.
    pub open spec fn account_inv(self, a: AccountId) -> bool {
        &&& self.ledger.pending[a] == self.in_flight(a).len()
        &&& self.ledger.handler[a] != INVALID_HANDLE <==> self.ledger.pending[a] > 0
        &&& self.ledger.pending[a] <= self.accepted[a].len()
        &&& self.in_flight(a) == self.accepted[a].skip(
            self.accepted[a].len() - self.ledger.pending[a],
        )
        &&& self.ledger.entry(a) == replay(self.settled(a))
    }

    /// What holds of the pool between two steps.
    pub open spec fn inv(self) -> bool {
        &&& self.ledger.wf()
        &&& self.queues.len() == self.ledger.workers
        &&& forall|a: AccountId| #[trigger] self.accepted.contains_key(a)
        &&& forall|w: HandleId| self.ledger.is_worker(w) ==> #[trigger] self.worker_inv(w)
        &&& forall|a: AccountId| #[trigger] self.account_inv(a)
    }

    /// A fresh pool is in order.
    pub proof fn lemma_init_inv(workers: int)
        requires
            1 <= workers <= i32::MAX,
        ensures
            Pool::init(workers).inv(),
    {
        let pool = Pool::init(workers);
        assert forall|a: AccountId| #[trigger] pool.account_inv(a) by {
            assert(pool.settled(a) =~= Seq::<Tx>::empty());
        }
    }

    /// Accepting a transaction keeps the pool in order.
    pub proof fn lemma_submit_inv(self, tx: Tx)
        requires
            self.inv(),
        ensures
            self.submit(tx).inv(),
    {
        let next = self.submit(tx);
        let worker = self.ledger.resolve(tx.account);
        let queue = self.queues[worker as int];
        self.ledger.lemma_resolve_is_worker(tx.account);
        assert(self.worker_inv(worker));
        assert forall|w: HandleId| next.ledger.is_worker(w) implies #[trigger] next.worker_inv(
            w,
        ) by {
            assert(self.worker_inv(w));
        }
        assert forall|a: AccountId| #[trigger] next.account_inv(a) by {
            assert(self.account_inv(a));
            queue.lemma_filter_push(tx, on_account(a));
            if a == tx.account {
                if self.ledger.handler[a] == INVALID_HANDLE {
                    // A queue holds nothing of an account that is bound to no worker.
                    lemma_filter_none(queue, on_account(a));
                }
                let accepted = self.accepted[a];
                let start = accepted.len() - self.ledger.pending[a];
                assert(accepted.push(tx).skip(start) =~= accepted.skip(start).push(tx));
                assert(accepted.push(tx).take(start) =~= accepted.take(start));
            }
        }
    }

    /// Settling the oldest transaction of a queue keeps the pool in order.
    pub proof fn lemma_settle_inv(self, worker: HandleId)
        requires
            self.inv(),
            self.can_settle(worker),
        ensures
            self.settle(worker).inv(),
    {
        let next = self.settle(worker);
        let queue = self.queues[worker as int];
        let tx = queue.first();
        let rest = queue.drop_first();
        assert(self.worker_inv(worker));
        assert(self.account_inv(tx.account));
        assert(queue =~= seq![tx] + rest);
        lemma_apply_entry(self.ledger, tx);
        rest.lemma_filter_prepend(tx, on_account(tx.account));
        let left = rest.filter(on_account(tx.account));
        if left.len() == 0 {
            // The account is released: nothing of it is left in the queue.
            lemma_filter_empty(rest, on_account(tx.account));
        }
        assert forall|w: HandleId| next.ledger.is_worker(w) implies #[trigger] next.worker_inv(
            w,
        ) by {
            assert(self.worker_inv(w));
            if w == worker {
                assert forall|i: int| 0 <= i < rest.len() implies next.ledger.handler[(
                #[trigger] rest[i]).account] == w by {
                    assert(self.ledger.handler[queue[i + 1].account] == w);
                }
            }
        }
        assert forall|a: AccountId| #[trigger] next.account_inv(a) by {
            assert(self.account_inv(a));
            let accepted = self.accepted[a];
            let start = accepted.len() - self.ledger.pending[a];
            if a == tx.account {
                // The oldest transaction in flight moves over to the settled ones.
                assert(accepted.skip(start)[0] == tx);
                assert(left =~= (seq![tx] + left).drop_first());
                assert(accepted.skip(start + 1) =~= accepted.skip(start).drop_first());
                assert(next.in_flight(a) =~= accepted.skip(start + 1));
                assert(accepted.take(start + 1).drop_last() =~= accepted.take(start));
                assert(accepted.take(start + 1).last() == tx);
            } else {
                rest.lemma_filter_prepend(tx, on_account(a));
                assert(next.settled(a) == self.settled(a));
            }
        }
    }

    /// Every possible run keeps the pool in order.
    pub proof fn lemma_run_inv(workers: int, events: Seq<Event>)
        requires
            1 <= workers <= i32::MAX,
            Pool::admissible(workers, events),
        ensures
            Pool::run(workers, events).inv(),
            Pool::run(workers, events).ledger.workers == workers,
        decreases events.len(),
    {
        if events.len() == 0 {
            Pool::lemma_init_inv(workers);
        } else {
            Pool::lemma_run_inv(workers, events.drop_last());
            let before = Pool::run(workers, events.drop_last());
            match events.last() {
                Event::Submit(tx) => before.lemma_submit_inv(tx),
                Event::Settle(worker) => {
                    before.lemma_settle_inv(worker);
                    lemma_apply_entry(before.ledger, before.queues[worker as int].first());
                },
            }
        }
    }
}

impl Pool {
    /// This state is what some possible run of some pool leads to.
    pub open spec fn reachable(self) -> bool {
        exists|workers: int, events: Seq<Event>|
            1 <= workers <= i32::MAX && Pool::admissible(workers, events) && self
                == #[trigger] Pool::run(workers, events)
    }

    /// Every reachable state is in order.
    pub proof fn lemma_reachable_inv(self)
        requires
            self.reachable(),
        ensures
            self.inv(),
    {
        let (workers, events) = choose|workers: int, events: Seq<Event>|
            1 <= workers <= i32::MAX && Pool::admissible(workers, events) && self
                == #[trigger] Pool::run(workers, events);
        Pool::lemma_run_inv(workers, events);
    }

    /// A fresh pool is reachable.
    pub proof fn lemma_init_reachable(workers: int)
        requires
            1 <= workers <= i32::MAX,
        ensures
            Pool::init(workers).reachable(),
    {
        assert(Pool::admissible(workers, Seq::<Event>::empty()));
        assert(Pool::init(workers) == Pool::run(workers, Seq::<Event>::empty()));
    }

    /// A step that can happen leads from a reachable state to a reachable
    /// state.
    pub proof fn lemma_step_reachable(self, event: Event)
        requires
            self.reachable(),
            self.enabled(event),
        ensures
            self.step(event).reachable(),
    {
        let (workers, events) = choose|workers: int, events: Seq<Event>|
            1 <= workers <= i32::MAX && Pool::admissible(workers, events) && self
                == #[trigger] Pool::run(workers, events);
        let longer = events.push(event);
        assert(longer.drop_last() =~= events);
        assert(self.step(event) == Pool::run(workers, longer));
    }

    /// Whenever nothing is in flight, no transaction is pending for any
    /// account and no account is bound to a worker.
    pub proof fn lemma_quiescent_accounts_are_released(self, account: AccountId)
        requires
            self.reachable(),
            self.quiescent(),
        ensures
            self.ledger.pending[account] == 0,
            self.ledger.handler[account] == INVALID_HANDLE,
    {
        self.lemma_reachable_inv();
        assert(self.account_inv(account));
        let handle = self.ledger.handler[account];
        if handle != INVALID_HANDLE {
            self.queues[handle as int].lemma_filter_len(on_account(account));
        }
    }

    /// The pending count of an account is the number of its transactions in
    /// flight, and the account is bound to a worker exactly while there are
    /// some.
    pub proof fn lemma_bound_while_pending(self, account: AccountId)
        requires
            self.reachable(),
        ensures
            self.ledger.pending[account] == self.in_flight(account).len(),
            self.ledger.handler[account] != INVALID_HANDLE <==> self.ledger.pending[account] > 0,
            self.ledger.handler[account] != INVALID_HANDLE ==> self.ledger.is_worker(
                self.ledger.handler[account],
            ),
    {
        self.lemma_reachable_inv();
        assert(self.account_inv(account));
    }

    /// The load of a worker never drifts: it always is the number of
    /// transactions that were sent to the worker and are not settled yet. So
    /// it is zero again whenever nothing is in flight.
    pub proof fn lemma_load_is_queue_length(self, worker: HandleId)
        requires
            self.reachable(),
            self.ledger.is_worker(worker),
        ensures
            self.ledger.load[worker] == self.queues[worker as int].len(),
            self.quiescent() ==> self.ledger.load[worker] == 0,
    {
        self.lemma_reachable_inv();
        assert(self.worker_inv(worker));
    }

    /// The counters never have to stop at zero: when a worker settles a
    /// transaction, it is counted in the worker's load and in the pending
    /// count of its account, and the account is bound to that worker.
    pub proof fn lemma_settle_finds_its_counts(self, worker: HandleId)
        requires
            self.reachable(),
            self.can_settle(worker),
        ensures
            self.ledger.load[worker] >= 1,
            self.ledger.pending[self.queues[worker as int].first().account] >= 1,
            self.ledger.handler[self.queues[worker as int].first().account] == worker,
    {
        self.lemma_reachable_inv();
        assert(self.worker_inv(worker));
        assert(self.account_inv(self.queues[worker as int].first().account));
    }

    /// An account is served by one worker at a time: any two transactions in
    /// flight on the same account wait in the same queue, that of the worker
    /// the account is bound to. So no worker settles a transaction of an
    /// account while another worker still holds an older one of that account.
    pub proof fn lemma_one_worker_per_account(self, w1: HandleId, i1: int, w2: HandleId, i2: int)
        requires
            self.reachable(),
            self.ledger.is_worker(w1),
            self.ledger.is_worker(w2),
            0 <= i1 < self.queues[w1 as int].len(),
            0 <= i2 < self.queues[w2 as int].len(),
            self.queues[w1 as int][i1].account == self.queues[w2 as int][i2].account,
        ensures
            w1 == w2,
            self.ledger.handler[self.queues[w1 as int][i1].account] == w1,
    {
        self.lemma_reachable_inv();
        assert(self.worker_inv(w1));
        assert(self.worker_inv(w2));
    }

    /// The affinity of an account changes only while nothing is pending for
    /// it: a step that changes it either binds an account that had nothing
    /// pending or releases an account whose last pending transaction it
    /// settled.
    pub proof fn lemma_affinity_changes_only_when_drained(self, event: Event, account: AccountId)
        requires
            self.reachable(),
            self.enabled(event),
            self.step(event).ledger.handler[account] != self.ledger.handler[account],
        ensures
            self.ledger.pending[account] == 0 || self.step(event).ledger.pending[account] == 0,
    {
        self.lemma_reachable_inv();
        assert(self.account_inv(account));
        match event {
            Event::Submit(tx) => {},
            Event::Settle(worker) => {
                lemma_apply_entry(self.ledger, self.queues[worker as int].first());
            },
        }
    }

    /// The transactions on one account are settled in the order in which they
    /// were accepted, whatever happens on other accounts and whichever
    /// workers serve it: its balance entry is what its settled transactions
    /// make of a fresh account, one after the other.
    pub proof fn lemma_settled_in_order_of_acceptance(self, account: AccountId)
        requires
            self.reachable(),
        ensures
            self.ledger.pending[account] <= self.accepted[account].len(),
            self.ledger.entry(account) == replay(self.settled(account)),
            self.in_flight(account) == self.accepted[account].skip(
                self.accepted[account].len() - self.ledger.pending[account],
            ),
            self.ledger.pending[account] == 0 ==> self.settled(account) == self.accepted[account],
    {
        self.lemma_reachable_inv();
        assert(self.account_inv(account));
    }

    /// When no withdrawal exceeds the running balance, the balance of an
    /// account is the sum of its settled deposits minus the sum of its
    /// settled withdrawals. Once nothing is pending for the account, these
    /// are all the deposits and withdrawals that were ever accepted for it.
    pub proof fn lemma_balance_is_deposits_minus_withdrawals(self, account: AccountId)
        requires
            self.reachable(),
            never_overdrawn(self.settled(account)),
        ensures
            self.ledger.balance_of(account) == deposited(self.settled(account)) - withdrawn(
                self.settled(account),
            ),
            self.ledger.pending[account] == 0 ==> self.ledger.balance_of(account) == deposited(
                self.accepted[account],
            ) - withdrawn(self.accepted[account]),
    {
        self.lemma_settled_in_order_of_acceptance(account);
        lemma_replay_is_net(self.settled(account));
    }
}

/// A sequence without a match keeps nothing when it is filtered.
proof fn lemma_filter_none(s: Seq<Tx>, pred: spec_fn(Tx) -> bool)
    requires
        forall|i: int| 0 <= i < s.len() ==> !pred(#[trigger] s[i]),
    ensures
        s.filter(pred) == Seq::<Tx>::empty(),
    decreases s.len(),
{
    reveal(Seq::filter);
    if s.len() > 0 {
        lemma_filter_none(s.drop_last(), pred);
    }
}

/// A sequence that keeps nothing when it is filtered has no match.
proof fn lemma_filter_empty(s: Seq<Tx>, pred: spec_fn(Tx) -> bool)
    requires
        s.filter(pred).len() == 0,
    ensures
        forall|i: int| 0 <= i < s.len() ==> !pred(#[trigger] s[i]),
{
    assert forall|i: int| 0 <= i < s.len() implies !pred(#[trigger] s[i]) by {
        if pred(s[i]) {
            s.lemma_filter_contains(pred, i);
        }
    }
}

} // verus!
