//! The mathematical model of the ledger: what an observer can tell about
//! balances, pending counts, worker loads and affinities, and how each
//! operation changes it.

use crate::types::{AccountId, HandleId, LedgerError, Tx, TxType, INVALID_HANDLE};
use vstd::prelude::*;

verus! {

/// `count` lowered by `n`, stopping at zero.
pub open spec fn lowered(count: nat, n: nat) -> nat {
    if count > n {
        (count - n) as nat
    } else {
        0
    }
}

/// The observable state of the ledger.
///
/// `pending`, `load` and `handler` are total: an account that was never
/// mentioned has no pending transaction and no handler, a worker that was
/// never mentioned has no load. `balances` holds the accounts that own a
/// balance entry; every other account has balance zero.
pub struct Ledger {
    /// The number of workers in the pool.
    pub workers: int,
    /// Transactions accepted for an account and not yet settled.
    pub pending: Map<AccountId, nat>,
    /// Transactions assigned to a worker and not yet settled.
    pub load: Map<HandleId, nat>,
    /// The worker responsible for an account, or `INVALID_HANDLE`.
    pub handler: Map<AccountId, HandleId>,
    /// The balance of each account that has an entry.
    pub balances: Map<AccountId, nat>,
}

impl Ledger {
    /// The ledger of a fresh pool of `workers` workers.
    pub open spec fn init(workers: int) -> Ledger {
        Ledger {
            workers,
            pending: Map::total(|a: AccountId| 0nat),
            load: Map::total(|w: HandleId| 0nat),
            handler: Map::total(|a: AccountId| INVALID_HANDLE),
            balances: Map::empty(),
        }
    }

    /// `w` names a worker of the pool.
    pub open spec fn is_worker(self, w: HandleId) -> bool {
        0 <= w < self.workers
    }

    /// `pending`, `load` and `handler` say something of every account and of
    /// every handle.
    pub open spec fn total(self) -> bool {
        &&& forall|a: AccountId| #[trigger] self.pending.contains_key(a)
        &&& forall|w: HandleId| #[trigger] self.load.contains_key(w)
        &&& forall|a: AccountId| #[trigger] self.handler.contains_key(a)
    }

    /// The pool is not empty, its workers can be named by a `HandleId`, and
    /// every account is either unassigned or assigned to a worker of the pool.
    pub open spec fn wf(self) -> bool {
        &&& self.total()
        &&& 1 <= self.workers <= i32::MAX
        &&& forall|a: AccountId|
            (#[trigger] self.handler[a]) == INVALID_HANDLE || self.is_worker(self.handler[a])
    }

    /// The balance of `account`: zero when it has no entry.
    pub open spec fn balance_of(self, account: AccountId) -> nat {
        if self.balances.contains_key(account) {
            self.balances[account]
        } else {
            0
        }
    }

    /// The balance entry of `account`, if it has one.
    pub open spec fn entry(self, account: AccountId) -> Option<nat> {
        if self.balances.contains_key(account) {
            Some(self.balances[account])
        } else {
            None
        }
    }

    /// `n` more transactions are pending for `account`.
    pub open spec fn add_pending(self, account: AccountId, n: nat) -> Ledger {
        Ledger { pending: self.pending.insert(account, self.pending[account] + n), ..self }
    }

    /// `n` fewer transactions are pending for `account`, never below zero.
    pub open spec fn sub_pending(self, account: AccountId, n: nat) -> Ledger {
        Ledger { pending: self.pending.insert(account, lowered(self.pending[account], n)), ..self }
    }

    /// `n` more transactions are assigned to `worker`.
    pub open spec fn add_load(self, worker: HandleId, n: nat) -> Ledger {
        Ledger { load: self.load.insert(worker, self.load[worker] + n), ..self }
    }

    /// `n` fewer transactions are assigned to `worker`, never below zero.
    pub open spec fn sub_load(self, worker: HandleId, n: nat) -> Ledger {
        Ledger { load: self.load.insert(worker, lowered(self.load[worker], n)), ..self }
    }

    /// `amount` is added to the balance of `account`, which gets an entry.
    pub open spec fn credit(self, account: AccountId, amount: nat) -> Ledger {
        Ledger { balances: self.balances.insert(account, self.balance_of(account) + amount), ..self }
    }

    /// Why a withdrawal of `amount` from `account` is rejected, if it is.
    pub open spec fn refusal(self, account: AccountId, amount: nat) -> Option<LedgerError> {
        if !self.balances.contains_key(account) {
            Some(LedgerError::UnknownAccount)
        } else if self.balances[account] < amount {
            Some(LedgerError::InsufficientFunds)
        } else {
            None
        }
    }

    /// `amount` is taken from the balance of `account`; a withdrawal that is
    /// refused changes nothing.
    pub open spec fn debit(self, account: AccountId, amount: nat) -> Ledger {
        if self.refusal(account, amount) is None {
            Ledger {
                balances: self.balances.insert(account, (self.balances[account] - amount) as nat),
                ..self
            }
        } else {
            self
        }
    }

    /// `account` is bound to `handle`.
    pub open spec fn bind(self, account: AccountId, handle: HandleId) -> Ledger {
        Ledger { handler: self.handler.insert(account, handle), ..self }
    }

    /// `w` is the least loaded of the first `n` workers: none of them has a
    /// smaller load, and every worker before it has a larger one.
    pub open spec fn is_least_loaded_among(self, w: HandleId, n: int) -> bool {
        &&& 0 <= w < n
        &&& forall|v: HandleId| 0 <= v < w ==> (#[trigger] self.load[v]) > self.load[w]
        &&& forall|v: HandleId| w <= v < n ==> (#[trigger] self.load[v]) >= self.load[w]
    }

    /// `w` is the least loaded worker of the pool, the lowest of them on a tie.
    pub open spec fn is_least_loaded(self, w: HandleId) -> bool {
        self.is_least_loaded_among(w, self.workers)
    }

    /// The least loaded worker of the pool.
    pub open spec fn least_loaded(self) -> HandleId {
        choose|w: HandleId| self.is_least_loaded(w)
    }

    /// The worker that the next transaction for `account` goes to: the one
    /// already bound to the account, else the least loaded one.
    pub open spec fn resolve(self, account: AccountId) -> HandleId {
        if self.handler[account] != INVALID_HANDLE {
            self.handler[account]
        } else {
            self.least_loaded()
        }
    }

    /// The bookkeeping of one accepted transaction for `account`: the account
    /// is bound to its resolved worker, and one more transaction is pending for
    /// the account and assigned to that worker.
    pub open spec fn dispatch(self, account: AccountId) -> Ledger {
        let worker = self.resolve(account);
        self.bind(account, worker).add_pending(account, 1).add_load(worker, 1)
    }

    /// Why `tx` is rejected when it is applied, if it is.
    pub open spec fn rejection(self, tx: Tx) -> Option<LedgerError> {
        match tx.tx_type {
            TxType::Deposit => None,
            TxType::Withdraw => self.refusal(tx.account, tx.amount as nat),
        }
    }

    /// The balances after `tx` was applied.
    pub open spec fn apply(self, tx: Tx) -> Ledger {
        match tx.tx_type {
            TxType::Deposit => self.credit(tx.account, tx.amount as nat),
            TxType::Withdraw => self.debit(tx.account, tx.amount as nat),
        }
    }

    /// The affinity of `account` is released if nothing is pending for it.
    pub open spec fn release_if_drained(self, account: AccountId) -> Ledger {
        if self.pending[account] == 0 {
            self.bind(account, INVALID_HANDLE)
        } else {
            self
        }
    }

    /// `worker` settles `tx`: the transaction is applied or rejected, one
    /// transaction fewer is pending for its account, the account loses its
    /// affinity when that was the last one, and the worker's load drops by one.
    pub open spec fn settle(self, worker: HandleId, tx: Tx) -> Ledger {
        self.apply(tx).sub_pending(tx.account, 1).release_if_drained(tx.account).sub_load(worker, 1)
    }

    /// Some worker of a pool that is not empty is the least loaded one.
    pub proof fn lemma_least_loaded_exists(self)
        requires
            1 <= self.workers <= i32::MAX,
        ensures
            self.is_least_loaded(self.least_loaded()),
    {
        self.lemma_least_loaded_among(self.workers);
        let w = choose|w: HandleId| self.is_least_loaded_among(w, self.workers);
        assert(self.is_least_loaded(w));
    }

    /// At most one worker is the least loaded one.
    pub proof fn lemma_least_loaded_unique(self, w: HandleId)
        requires
            self.is_least_loaded(w),
        ensures
            self.least_loaded() == w,
    {
        let c = self.least_loaded();
        assert(self.is_least_loaded(c));
        if c < w {
            assert(self.load[c] > self.load[w]);
        } else if w < c {
            assert(self.load[w] > self.load[c]);
        }
    }

    proof fn lemma_least_loaded_among(self, n: int)
        requires
            1 <= n <= i32::MAX,
        ensures
            exists|w: HandleId| self.is_least_loaded_among(w, n),
        decreases n,
    {
        if n == 1 {
            assert(self.is_least_loaded_among(0, n));
        } else {
            let m = n - 1;
            self.lemma_least_loaded_among(m);
            let w = choose|w: HandleId| self.is_least_loaded_among(w, m);
            let last = m as HandleId;
            if self.load[last] < self.load[w] {
                assert(self.is_least_loaded_among(last, n));
            } else {
                assert(self.is_least_loaded_among(w, n));
            }
        }
    }

    /// Accepting a transaction for an account that is bound to a worker
    /// re-affirms that worker, and accepting a transaction never touches a
    /// balance.
    pub proof fn lemma_dispatch_keeps_binding(self, account: AccountId)
        requires
            self.wf(),
        ensures
            self.handler[account] != INVALID_HANDLE ==> self.dispatch(account).handler
                == self.handler,
            self.dispatch(account).balances == self.balances,
            self.dispatch(account).wf(),
    {
        self.lemma_resolve_is_worker(account);
    }

    /// The worker that a transaction is sent to is a worker of the pool.
    pub proof fn lemma_resolve_is_worker(self, account: AccountId)
        requires
            self.wf(),
        ensures
            self.is_worker(self.resolve(account)),
    {
        self.lemma_least_loaded_exists();
    }
}

} // verus!
