//! The ledger state that the dispatcher and the workers share.

use crate::model::Ledger;
use crate::types::{AccountId, HandleId, LedgerError, TxCount, INVALID_HANDLE};
use std::collections::HashMap;
use vstd::prelude::*;

verus! {

/// Balances, pending counts, affinities and worker loads.
///
/// Every operation needs exclusive access for its whole duration: callers
/// that share a `ServerData` keep it behind one lock.
pub struct ServerData {
    worker_count: usize,
    pending_tx: HashMap<AccountId, TxCount>,
    tx_count: HashMap<HandleId, TxCount>,
    handler: HashMap<AccountId, HandleId>,
    balances: HashMap<AccountId, u32>,
}

impl View for ServerData {
    type V = Ledger;

    closed spec fn view(&self) -> Ledger {
        Ledger {
            workers: self.worker_count as int,
            pending: Map::total(
                |a: AccountId|
                    if self.pending_tx@.contains_key(a) {
                        self.pending_tx@[a] as nat
                    } else {
                        0
                    },
            ),
            load: Map::total(
                |w: HandleId|
                    if self.tx_count@.contains_key(w) {
                        self.tx_count@[w] as nat
                    } else {
                        0
                    },
            ),
            handler: Map::total(
                |a: AccountId|
                    if self.handler@.contains_key(a) {
                        self.handler@[a]
                    } else {
                        INVALID_HANDLE
                    },
            ),
            balances: Map::new(
                |a: AccountId| self.balances@.contains_key(a),
                |a: AccountId| self.balances@[a] as nat,
            ),
        }
    }
}

impl ServerData {
    /// The ledger of a fresh pool of `worker_count` workers: no balance, no
    /// pending transaction, no affinity, no load.
    pub fn new(worker_count: usize) -> (data: ServerData)
        requires
            1 <= worker_count <= i32::MAX,
        ensures
            data@ == Ledger::init(worker_count as int),
            data@.wf(),
    {
        let data = ServerData {
            worker_count,
            pending_tx: HashMap::new(),
            tx_count: HashMap::new(),
            handler: HashMap::new(),
            balances: HashMap::new(),
        };
        assert(data@.pending =~= Ledger::init(worker_count as int).pending);
        assert(data@.load =~= Ledger::init(worker_count as int).load);
        assert(data@.handler =~= Ledger::init(worker_count as int).handler);
        assert(data@.balances =~= Ledger::init(worker_count as int).balances);
        data
    }

    /// The number of workers in the pool.
    pub fn worker_count(&self) -> (n: usize)
        ensures
            n == self@.workers,
    {
        self.worker_count
    }

    /// Counts `amount` more pending transactions for `account` and returns
    /// the new count.
    pub fn increase_pending_tx(&mut self, account: AccountId, amount: TxCount) -> (pending: TxCount)
        requires
            old(self)@.pending[account] + amount <= TxCount::MAX,
        ensures
            final(self)@ == old(self)@.add_pending(account, amount as nat),
            pending == final(self)@.pending[account],
    {
        let pending = self.pending_tx.entry(account).or_insert(0);
        *pending += amount;
        let pending: TxCount = *pending;
        assert(self@.pending =~= old(self)@.add_pending(account, amount as nat).pending);
        pending
    }

    /// Counts `amount` fewer pending transactions for `account`, never fewer
    /// than none, and returns the new count.
    pub fn decrease_pending_tx(&mut self, account: AccountId, amount: TxCount) -> (pending: TxCount)
        ensures
            final(self)@ == old(self)@.sub_pending(account, amount as nat),
            pending == final(self)@.pending[account],
    {
        let current: Option<TxCount> = match self.pending_tx.get(&account) {
            None => None,
            Some(pending) => Some(*pending),
        };
        let pending: TxCount = match current {
            None => 0,
            Some(pending) => {
                let lowered: TxCount = if pending > amount {
                    pending - amount
                } else {
                    0
                };
                self.pending_tx.insert(account, lowered);
                lowered
            },
        };
        assert(self@.pending =~= old(self)@.sub_pending(account, amount as nat).pending);
        pending
    }

    /// The number of transactions pending for `account`: zero for an account
    /// that was never seen.
    pub fn get_pending_tx(&self, account: AccountId) -> (pending: TxCount)
        ensures
            pending == self@.pending[account],
    {
        match self.pending_tx.get(&account) {
            None => 0,
            Some(pending) => *pending,
        }
    }

    /// Counts `amount` more transactions assigned to the worker `handle_id`.
    pub fn increase_tx_count(&mut self, handle_id: HandleId, amount: TxCount)
        requires
            old(self)@.load[handle_id] + amount <= TxCount::MAX,
        ensures
            final(self)@ == old(self)@.add_load(handle_id, amount as nat),
    {
        *self.tx_count.entry(handle_id).or_insert(0) += amount;
        assert(self@.load =~= old(self)@.add_load(handle_id, amount as nat).load);
    }

    /// Counts `amount` fewer transactions assigned to the worker `handle_id`,
    /// never fewer than none.
    pub fn decrease_tx_count(&mut self, handle_id: HandleId, amount: TxCount)
        ensures
            final(self)@ == old(self)@.sub_load(handle_id, amount as nat),
    {
        let current: Option<TxCount> = match self.tx_count.get(&handle_id) {
            None => None,
            Some(count) => Some(*count),
        };
        match current {
            None => {},
            Some(count) => {
                let lowered: TxCount = if count > amount {
                    count - amount
                } else {
                    0
                };
                self.tx_count.insert(handle_id, lowered);
            },
        }
        assert(self@.load =~= old(self)@.sub_load(handle_id, amount as nat).load);
    }

    /// The number of transactions assigned to the worker `handle_id`.
    pub fn get_tx_count(&self, handle_id: HandleId) -> (count: TxCount)
        ensures
            count == self@.load[handle_id],
    {
        match self.tx_count.get(&handle_id) {
            None => 0,
            Some(count) => *count,
        }
    }

    /// Adds `amount` to the balance of `account`. An account without a
    /// balance entry gets one.
    pub fn increase_balance(&mut self, account: AccountId, amount: u32)
        requires
            old(self)@.balance_of(account) + amount <= u32::MAX,
        ensures
            final(self)@ == old(self)@.credit(account, amount as nat),
    {
        *self.balances.entry(account).or_insert(0) += amount;
        assert(self@.balances =~= old(self)@.credit(account, amount as nat).balances);
    }

    /// Takes `amount` from the balance of `account`.
    ///
    /// The withdrawal is rejected, and nothing changes, when the account has
    /// no balance entry (`UnknownAccount`) or when its balance is smaller than
    /// `amount` (`InsufficientFunds`).
    pub fn decrease_balance(&mut self, account: AccountId, amount: u32) -> (result: Result<
        (),
        LedgerError,
    >)
        ensures
            final(self)@ == old(self)@.debit(account, amount as nat),
            match old(self)@.refusal(account, amount as nat) {
                Some(error) => result == Err::<(), LedgerError>(error),
                None => result is Ok,
            },
    {
        let current: Option<u32> = match self.balances.get(&account) {
            None => None,
            Some(balance) => Some(*balance),
        };
        match current {
            None => Err(LedgerError::UnknownAccount),
            Some(balance) => {
                if balance < amount {
                    Err(LedgerError::InsufficientFunds)
                } else {
                    self.balances.insert(account, balance - amount);
                    assert(self@.balances =~= old(self)@.debit(account, amount as nat).balances);
                    Ok(())
                }
            },
        }
    }

    /// The balance of `account`: zero for an account without history.
    pub fn get_balance(&self, account: AccountId) -> (balance: u32)
        ensures
            balance == self@.balance_of(account),
    {
        if let Some(x) = self.balances.get(&account) {
            *x
        } else {
            0
        }
    }

    /// The worker that `account` is bound to, or `INVALID_HANDLE` when it is
    /// bound to none.
    pub fn handle_of(&self, account: AccountId) -> (handle: HandleId)
        ensures
            handle == self@.handler[account],
    {
        match self.handler.get(&account) {
            None => INVALID_HANDLE,
            Some(handle) => *handle,
        }
    }

    /// Binds `account` to the worker `handle_id`, or to none when `handle_id`
    /// is `INVALID_HANDLE`.
    pub fn set_handle(&mut self, account: AccountId, handle_id: HandleId)
        requires
            handle_id == INVALID_HANDLE || old(self)@.is_worker(handle_id),
        ensures
            final(self)@ == old(self)@.bind(account, handle_id),
    {
        *self.handler.entry(account).or_insert(INVALID_HANDLE) = handle_id;
        assert(self@.handler =~= old(self)@.bind(account, handle_id).handler);
    }

    /// The worker that the next transaction for `account` goes to: the worker
    /// bound to the account, else the least loaded worker, the lowest of them
    /// on a tie. Nothing is committed: the account stays as it was until
    /// `set_handle` binds it.
    pub fn get_handle(&mut self, account: AccountId) -> (handle: HandleId)
        requires
            old(self)@.wf(),
        ensures
            final(self)@ == old(self)@,
            handle == old(self)@.resolve(account),
            old(self)@.is_worker(handle),
    {
        let current_handle: HandleId = *self.handler.entry(account).or_insert(INVALID_HANDLE);
        assert(self@.handler =~= old(self)@.handler);
        if current_handle != INVALID_HANDLE {
            current_handle
        } else {
            let mut hid: HandleId = 0;
            let mut min_count: TxCount = *self.tx_count.entry(0).or_insert(0);
            assert(self@.load =~= old(self)@.load);
            let mut id: usize = 1;
            while id < self.worker_count
                invariant
                    1 <= id <= self.worker_count <= i32::MAX,
                    self@ == old(self)@,
                    min_count == self@.load[hid],
                    self@.is_least_loaded_among(hid, id as int),
                decreases self.worker_count - id,
            {
                let ghost before = self@;
                let count: TxCount = *self.tx_count.entry(id as HandleId).or_insert(0);
                assert(self@.load =~= before.load);
                if count < min_count {
                    min_count = count;
                    hid = id as HandleId;
                }
                id += 1;
            }
            proof {
                self@.lemma_least_loaded_unique(hid);
            }
            hid
        }
    }
}

} // verus!
