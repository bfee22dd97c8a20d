//! The entry point for callers: accepts a transaction, does its bookkeeping
//! in one critical section, and says which worker it has to be sent to.

use crate::server_data::ServerData;
use crate::types::{AccountId, HandleId, Message, Tx, TxCount, TxType};
use vstd::prelude::*;

verus! {

/// An accepted transaction on its way to a worker: the caller sends
/// `message` on the queue of `worker`, after it has released the ledger.
#[derive(Clone, Copy, Debug, PartialEq, Eq, Structural)]
pub struct Dispatch {
    pub worker: HandleId,
    pub message: Message,
}

/// Accepts a transaction of `amount` on `account`.
///
/// The account is bound to the worker that `get_handle` resolves for it, one
/// more transaction is pending for the account and one more is assigned to
/// that worker. The result names the worker and holds the message for its
/// queue. Nothing is applied yet: balances stay as they are.
pub fn submit(data: &mut ServerData, account: AccountId, amount: u32, tx_type: TxType) -> (dispatch:
    Dispatch)
    requires
        old(data)@.wf(),
        old(data)@.pending[account] < TxCount::MAX,
        old(data)@.load[old(data)@.resolve(account)] < TxCount::MAX,
    ensures
        final(data)@ == old(data)@.dispatch(account),
        final(data)@.wf(),
        dispatch.worker == old(data)@.resolve(account),
        old(data)@.is_worker(dispatch.worker),
        dispatch.message == Message::NewTx(Tx { account, amount, tx_type }),
{
    let id: HandleId = data.get_handle(account);
    data.set_handle(account, id);
    data.increase_pending_tx(account, 1);
    data.increase_tx_count(id, 1);
    Dispatch { worker: id, message: Message::NewTx(Tx { account, amount, tx_type }) }
}

/// Accepts a deposit of `amount` on `account`.
pub fn deposit(data: &mut ServerData, account: AccountId, amount: u32) -> (dispatch: Dispatch)
    requires
        old(data)@.wf(),
        old(data)@.pending[account] < TxCount::MAX,
        old(data)@.load[old(data)@.resolve(account)] < TxCount::MAX,
    ensures
        final(data)@ == old(data)@.dispatch(account),
        final(data)@.wf(),
        dispatch.worker == old(data)@.resolve(account),
        old(data)@.is_worker(dispatch.worker),
        dispatch.message == Message::NewTx(Tx { account, amount, tx_type: TxType::Deposit }),
{
    submit(data, account, amount, TxType::Deposit)
}

/// Accepts a withdrawal of `amount` from `account`.
pub fn withdraw(data: &mut ServerData, account: AccountId, amount: u32) -> (dispatch: Dispatch)
    requires
        old(data)@.wf(),
        old(data)@.pending[account] < TxCount::MAX,
        old(data)@.load[old(data)@.resolve(account)] < TxCount::MAX,
    ensures
        final(data)@ == old(data)@.dispatch(account),
        final(data)@.wf(),
        dispatch.worker == old(data)@.resolve(account),
        old(data)@.is_worker(dispatch.worker),
        dispatch.message == Message::NewTx(Tx { account, amount, tx_type: TxType::Withdraw }),
{
    submit(data, account, amount, TxType::Withdraw)
}

/// The balance of `account` as the settled transactions left it: pending
/// ones do not count, and an account without history has balance zero.
pub fn balance_of(data: &ServerData, account: AccountId) -> (balance: u32)
    ensures
        balance == data@.balance_of(account),
{
    data.get_balance(account)
}

} // verus!
