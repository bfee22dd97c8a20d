//! What a sequence of transactions on one account does to its balance.

use crate::model::Ledger;
use crate::types::{AccountId, Tx, TxType};
use vstd::prelude::*;

verus! {

/// The balance that a balance entry stands for: zero when there is none.
pub open spec fn balance(entry: Option<nat>) -> nat {
    match entry {
        Some(balance) => balance,
        None => 0,
    }
}

/// The balance entry of an account after `tx` was settled on it: a deposit is
/// added, a withdrawal is taken off unless the account has no entry or too
/// little in it.
pub open spec fn entry_after(entry: Option<nat>, tx: Tx) -> Option<nat> {
    match tx.tx_type {
        TxType::Deposit => Some(balance(entry) + tx.amount as nat),
        TxType::Withdraw => match entry {
            Some(balance) if balance >= tx.amount => Some((balance - tx.amount) as nat),
            _ => entry,
        },
    }
}

/// The balance entry of a fresh account after `txs` were settled on it, in
/// this order.
pub open spec fn replay(txs: Seq<Tx>) -> Option<nat>
    decreases txs.len(),
{
    if txs.len() == 0 {
        None
    } else {
        entry_after(replay(txs.drop_last()), txs.last())
    }
}

/// The sum of the deposits in `txs`.
pub open spec fn deposited(txs: Seq<Tx>) -> nat
    decreases txs.len(),
{
    if txs.len() == 0 {
        0
    } else if txs.last().tx_type == TxType::Deposit {
        deposited(txs.drop_last()) + txs.last().amount as nat
    } else {
        deposited(txs.drop_last())
    }
}

/// The sum of the withdrawals in `txs`.
pub open spec fn withdrawn(txs: Seq<Tx>) -> nat
    decreases txs.len(),
{
    if txs.len() == 0 {
        0
    } else if txs.last().tx_type == TxType::Withdraw {
        withdrawn(txs.drop_last()) + txs.last().amount as nat
    } else {
        withdrawn(txs.drop_last())
    }
}

/// No withdrawal in `txs` exceeds what the transactions before it left: the
/// deposits before it minus the withdrawals before it.
pub open spec fn never_overdrawn(txs: Seq<Tx>) -> bool {
    forall|i: int|
        0 <= i < txs.len() && (#[trigger] txs[i]).tx_type == TxType::Withdraw ==> txs[i].amount
            <= deposited(txs.take(i)) - withdrawn(txs.take(i))
}

/// Settling one transaction on the ledger does to the entry of its account
/// what `entry_after` says, and leaves every other entry alone.
pub proof fn lemma_apply_entry(ledger: Ledger, tx: Tx)
    ensures
        ledger.apply(tx).entry(tx.account) == entry_after(ledger.entry(tx.account), tx),
        forall|a: AccountId| a != tx.account ==> ledger.apply(tx).entry(a) == ledger.entry(a),
        ledger.apply(tx).pending == ledger.pending,
        ledger.apply(tx).load == ledger.load,
        ledger.apply(tx).handler == ledger.handler,
        ledger.apply(tx).workers == ledger.workers,
{
}

/// When no withdrawal exceeds the running balance, the balance after a
/// sequence of deposits and withdrawals on a fresh account is the sum of the
/// deposits minus the sum of the withdrawals.
pub proof fn lemma_replay_is_net(txs: Seq<Tx>)
    requires
        never_overdrawn(txs),
    ensures
        balance(replay(txs)) == deposited(txs) - withdrawn(txs),
    decreases txs.len(),
{
    if txs.len() > 0 {
        let before = txs.drop_last();
        assert forall|i: int|
            0 <= i < before.len() && (#[trigger] before[i]).tx_type
                == TxType::Withdraw implies before[i].amount <= deposited(before.take(i))
            - withdrawn(before.take(i)) by {
            assert(before.take(i) =~= txs.take(i));
        }
        lemma_replay_is_net(before);
    }
}

} // verus!
