//! Identifiers, transactions and messages shared by every component.

use vstd::prelude::*;

verus! {

/// Identifies an account. Accounts are never created explicitly: the first
/// reference to one makes it exist with a zero balance.
pub type AccountId = u32;

/// Identifies a worker of the pool, or is [`INVALID_HANDLE`].
pub type HandleId = i32;

/// A count of transactions in flight.
pub type TxCount = u32;

/// The handle of an account that no worker is responsible for.
pub const INVALID_HANDLE: HandleId = -1;

/// The size of the pool when nothing else is configured.
pub const THREAD_COUNT: usize = 4;

/// The two kinds of transaction.
#[derive(Clone, Copy, Debug, PartialEq, Eq, Structural)]
pub enum TxType {
    Deposit,
    Withdraw,
}

/// A transaction: immutable once created.
#[derive(Clone, Copy, Debug, PartialEq, Eq, Structural)]
pub struct Tx {
    pub account: AccountId,
    pub amount: u32,
    pub tx_type: TxType,
}

/// What travels on a worker's queue.
#[derive(Clone, Copy, Debug, PartialEq, Eq, Structural)]
pub enum Message {
    NewTx(Tx),
    Terminate,
}

/// Why a withdrawal was rejected.
#[derive(Clone, Copy, Debug, PartialEq, Eq, Structural)]
pub enum LedgerError {
    /// The amount exceeds the balance of the account.
    InsufficientFunds,
    /// The account has no balance entry yet.
    UnknownAccount,
}

} // verus!
