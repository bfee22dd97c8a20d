//! An in-memory account ledger whose deposits and withdrawals are dispatched
//! to a fixed pool of workers.
//!
//! All transactions of an account go to one worker at a time, the worker that
//! the account is bound to while transactions are pending for it; accounts
//! are spread over the workers by their current load.
//!
//! The library holds the rules and leaves threads, locks and queues to its
//! caller:
//!
//! - [`server_data`] is the ledger state: balances, pending counts,
//!   affinities and worker loads. Callers that share it keep it behind one
//!   lock.
//! - [`dispatcher`] accepts a transaction: it does the bookkeeping on the
//!   ledger and says which worker the transaction has to be sent to.
//! - [`worker`] is what a worker does with each message of its queue.
//! - [`shutdown`] remembers which workers still have to be stopped.
//! - [`model`], [`history`] and [`pool`] are the mathematical side: the
//!   ledger as the contracts see it, what a sequence of transactions does to
//!   a balance, and what holds of the pool as a whole after every run.

pub mod dispatcher;
pub mod history;
pub mod model;
pub mod pool;
pub mod server_data;
pub mod shutdown;
pub mod types;
pub mod worker;
