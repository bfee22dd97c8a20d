//! A worker of the pool: one sequential loop that takes messages off its
//! queue and settles the transactions among them.

use crate::server_data::ServerData;
use crate::types::{HandleId, LedgerError, Message, Tx, TxType, INVALID_HANDLE};
use vstd::prelude::*;

verus! {

/// Whether a worker still takes messages.
#[derive(Clone, Copy, Debug, PartialEq, Eq, Structural)]
pub enum WorkerState {
    Running,
    Stopped,
}

/// The state of one worker.
#[derive(Debug)]
pub struct Worker {
    id: HandleId,
    state: WorkerState,
}

impl Worker {
    /// The handle of this worker.
    pub closed spec fn spec_id(&self) -> HandleId {
        self.id
    }

    /// Whether this worker is running or has stopped.
    pub closed spec fn spec_state(&self) -> WorkerState {
        self.state
    }

    /// What `message` holds for a worker in `state` to settle.
    pub open spec fn job(state: WorkerState, message: Message) -> Option<Tx> {
        match (state, message) {
            (WorkerState::Running, Message::NewTx(tx)) => Some(tx),
            _ => None,
        }
    }

    /// The state of a worker in `state` after it took `message`.
    pub open spec fn next_state(state: WorkerState, message: Message) -> WorkerState {
        match (state, message) {
            (WorkerState::Running, Message::NewTx(_)) => WorkerState::Running,
            _ => WorkerState::Stopped,
        }
    }

    /// The transactions that a worker in `state` hands out for settling while
    /// it takes `messages` off its queue, oldest first.
    pub open spec fn jobs(state: WorkerState, messages: Seq<Message>) -> Seq<Tx>
        decreases messages.len(),
    {
        if messages.len() == 0 {
            Seq::empty()
        } else {
            let later = Worker::jobs(
                Worker::next_state(state, messages.first()),
                messages.drop_first(),
            );
            match Worker::job(state, messages.first()) {
                Some(tx) => seq![tx] + later,
                None => later,
            }
        }
    }

    /// The state of a worker in `state` after it took `messages` off its
    /// queue, oldest first.
    pub open spec fn state_after(state: WorkerState, messages: Seq<Message>) -> WorkerState
        decreases messages.len(),
    {
        if messages.len() == 0 {
            state
        } else {
            Worker::state_after(
                Worker::next_state(state, messages.first()),
                messages.drop_first(),
            )
        }
    }

    /// A running worker with the handle `id`.
    pub fn new(id: HandleId) -> (worker: Worker)
        ensures
            worker.spec_id() == id,
            worker.spec_state() == WorkerState::Running,
    {
        Worker { id, state: WorkerState::Running }
    }

    /// The handle of this worker.
    #[verifier::when_used_as_spec(spec_id)]
    pub fn id(&self) -> (id: HandleId)
        ensures
            id == self.spec_id(),
    {
        self.id
    }

    /// Whether this worker is running or has stopped.
    #[verifier::when_used_as_spec(spec_state)]
    pub fn state(&self) -> (state: WorkerState)
        ensures
            state == self.spec_state(),
    {
        self.state
    }

    /// Takes `message` off the queue.
    ///
    /// A running worker hands out the transaction of a `NewTx` for settling
    /// and keeps running; on `Terminate` it stops. A stopped worker takes
    /// nothing on and stays stopped.
    pub fn accept(&mut self, message: Message) -> (job: Option<Tx>)
        ensures
            job == Worker::job(old(self).state(), message),
            final(self).state() == Worker::next_state(old(self).state(), message),
            final(self).id() == old(self).id(),
    {
        match self.state {
            WorkerState::Running => match message {
                Message::NewTx(tx) => Some(tx),
                Message::Terminate => {
                    self.state = WorkerState::Stopped;
                    None
                },
            },
            WorkerState::Stopped => None,
        }
    }

    /// Settles `tx` on the ledger, which the caller holds for the whole call.
    ///
    /// A deposit is applied; a withdrawal is applied or rejected, and a
    /// rejected one leaves the balance as it was. Either way one transaction
    /// fewer is pending for the account, the account loses its affinity when
    /// none is left, and this worker's load drops by one.
    pub fn settle(&self, data: &mut ServerData, tx: Tx) -> (result: Result<(), LedgerError>)
        requires
            tx.tx_type == TxType::Deposit ==> old(data)@.balance_of(tx.account) + tx.amount
                <= u32::MAX,
        ensures
            final(data)@ == old(data)@.settle(self.id(), tx),
            old(data)@.wf() ==> final(data)@.wf(),
            match old(data)@.rejection(tx) {
                Some(error) => result == Err::<(), LedgerError>(error),
                None => result is Ok,
            },
    {
        let result: Result<(), LedgerError> = match tx.tx_type {
            TxType::Deposit => {
                data.increase_balance(tx.account, tx.amount);
                Ok(())
            },
            TxType::Withdraw => data.decrease_balance(tx.account, tx.amount),
        };
        if data.decrease_pending_tx(tx.account, 1) == 0 {
            data.set_handle(tx.account, INVALID_HANDLE);
        }
        data.decrease_tx_count(self.id, 1);
        result
    }
}

/// The messages that carry `txs`, in the same order.
pub open spec fn new_txs(txs: Seq<Tx>) -> Seq<Message> {
    txs.map_values(|tx: Tx| Message::NewTx(tx))
}

/// `Terminate` is the last message that a worker consumes: a running worker
/// settles every transaction that was queued before it, in the order of the
/// queue, then stops, and takes on nothing that was queued after it.
pub proof fn lemma_terminate_is_last(txs: Seq<Tx>, later: Seq<Message>)
    ensures
        Worker::jobs(WorkerState::Running, new_txs(txs) + seq![Message::Terminate] + later) == txs,
        Worker::state_after(
            WorkerState::Running,
            new_txs(txs) + seq![Message::Terminate] + later,
        ) == WorkerState::Stopped,
    decreases txs.len(),
{
    let queue = new_txs(txs) + seq![Message::Terminate] + later;
    if txs.len() == 0 {
        assert(queue.drop_first() =~= later);
        lemma_stopped_stays_stopped(later);
    } else {
        let rest = txs.drop_first();
        assert(queue.drop_first() =~= new_txs(rest) + seq![Message::Terminate] + later);
        lemma_terminate_is_last(rest, later);
    }
}

/// A stopped worker settles nothing and stays stopped, whatever is queued.
pub proof fn lemma_stopped_stays_stopped(messages: Seq<Message>)
    ensures
        Worker::jobs(WorkerState::Stopped, messages) == Seq::<Tx>::empty(),
        Worker::state_after(WorkerState::Stopped, messages) == WorkerState::Stopped,
    decreases messages.len(),
{
    if messages.len() > 0 {
        lemma_stopped_stays_stopped(messages.drop_first());
    }
}

} // verus!
