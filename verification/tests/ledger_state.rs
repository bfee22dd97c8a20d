use aptone::server_data::ServerData;
use aptone::types::{LedgerError, INVALID_HANDLE, THREAD_COUNT};

#[test]
fn fresh_ledger_is_empty() {
    let mut data = ServerData::new(THREAD_COUNT);
    assert_eq!(data.worker_count(), 4);
    for account in 0..5 {
        assert_eq!(data.get_balance(account), 0);
        assert_eq!(data.get_pending_tx(account), 0);
    }
    for worker in 0..4 {
        assert_eq!(data.get_tx_count(worker), 0);
    }
    assert_eq!(data.get_handle(3), 0);
}

#[test]
fn balance_of_unseen_account_is_zero() {
    let data = ServerData::new(4);
    assert_eq!(data.get_balance(7), 0);
    assert_eq!(data.get_balance(u32::MAX), 0);
}

#[test]
fn pending_of_unseen_account_is_zero() {
    let data = ServerData::new(1);
    assert_eq!(data.get_pending_tx(42), 0);
}

#[test]
fn increase_pending_returns_new_count() {
    let mut data = ServerData::new(2);
    assert_eq!(data.increase_pending_tx(5, 1), 1);
    assert_eq!(data.increase_pending_tx(5, 3), 4);
    assert_eq!(data.increase_pending_tx(6, 0), 0);
    assert_eq!(data.get_pending_tx(5), 4);
    assert_eq!(data.get_pending_tx(6), 0);
    assert_eq!(data.get_pending_tx(7), 0);
}

#[test]
fn increase_pending_reaches_the_largest_count() {
    let mut data = ServerData::new(2);
    assert_eq!(data.increase_pending_tx(5, u32::MAX - 1), u32::MAX - 1);
    assert_eq!(data.increase_pending_tx(5, 1), u32::MAX);
    assert_eq!(data.decrease_pending_tx(5, u32::MAX), 0);
}

#[test]
fn decrease_pending_subtracts() {
    let mut data = ServerData::new(2);
    data.increase_pending_tx(5, 10);
    assert_eq!(data.decrease_pending_tx(5, 3), 7);
    assert_eq!(data.decrease_pending_tx(5, 6), 1);
    assert_eq!(data.get_pending_tx(5), 1);
}

#[test]
fn decrease_pending_stops_at_zero() {
    let mut data = ServerData::new(2);
    data.increase_pending_tx(5, 2);
    assert_eq!(data.decrease_pending_tx(5, 2), 0);
    data.increase_pending_tx(5, 2);
    assert_eq!(data.decrease_pending_tx(5, 3), 0);
    assert_eq!(data.decrease_pending_tx(5, 1), 0);
    assert_eq!(data.get_pending_tx(5), 0);
}

#[test]
fn decrease_pending_of_unseen_account_is_zero() {
    let mut data = ServerData::new(2);
    assert_eq!(data.decrease_pending_tx(9, 4), 0);
    assert_eq!(data.get_pending_tx(9), 0);
}

#[test]
fn pending_counts_are_per_account() {
    let mut data = ServerData::new(2);
    data.increase_pending_tx(1, 2);
    data.increase_pending_tx(2, 5);
    data.decrease_pending_tx(1, 1);
    assert_eq!(data.get_pending_tx(1), 1);
    assert_eq!(data.get_pending_tx(2), 5);
}

#[test]
fn load_counts_up_and_down() {
    let mut data = ServerData::new(3);
    data.increase_tx_count(1, 4);
    data.increase_tx_count(1, 1);
    assert_eq!(data.get_tx_count(1), 5);
    data.decrease_tx_count(1, 2);
    assert_eq!(data.get_tx_count(1), 3);
    assert_eq!(data.get_tx_count(0), 0);
    assert_eq!(data.get_tx_count(2), 0);
}

#[test]
fn load_stops_at_zero() {
    let mut data = ServerData::new(3);
    data.increase_tx_count(2, 1);
    data.decrease_tx_count(2, 5);
    assert_eq!(data.get_tx_count(2), 0);
    data.decrease_tx_count(2, 1);
    assert_eq!(data.get_tx_count(2), 0);
    data.decrease_tx_count(0, 1);
    assert_eq!(data.get_tx_count(0), 0);
}

#[test]
fn deposit_adds_to_balance() {
    let mut data = ServerData::new(1);
    data.increase_balance(3, 500);
    assert_eq!(data.get_balance(3), 500);
    data.increase_balance(3, 250);
    assert_eq!(data.get_balance(3), 750);
    assert_eq!(data.get_balance(4), 0);
}

#[test]
fn deposit_reaches_the_largest_balance() {
    let mut data = ServerData::new(1);
    data.increase_balance(3, u32::MAX - 5);
    data.increase_balance(3, 5);
    assert_eq!(data.get_balance(3), u32::MAX);
    assert_eq!(data.decrease_balance(3, u32::MAX), Ok(()));
    assert_eq!(data.get_balance(3), 0);
}

#[test]
fn withdraw_takes_from_balance() {
    let mut data = ServerData::new(1);
    data.increase_balance(3, 500);
    assert_eq!(data.decrease_balance(3, 300), Ok(()));
    assert_eq!(data.get_balance(3), 200);
    assert_eq!(data.decrease_balance(3, 200), Ok(()));
    assert_eq!(data.get_balance(3), 0);
    assert_eq!(data.decrease_balance(3, 0), Ok(()));
}

#[test]
fn withdraw_more_than_balance_is_insufficient_funds() {
    let mut data = ServerData::new(1);
    data.increase_balance(3, 200);
    assert_eq!(data.decrease_balance(3, 201), Err(LedgerError::InsufficientFunds));
    assert_eq!(data.get_balance(3), 200);
    assert_eq!(data.decrease_balance(3, 200), Ok(()));
    assert_eq!(data.decrease_balance(3, 1), Err(LedgerError::InsufficientFunds));
    assert_eq!(data.get_balance(3), 0);
}

#[test]
fn withdraw_from_account_without_entry_is_unknown_account() {
    let mut data = ServerData::new(1);
    assert_eq!(data.decrease_balance(3, 10), Err(LedgerError::UnknownAccount));
    assert_eq!(data.decrease_balance(3, 0), Err(LedgerError::UnknownAccount));
    assert_eq!(data.get_balance(3), 0);
    data.increase_balance(3, 0);
    assert_eq!(data.decrease_balance(3, 0), Ok(()));
    assert_eq!(data.decrease_balance(3, 1), Err(LedgerError::InsufficientFunds));
}

#[test]
fn pending_counts_give_no_balance_entry() {
    let mut data = ServerData::new(1);
    data.increase_pending_tx(3, 1);
    data.set_handle(3, 0);
    assert_eq!(data.decrease_balance(3, 0), Err(LedgerError::UnknownAccount));
}

#[test]
fn get_handle_returns_bound_worker() {
    let mut data = ServerData::new(4);
    data.increase_tx_count(2, 9);
    data.set_handle(8, 2);
    assert_eq!(data.get_handle(8), 2);
    data.set_handle(8, 3);
    assert_eq!(data.get_handle(8), 3);
}

#[test]
fn get_handle_picks_least_loaded_worker() {
    let mut data = ServerData::new(4);
    data.increase_tx_count(0, 3);
    data.increase_tx_count(1, 2);
    data.increase_tx_count(2, 1);
    data.increase_tx_count(3, 2);
    assert_eq!(data.get_handle(8), 2);
    data.increase_tx_count(2, 5);
    assert_eq!(data.get_handle(8), 1);
}

#[test]
fn get_handle_breaks_ties_by_lowest_worker() {
    let mut data = ServerData::new(4);
    assert_eq!(data.get_handle(8), 0);
    data.increase_tx_count(0, 1);
    assert_eq!(data.get_handle(8), 1);
    data.increase_tx_count(1, 1);
    data.increase_tx_count(3, 1);
    assert_eq!(data.get_handle(8), 2);
    data.increase_tx_count(2, 1);
    assert_eq!(data.get_handle(8), 0);
}

#[test]
fn get_handle_with_every_worker_at_the_largest_load() {
    let mut data = ServerData::new(2);
    data.increase_tx_count(0, u32::MAX);
    data.increase_tx_count(1, u32::MAX);
    assert_eq!(data.get_handle(8), 0);
}

#[test]
fn get_handle_ignores_loads_outside_the_pool() {
    let mut data = ServerData::new(2);
    data.increase_tx_count(0, 2);
    data.increase_tx_count(1, 1);
    data.increase_tx_count(2, 0);
    data.increase_tx_count(-1, 0);
    assert_eq!(data.get_handle(8), 1);
}

#[test]
fn handle_of_unseen_account_is_invalid() {
    let data = ServerData::new(2);
    assert_eq!(data.handle_of(8), INVALID_HANDLE);
}

#[test]
fn set_handle_binds_account() {
    let mut data = ServerData::new(3);
    data.set_handle(8, 2);
    assert_eq!(data.handle_of(8), 2);
    assert_eq!(data.handle_of(9), INVALID_HANDLE);
    data.set_handle(8, 0);
    assert_eq!(data.handle_of(8), 0);
    data.set_handle(8, INVALID_HANDLE);
    assert_eq!(data.handle_of(8), INVALID_HANDLE);
}

#[test]
fn get_handle_does_not_commit() {
    let mut data = ServerData::new(2);
    assert_eq!(data.get_handle(8), 0);
    assert_eq!(data.handle_of(8), INVALID_HANDLE);
    data.increase_tx_count(0, 1);
    assert_eq!(data.get_handle(8), 1);
    assert_eq!(data.handle_of(8), INVALID_HANDLE);
    assert_eq!(data.get_pending_tx(8), 0);
    assert_eq!(data.get_tx_count(0), 1);
    assert_eq!(data.get_tx_count(1), 0);
    assert_eq!(data.get_balance(8), 0);
    assert_eq!(data.decrease_balance(8, 0), Err(LedgerError::UnknownAccount));
}

#[test]
fn set_handle_to_invalid_releases_account() {
    let mut data = ServerData::new(2);
    data.increase_tx_count(0, 1);
    data.increase_tx_count(1, 2);
    data.set_handle(8, 1);
    assert_eq!(data.get_handle(8), 1);
    data.set_handle(8, INVALID_HANDLE);
    assert_eq!(data.get_handle(8), 0);
}

#[test]
fn single_worker_pool_resolves_to_worker_zero() {
    let mut data = ServerData::new(1);
    data.increase_tx_count(0, 100);
    assert_eq!(data.get_handle(1), 0);
    assert_eq!(data.get_handle(2), 0);
}
