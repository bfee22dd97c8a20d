use aptone::shutdown::ShutdownCoordinator;

#[test]
fn fresh_coordinator_has_joined_nobody() {
    let coordinator = ShutdownCoordinator::new(3);
    assert_eq!(coordinator.worker_count(), 3);
    assert!(!coordinator.is_joined(0));
    assert!(!coordinator.is_joined(1));
    assert!(!coordinator.is_joined(2));
}

#[test]
fn handles_outside_the_pool_count_as_joined() {
    let coordinator = ShutdownCoordinator::new(3);
    assert!(coordinator.is_joined(3));
    assert!(coordinator.is_joined(-1));
    assert!(coordinator.is_joined(i32::MAX));
}

#[test]
fn shutdown_stops_every_worker_in_ascending_order() {
    let mut coordinator = ShutdownCoordinator::new(4);
    assert_eq!(coordinator.shutdown(), vec![0, 1, 2, 3]);
    for worker in 0..4 {
        assert!(coordinator.is_joined(worker));
    }
}

#[test]
fn second_shutdown_stops_nobody() {
    let mut coordinator = ShutdownCoordinator::new(4);
    coordinator.shutdown();
    assert_eq!(coordinator.shutdown(), Vec::<i32>::new());
    assert_eq!(coordinator.shutdown(), Vec::<i32>::new());
    assert_eq!(coordinator.worker_count(), 4);
    for worker in 0..4 {
        assert!(coordinator.is_joined(worker));
    }
}

#[test]
fn claim_is_true_once_per_worker() {
    let mut coordinator = ShutdownCoordinator::new(2);
    assert!(coordinator.claim(1));
    assert!(!coordinator.claim(1));
    assert!(coordinator.is_joined(1));
    assert!(!coordinator.is_joined(0));
    assert!(coordinator.claim(0));
    assert!(!coordinator.claim(0));
}

#[test]
fn claim_outside_the_pool_is_false() {
    let mut coordinator = ShutdownCoordinator::new(2);
    assert!(!coordinator.claim(2));
    assert!(!coordinator.claim(-1));
    assert_eq!(coordinator.shutdown(), vec![0, 1]);
}

#[test]
fn shutdown_skips_claimed_workers() {
    let mut coordinator = ShutdownCoordinator::new(5);
    coordinator.claim(1);
    coordinator.claim(4);
    assert_eq!(coordinator.shutdown(), vec![0, 2, 3]);
    assert_eq!(coordinator.shutdown(), Vec::<i32>::new());
}

#[test]
fn empty_pool_has_nothing_to_stop() {
    let mut coordinator = ShutdownCoordinator::new(0);
    assert_eq!(coordinator.worker_count(), 0);
    assert_eq!(coordinator.shutdown(), Vec::<i32>::new());
    assert!(coordinator.is_joined(0));
}
