use geo_sidecar::conn::{ConnectionManager, RETENTION_MICROS};

#[test]
fn admission_tracks_the_ceiling() {
    let mut manager = ConnectionManager::new(2);
    assert!(manager.can_accept());
    manager.register(1, 100);
    assert!(manager.can_accept());
    manager.register(2, 200);
    assert!(!manager.can_accept());
    assert_eq!(manager.count(), 2);
}

#[test]
fn unregister_forgets_only_that_connection() {
    let mut manager = ConnectionManager::new(10);
    manager.register(1, 100);
    manager.register(2, 200);
    manager.register(3, 300);
    manager.unregister(2);
    assert_eq!(manager.count(), 2);
    manager.unregister(2);
    assert_eq!(manager.count(), 2);
    manager.unregister(1);
    manager.unregister(3);
    assert_eq!(manager.count(), 0);
}

#[test]
fn sweep_drops_only_records_past_the_retention_window() {
    let mut manager = ConnectionManager::new(10);
    let start: u64 = 1_000_000;
    manager.register(1, start);
    manager.register(2, start + RETENTION_MICROS / 2);
    // Just before record 1 lapses, both survive.
    manager.sweep(start + RETENTION_MICROS - 1);
    assert_eq!(manager.count(), 2);
    // At exactly the window, record 1 is forgotten, record 2 stays.
    manager.sweep(start + RETENTION_MICROS);
    assert_eq!(manager.count(), 1);
    manager.sweep(start + 2 * RETENTION_MICROS);
    assert_eq!(manager.count(), 0);
}

#[test]
fn sweep_drops_records_stamped_in_the_future() {
    let mut manager = ConnectionManager::new(10);
    manager.register(1, 5_000);
    // The clock jumped backwards past the registration time.
    manager.sweep(4_000);
    assert_eq!(manager.count(), 0);
}
