use epoch_manager::Delivery;
use epoch_manager::EpochManager;
use epoch_manager::EpochManagerError;

fn checkpoints(deliveries: &[Delivery<String>]) -> Vec<u32> {
    deliveries.iter().map(|d| d.notification.checkpoint).collect()
}

#[test]
fn catch_up_completeness() {
    // zero = 1000, period = 10; one-shot subscriptions for epochs 3, 4, 5,
    // registered out of order, plus one beyond the catch-up range.
    let mut m: EpochManager<String> = EpochManager::new();
    m.process_config(1000, 10);
    m.subscribe_to_epoch(5, 55, String::from("five"));
    m.subscribe_to_epoch(3, 33, String::from("three"));
    m.subscribe_to_epoch(8, 88, String::from("eight"));
    m.subscribe_to_epoch(4, 44, String::from("four"));
    // First firing at a wall time in epoch 6, with no prior firing.
    let deliveries = m.checkpoint_monitor_fire_at(1060).unwrap();
    assert_eq!(checkpoints(&deliveries), vec![3, 4, 5]);
    assert_eq!(deliveries[0].recipient, 33);
    assert_eq!(deliveries[0].notification.payload, "three");
    assert_eq!(deliveries[1].recipient, 44);
    assert_eq!(deliveries[1].notification.payload, "four");
    assert_eq!(deliveries[2].recipient, 55);
    assert_eq!(deliveries[2].notification.payload, "five");
}

#[test]
fn no_double_delivery() {
    let mut m: EpochManager<String> = EpochManager::new();
    m.process_config(1000, 10);
    m.subscribe_to_epoch(3, 33, String::from("three"));
    m.subscribe_to_epoch(4, 44, String::from("four"));
    m.subscribe_to_epoch(5, 55, String::from("five"));
    let first = m.checkpoint_monitor_fire_at(1060).unwrap();
    assert_eq!(checkpoints(&first), vec![3, 4, 5]);
    // A second firing at epoch 7 delivers nothing for epochs 3 to 5: they
    // were already drained from the registry.
    let second = m.checkpoint_monitor_fire_at(1070).unwrap();
    assert_eq!(checkpoints(&second), Vec::<u32>::new());
}

#[test]
fn all_epoch_persistence() {
    let mut m: EpochManager<String> = EpochManager::new();
    m.process_config(1000, 10);
    m.subscribe_to_all_epochs(1, String::from("always"));
    let first = m.checkpoint_monitor_fire_at(1060).unwrap();
    assert_eq!(checkpoints(&first), vec![6]);
    assert_eq!(first[0].recipient, 1);
    assert_eq!(first[0].notification.payload, "always");
    // The subscription persists: exactly one notification per firing, with
    // a freshly duplicated payload each time.
    let second = m.checkpoint_monitor_fire_at(1070).unwrap();
    assert_eq!(checkpoints(&second), vec![7]);
    assert_eq!(second[0].notification.payload, "always");
    let third = m.checkpoint_monitor_fire_at(1085).unwrap();
    assert_eq!(checkpoints(&third), vec![8]);
}

#[test]
fn all_epoch_before_single_and_in_order() {
    let mut m: EpochManager<String> = EpochManager::new();
    m.process_config(1000, 10);
    m.subscribe_to_epoch(2, 22, String::from("two"));
    m.subscribe_to_all_epochs(1, String::from("first"));
    m.subscribe_to_all_epochs(2, String::from("second"));
    let deliveries = m.checkpoint_monitor_fire_at(1060).unwrap();
    // All-epoch notifications come first, in registration order, carrying
    // the current epoch; catch-up notifications follow in epoch order.
    assert_eq!(checkpoints(&deliveries), vec![6, 6, 2]);
    assert_eq!(deliveries[0].recipient, 1);
    assert_eq!(deliveries[1].recipient, 2);
    assert_eq!(deliveries[2].recipient, 22);
}

#[test]
fn same_epoch_accumulates() {
    let mut m: EpochManager<String> = EpochManager::new();
    m.process_config(1000, 10);
    m.subscribe_to_epoch(3, 1, String::from("a"));
    m.subscribe_to_epoch(3, 2, String::from("b"));
    let deliveries = m.checkpoint_monitor_fire_at(1060).unwrap();
    assert_eq!(checkpoints(&deliveries), vec![3, 3]);
    assert_eq!(deliveries[0].recipient, 1);
    assert_eq!(deliveries[0].notification.payload, "a");
    assert_eq!(deliveries[1].recipient, 2);
    assert_eq!(deliveries[1].notification.payload, "b");
}

#[test]
fn failed_firing_changes_nothing() {
    let mut m: EpochManager<String> = EpochManager::new();
    m.process_config(1000, 10);
    m.subscribe_to_epoch(3, 33, String::from("three"));
    // A wall time before checkpoint zero aborts the firing silently.
    assert_eq!(
        m.checkpoint_monitor_fire_at(999).unwrap_err(),
        EpochManagerError::CheckpointZeroInTheFuture(1000)
    );
    // The aborted firing did not advance the last checked epoch nor touch
    // the registry: the next successful firing still catches up from 0.
    let deliveries = m.checkpoint_monitor_fire_at(1060).unwrap();
    assert_eq!(checkpoints(&deliveries), vec![3]);
}

#[test]
fn unconfigured_firing_fails() {
    let mut m: EpochManager<String> = EpochManager::new();
    assert_eq!(
        m.checkpoint_monitor_fire_at(1060).unwrap_err(),
        EpochManagerError::UnknownEpochZero
    );
}

#[test]
fn inclusive_range_allows_redelivery_at_last_checked_epoch() {
    let mut m: EpochManager<String> = EpochManager::new();
    m.process_config(1000, 10);
    let first = m.checkpoint_monitor_fire_at(1060).unwrap();
    assert_eq!(checkpoints(&first), Vec::<u32>::new());
    // The catch-up range is inclusive of the last checked epoch, so a
    // subscription registered for it between firings is still matched.
    m.subscribe_to_epoch(6, 66, String::from("six"));
    let second = m.checkpoint_monitor_fire_at(1060).unwrap();
    assert_eq!(checkpoints(&second), vec![6]);
}

#[test]
fn drain_due_removes_only_the_range() {
    let mut m: EpochManager<String> = EpochManager::new();
    m.process_config(1000, 10);
    m.subscribe_to_epoch(3, 33, String::from("three"));
    m.subscribe_to_epoch(4, 44, String::from("four"));
    m.subscribe_to_epoch(5, 55, String::from("five"));
    let drained = m.drain_due(4, 10);
    let keys: Vec<u32> = drained.iter().map(|entry| entry.0).collect();
    assert_eq!(keys, vec![4, 5]);
    assert_eq!(drained[0].1.len(), 1);
    assert_eq!(drained[0].1[0].recipient, 44);
    // The entry for epoch 3 stays behind and is delivered later.
    let deliveries = m.checkpoint_monitor_fire_at(1060).unwrap();
    assert_eq!(checkpoints(&deliveries), vec![3]);
}

#[test]
fn clock_backed_firing() {
    let mut m: EpochManager<String> = EpochManager::new();
    // Epoch zero at the Unix epoch, 1-second epochs: the current epoch is
    // the wall-clock second count, so one firing delivers to an all-epoch
    // subscriber with a checkpoint far past zero.
    m.process_config(0, 1);
    m.subscribe_to_all_epochs(9, String::from("tick"));
    let deliveries = m.checkpoint_monitor_fire().unwrap();
    assert_eq!(deliveries.len(), 1);
    assert!(deliveries[0].notification.checkpoint > 1_600_000_000);
    assert_eq!(deliveries[0].notification.payload, "tick");
}
