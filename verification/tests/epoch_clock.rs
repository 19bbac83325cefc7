use epoch_manager::EpochManager;
use epoch_manager::EpochManagerError;

#[test]
fn concrete_scenario() {
    let mut m: EpochManager<u64> = EpochManager::new();
    m.process_config(1000, 10);
    assert_eq!(m.epoch_at(1025), Ok(2));
    assert_eq!(m.epoch_timestamp(2), Ok(1020));
    assert_eq!(m.epoch_timestamp(3), Ok(1030));
}

#[test]
fn epoch_at_boundaries() {
    let mut m: EpochManager<u64> = EpochManager::new();
    m.process_config(1000, 10);
    assert_eq!(m.epoch_at(1000), Ok(0));
    assert_eq!(m.epoch_at(1009), Ok(0));
    assert_eq!(m.epoch_at(1010), Ok(1));
    assert_eq!(m.epoch_at(1019), Ok(1));
    assert_eq!(m.epoch_at(1020), Ok(2));
}

#[test]
fn monotonic_concrete() {
    let mut m: EpochManager<u64> = EpochManager::new();
    m.process_config(1000, 10);
    let mut previous: u32 = 0;
    let mut t: i64 = 1000;
    while t <= 1100 {
        let epoch = m.epoch_at(t).unwrap();
        assert!(previous <= epoch);
        previous = epoch;
        t += 1;
    }
}

#[test]
fn round_trip_concrete() {
    let mut m: EpochManager<u64> = EpochManager::new();
    m.process_config(1000, 10);
    for epoch in [0u32, 1, 7, 4_000_000] {
        let start = m.epoch_timestamp(epoch).unwrap();
        assert_eq!(m.epoch_at(start), Ok(epoch));
    }
}

#[test]
fn zero_clamping() {
    let mut m: EpochManager<u64> = EpochManager::new();
    m.process_config(0, 0);
    // An effective period of 1: each second is its own epoch.
    assert_eq!(m.epoch_at(5), Ok(5));
    assert_eq!(m.epoch_timestamp(5), Ok(5));
}

#[test]
fn future_zero_error() {
    let mut m: EpochManager<u64> = EpochManager::new();
    m.process_config(1000, 10);
    assert_eq!(
        m.epoch_at(999),
        Err(EpochManagerError::CheckpointZeroInTheFuture(1000))
    );
}

#[test]
fn unconfigured_errors() {
    let m: EpochManager<u64> = EpochManager::new();
    assert_eq!(m.epoch_at(1025), Err(EpochManagerError::UnknownEpochZero));
    assert_eq!(
        m.epoch_timestamp(2),
        Err(EpochManagerError::UnknownEpochZero)
    );
    let mut half: EpochManager<u64> = EpochManager::new();
    half.set_checkpoint_zero(1000);
    assert_eq!(
        half.epoch_at(1025),
        Err(EpochManagerError::UnknownCheckpointPeriod)
    );
    assert_eq!(
        half.epoch_timestamp(2),
        Err(EpochManagerError::UnknownCheckpointPeriod)
    );
}

#[test]
fn default_is_unconfigured() {
    let m: EpochManager<u64> = Default::default();
    assert_eq!(m.epoch_at(0), Err(EpochManagerError::UnknownEpochZero));
}

#[test]
fn overflow_product() {
    let mut m: EpochManager<u64> = EpochManager::new();
    m.process_config(1000, 2);
    assert_eq!(m.epoch_timestamp(u32::MAX), Err(EpochManagerError::Overflow));
}

#[test]
fn overflow_sum() {
    let mut m: EpochManager<u64> = EpochManager::new();
    m.process_config(i64::MAX, 1);
    assert_eq!(m.epoch_timestamp(1), Err(EpochManagerError::Overflow));
    // Epoch 0 still starts exactly at the zero timestamp.
    assert_eq!(m.epoch_timestamp(0), Ok(i64::MAX));
}

#[test]
fn epoch_at_overflow() {
    let mut m: EpochManager<u64> = EpochManager::new();
    m.process_config(0, 1);
    // The largest representable epoch, then one second further: a wrapped
    // or truncated epoch is never returned.
    assert_eq!(m.epoch_at(u32::MAX as i64), Ok(u32::MAX));
    assert_eq!(
        m.epoch_at(u32::MAX as i64 + 1),
        Err(EpochManagerError::Overflow)
    );
    // A longer period keeps later timestamps representable.
    let mut wide: EpochManager<u64> = EpochManager::new();
    wide.process_config(0, 10);
    assert_eq!(wide.epoch_at(42_949_672_959), Ok(u32::MAX));
    assert_eq!(
        wide.epoch_at(42_949_672_960),
        Err(EpochManagerError::Overflow)
    );
}

#[test]
fn time_to_next_checkpoint_at_concrete() {
    let mut m: EpochManager<u64> = EpochManager::new();
    m.process_config(1000, 10);
    // Mid-epoch: 5 whole seconds remain, rounded up into the next second.
    assert_eq!(
        m.time_to_next_checkpoint_at(1025, 300),
        Ok((5, 999_999_700))
    );
    // On a boundary with no nanosecond remainder: one full period.
    assert_eq!(
        m.time_to_next_checkpoint_at(1020, 0),
        Ok((10, 1_000_000_000))
    );
}

#[test]
fn time_to_next_checkpoint_at_errors() {
    let mut m: EpochManager<u64> = EpochManager::new();
    m.process_config(1000, 10);
    assert_eq!(
        m.time_to_next_checkpoint_at(999, 0),
        Err(EpochManagerError::CheckpointZeroInTheFuture(1000))
    );
    let mut tight: EpochManager<u64> = EpochManager::new();
    tight.process_config(0, 1);
    // The epoch after the last representable one cannot be computed.
    assert_eq!(
        tight.time_to_next_checkpoint_at(u32::MAX as i64, 0),
        Err(EpochManagerError::Overflow)
    );
}

#[test]
fn clock_backed_queries() {
    let mut m: EpochManager<u64> = EpochManager::new();
    // With epoch zero at the Unix epoch and a 1-second period, the current
    // epoch is the wall-clock second count; any real clock is far past it.
    m.process_config(0, 1);
    let epoch = m.current_epoch().unwrap();
    assert!(epoch > 1_600_000_000);
    let (secs, nanos) = m.time_to_next_checkpoint().unwrap();
    assert!(secs <= 1);
    assert!(nanos <= 1_000_000_000);
    let (delay_secs, delay_nanos) = m.checkpoint_monitor_delay();
    assert!(delay_secs <= 1);
    assert!(delay_nanos <= 1_000_000_000);
}
