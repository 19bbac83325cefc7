use vstd::prelude::*;

verus! {

/// Possible errors when computing epochs and checkpoint timestamps.
#[derive(Copy, Clone, Debug, PartialEq, Eq, Structural)]
pub enum EpochManagerError {
    /// Epoch zero time is unknown.
    UnknownEpochZero,
    /// Checkpoint period is unknown.
    UnknownCheckpointPeriod,
    /// The queried timestamp precedes the configured checkpoint zero;
    /// carries the configured zero timestamp.
    CheckpointZeroInTheFuture(i64),
    /// Overflow when calculating an epoch timestamp or the next epoch.
    Overflow,
}

/// Result type for epoch queries.
pub type EpochResult<T> = Result<T, EpochManagerError>;

} // verus!
