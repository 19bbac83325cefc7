//! Epoch-based checkpoint scheduling.
//!
//! Converts continuous wall-clock time into a discrete, monotonically
//! increasing sequence of fixed-length epochs, and computes the timed
//! notifications that are due to subscribers whenever an epoch boundary is
//! crossed, including boundaries that were skipped between two firings of
//! the checkpoint monitor.

pub mod errors;
pub mod laws;
pub mod manager;
pub mod subscriptions;

pub use errors::EpochManagerError;
pub use errors::EpochResult;
pub use manager::EpochManager;
pub use subscriptions::AllEpochSubscription;
pub use subscriptions::Delivery;
pub use subscriptions::Epoch;
pub use subscriptions::EpochNotification;
pub use subscriptions::RecipientId;
pub use subscriptions::SingleEpochSubscription;
