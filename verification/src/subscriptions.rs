use vstd::prelude::*;

verus! {

/// Epoch: a discrete, monotonically increasing index identifying a
/// fixed-length time window that paces consensus rounds.
pub type Epoch = u32;

/// Identifier of a notification sink. The scheduler itself never performs a
/// send: it computes which notification goes to which recipient, and the
/// surrounding program maps each identifier to an actual channel or actor.
pub type RecipientId = u64;

/// Message delivered to a subscriber when a checkpoint is reached.
#[derive(Debug)]
pub struct EpochNotification<T> {
    /// Checkpoint that caused the notification.
    pub checkpoint: Epoch,
    /// Payload supplied by the subscriber at registration time.
    pub payload: T,
}

/// A notification, paired with the recipient it is owed to. The checkpoint
/// monitor returns these in delivery order; the surrounding program performs
/// the actual (best-effort, fire-and-forget) sends.
#[derive(Debug)]
pub struct Delivery<T> {
    /// Sink the notification is addressed to.
    pub recipient: RecipientId,
    /// The notification itself.
    pub notification: EpochNotification<T>,
}

/// One-shot subscription to a particular epoch. Delivered at most once: the
/// registry entry is removed, and the payload moved out, on delivery.
#[derive(Debug)]
pub struct SingleEpochSubscription<T> {
    /// Sink to send the notification back to.
    pub recipient: RecipientId,
    /// Payload to be sent back to the subscriber; moved out on delivery.
    pub payload: T,
}

/// Recurring subscription to every epoch. Delivered once per firing of the
/// checkpoint monitor, for as long as the process runs; the payload is
/// duplicated on every delivery, so it must be cloneable.
#[derive(Debug)]
pub struct AllEpochSubscription<T> {
    /// Sink to send the notification back to.
    pub recipient: RecipientId,
    /// Payload duplicated and sent back on every firing.
    pub payload: T,
}

} // verus!
