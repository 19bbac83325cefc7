use vstd::prelude::*;

use crate::errors::EpochManagerError;
use crate::errors::EpochResult;
use crate::subscriptions::AllEpochSubscription;
use crate::subscriptions::Delivery;
use crate::subscriptions::Epoch;
use crate::subscriptions::EpochNotification;
use crate::subscriptions::RecipientId;
use crate::subscriptions::SingleEpochSubscription;

verus! {

/// The epoch of a timestamp: the number of whole periods elapsed since
/// checkpoint zero.
pub open spec fn spec_epoch_at(zero: int, period: int, timestamp: int) -> int {
    (timestamp - zero) / period
}

/// The per-epoch subscription entries are kept sorted by strictly ascending
/// epoch, so keys are unique and range queries return epochs in order.
pub open spec fn entries_sorted<T>(s: Seq<(Epoch, Seq<SingleEpochSubscription<T>>)>) -> bool {
    forall|i: int, j: int| #![trigger s[i], s[j]] 0 <= i < j < s.len() ==> s[i].0 < s[j].0
}

/// The mathematical content of the per-epoch registry: each entry as a pair
/// of its epoch and the sequence of subscriptions registered for it.
pub open spec fn entries_view<T>(
    v: Seq<(Epoch, Vec<SingleEpochSubscription<T>>)>,
) -> Seq<(Epoch, Seq<SingleEpochSubscription<T>>)> {
    Seq::new(v.len(), |i: int| (v[i].0, v[i].1@))
}

/// Number of entries whose epoch precedes `checkpoint`: the position at
/// which a subscription to `checkpoint` lands in the sorted entries.
pub open spec fn insert_position<T>(
    s: Seq<(Epoch, Seq<SingleEpochSubscription<T>>)>,
    checkpoint: Epoch,
) -> int
    decreases s.len(),
{
    if s.len() == 0 {
        0
    } else if s[0].0 < checkpoint {
        1 + insert_position(s.drop_first(), checkpoint)
    } else {
        0
    }
}

/// The sorted entries after registering one more subscription to
/// `checkpoint`: pushed onto the entry for `checkpoint` when one exists,
/// otherwise a new entry at the sorted position.
pub open spec fn inserted_entries<T>(
    s: Seq<(Epoch, Seq<SingleEpochSubscription<T>>)>,
    checkpoint: Epoch,
    sub: SingleEpochSubscription<T>,
) -> Seq<(Epoch, Seq<SingleEpochSubscription<T>>)> {
    let idx = insert_position(s, checkpoint);
    if idx < s.len() && s[idx].0 == checkpoint {
        s.update(idx, (checkpoint, s[idx].1.push(sub)))
    } else {
        s.insert(idx, (checkpoint, seq![sub]))
    }
}

/// The entries whose epoch lies in the inclusive range `[from, to]`, in the
/// order they stand in `s`.
pub open spec fn drained_entries<T>(
    s: Seq<(Epoch, Seq<SingleEpochSubscription<T>>)>,
    from: Epoch,
    to: Epoch,
) -> Seq<(Epoch, Seq<SingleEpochSubscription<T>>)>
    decreases s.len(),
{
    if s.len() == 0 {
        Seq::empty()
    } else if from <= s[0].0 <= to {
        seq![s[0]] + drained_entries(s.drop_first(), from, to)
    } else {
        drained_entries(s.drop_first(), from, to)
    }
}

/// The entries whose epoch lies outside the inclusive range `[from, to]`,
/// in the order they stand in `s`.
pub open spec fn retained_entries<T>(
    s: Seq<(Epoch, Seq<SingleEpochSubscription<T>>)>,
    from: Epoch,
    to: Epoch,
) -> Seq<(Epoch, Seq<SingleEpochSubscription<T>>)>
    decreases s.len(),
{
    if s.len() == 0 {
        Seq::empty()
    } else if from <= s[0].0 <= to {
        retained_entries(s.drop_first(), from, to)
    } else {
        seq![s[0]] + retained_entries(s.drop_first(), from, to)
    }
}

/// The notifications owed for one drained entry: one per subscription, in
/// registration order, each carrying the entry's epoch and the
/// subscription's payload, addressed to the subscription's recipient.
pub open spec fn entry_deliveries<T>(
    entry: (Epoch, Seq<SingleEpochSubscription<T>>),
) -> Seq<Delivery<T>> {
    Seq::new(
        entry.1.len(),
        |i: int|
            Delivery {
                recipient: entry.1[i].recipient,
                notification: EpochNotification { checkpoint: entry.0, payload: entry.1[i].payload },
            },
    )
}

/// The notifications owed for a sequence of drained entries, entry by entry
/// in the order drained.
pub open spec fn drained_deliveries<T>(
    entries: Seq<(Epoch, Seq<SingleEpochSubscription<T>>)>,
) -> Seq<Delivery<T>>
    decreases entries.len(),
{
    if entries.len() == 0 {
        Seq::empty()
    } else {
        entry_deliveries(entries[0]) + drained_deliveries(entries.drop_first())
    }
}

/// The insert position is the boundary between the entries whose epoch
/// precedes `checkpoint` and the rest.
pub proof fn lemma_insert_position<T>(
    s: Seq<(Epoch, Seq<SingleEpochSubscription<T>>)>,
    checkpoint: Epoch,
)
    ensures
        0 <= insert_position(s, checkpoint) <= s.len(),
        forall|k: int|
            0 <= k < insert_position(s, checkpoint) ==> (#[trigger] s[k]).0 < checkpoint,
        insert_position(s, checkpoint) < s.len() ==> s[insert_position(s, checkpoint)].0
            >= checkpoint,
    decreases s.len(),
{
    if s.len() == 0 {
    } else if s[0].0 < checkpoint {
        lemma_insert_position(s.drop_first(), checkpoint);
        assert forall|k: int|
            0 <= k < insert_position(s, checkpoint) implies (#[trigger] s[k]).0 < checkpoint by {
            if k > 0 {
                assert(s[k] == s.drop_first()[k - 1]);
            }
        }
        if insert_position(s, checkpoint) < s.len() {
            assert(s[insert_position(s, checkpoint)] == s.drop_first()[insert_position(
                s.drop_first(),
                checkpoint,
            )]);
        }
    }
}

/// Registering a subscription keeps the entries sorted by strictly
/// ascending epoch.
pub proof fn lemma_inserted_entries_sorted<T>(
    s: Seq<(Epoch, Seq<SingleEpochSubscription<T>>)>,
    checkpoint: Epoch,
    sub: SingleEpochSubscription<T>,
)
    requires
        entries_sorted(s),
    ensures
        entries_sorted(inserted_entries(s, checkpoint, sub)),
{
    lemma_insert_position(s, checkpoint);
    let idx = insert_position(s, checkpoint);
    let r = inserted_entries(s, checkpoint, sub);
    if idx < s.len() && s[idx].0 == checkpoint {
        assert forall|i: int, j: int| 0 <= i < j < r.len() implies r[i].0 < r[j].0 by {
            assert(r[i].0 == s[i].0);
            assert(r[j].0 == s[j].0);
        }
    } else {
        assert forall|i: int, j: int| 0 <= i < j < r.len() implies r[i].0 < r[j].0 by {
            if i < idx {
                assert(r[i] == s[i]);
            }
            if j < idx {
                assert(r[j] == s[j]);
            }
            if i > idx {
                assert(r[i] == s[i - 1]);
            }
            if j > idx {
                assert(r[j] == s[j - 1]);
            }
            if i == idx && j > idx {
                assert(s[j - 1].0 >= checkpoint);
                assert(s[j - 1].0 != checkpoint);
            }
        }
    }
}

/// Draining a sorted registry leaves both parts sorted: the drained entries
/// are exactly the registry entries whose epoch lies in the range, in
/// ascending epoch order, and the retained entries are exactly those whose
/// epoch lies outside it.
pub proof fn lemma_partition_sorted<T>(
    s: Seq<(Epoch, Seq<SingleEpochSubscription<T>>)>,
    from: Epoch,
    to: Epoch,
)
    requires
        entries_sorted(s),
    ensures
        entries_sorted(drained_entries(s, from, to)),
        entries_sorted(retained_entries(s, from, to)),
        forall|i: int|
            0 <= i < drained_entries(s, from, to).len() ==> s.contains(
                #[trigger] drained_entries(s, from, to)[i],
            ) && from <= drained_entries(s, from, to)[i].0 <= to,
        forall|i: int|
            0 <= i < retained_entries(s, from, to).len() ==> s.contains(
                #[trigger] retained_entries(s, from, to)[i],
            ) && !(from <= retained_entries(s, from, to)[i].0 <= to),
    decreases s.len(),
{
    if s.len() == 0 {
    } else {
        let t = s.drop_first();
        assert(entries_sorted(t)) by {
            assert forall|i: int, j: int|
                #![trigger t[i], t[j]]
                0 <= i < j < t.len() implies t[i].0 < t[j].0 by {
                assert(t[i] == s[i + 1]);
                assert(t[j] == s[j + 1]);
            }
        }
        lemma_partition_sorted(t, from, to);
        let dt = drained_entries(t, from, to);
        let rt = retained_entries(t, from, to);
        assert forall|i: int| 0 <= i < dt.len() implies s.contains(#[trigger] dt[i]) && s[0].0
            < dt[i].0 by {
            let j = choose|j: int| 0 <= j < t.len() && t[j] == dt[i];
            assert(s[j + 1] == dt[i]);
            assert(s[0].0 < s[j + 1].0);
        }
        assert forall|i: int| 0 <= i < rt.len() implies s.contains(#[trigger] rt[i]) && s[0].0
            < rt[i].0 by {
            let j = choose|j: int| 0 <= j < t.len() && t[j] == rt[i];
            assert(s[j + 1] == rt[i]);
            assert(s[0].0 < s[j + 1].0);
        }
        if from <= s[0].0 <= to {
            let d = drained_entries(s, from, to);
            assert(d == seq![s[0]] + dt);
            assert forall|i: int, j: int|
                #![trigger d[i], d[j]]
                0 <= i < j < d.len() implies d[i].0 < d[j].0 by {
                assert(d[j] == dt[j - 1]);
                if i > 0 {
                    assert(d[i] == dt[i - 1]);
                }
            }
        } else {
            let r = retained_entries(s, from, to);
            assert(r == seq![s[0]] + rt);
            assert forall|i: int, j: int|
                #![trigger r[i], r[j]]
                0 <= i < j < r.len() implies r[i].0 < r[j].0 by {
                assert(r[j] == rt[j - 1]);
                if i > 0 {
                    assert(r[i] == rt[i - 1]);
                }
            }
        }
    }
}

/// Wall-clock reading: whole seconds since the Unix epoch, and the
/// sub-second nanosecond remainder.
///
/// Relies on `std::time::SystemTime::now` and its
/// `duration_since(UNIX_EPOCH)`: the duration's whole seconds and its
/// `subsec_nanos`, the latter always below 1_000_000_000. A clock set
/// before the Unix epoch reads as (0, 0).
#[verifier::external_body]
fn get_timestamp_nanos() -> (r: (i64, u32))
    ensures
        r.1 < 1_000_000_000,
{
    match std::time::SystemTime::now().duration_since(std::time::UNIX_EPOCH) {
        Ok(elapsed) => (elapsed.as_secs() as i64, elapsed.subsec_nanos()),
        Err(_) => (0, 0),
    }
}

/// Keeper of the epoch clock and of the pending notification requests.
///
/// Converts between wall-clock timestamps and epoch indices given an
/// immutable zero-point and period, and owns the subscription registry that
/// the checkpoint monitor drains on each firing.
pub struct EpochManager<T> {
    /// Timestamp of checkpoint zero (the second in which epoch 0 started).
    checkpoint_zero_timestamp: Option<i64>,
    /// Period between checkpoints, in seconds; never stored as 0.
    checkpoints_period: Option<u16>,
    /// Subscriptions to a particular epoch, sorted by strictly ascending
    /// epoch; all subscriptions for one epoch accumulate in one entry.
    subscriptions_epoch: Vec<(Epoch, Vec<SingleEpochSubscription<T>>)>,
    /// Subscriptions to all epochs.
    subscriptions_all: Vec<AllEpochSubscription<T>>,
    /// Last epoch that was checked by the checkpoint monitor.
    last_checked_epoch: Option<Epoch>,
}

impl<T> EpochManager<T> {
    /// Timestamp of checkpoint zero, if configured.
    pub closed spec fn spec_checkpoint_zero(&self) -> Option<i64> {
        self.checkpoint_zero_timestamp
    }

    /// Seconds per epoch, if configured.
    pub closed spec fn spec_checkpoints_period(&self) -> Option<u16> {
        self.checkpoints_period
    }

    /// The per-epoch subscription entries, as a sequence of
    /// (epoch, subscriptions) pairs in ascending epoch order.
    pub closed spec fn spec_subscriptions_epoch(&self) -> Seq<
        (Epoch, Seq<SingleEpochSubscription<T>>),
    > {
        entries_view(self.subscriptions_epoch@)
    }

    /// The all-epoch subscriptions, in registration order.
    pub closed spec fn spec_subscriptions_all(&self) -> Seq<AllEpochSubscription<T>> {
        self.subscriptions_all@
    }

    /// Last epoch checked by the checkpoint monitor, if any firing happened.
    pub closed spec fn spec_last_checked_epoch(&self) -> Option<Epoch> {
        self.last_checked_epoch
    }

    /// Internal invariant: a configured period is at least 1 second, and the
    /// per-epoch entries are sorted by strictly ascending epoch.
    pub open spec fn wf(&self) -> bool {
        &&& match self.spec_checkpoints_period() {
            Some(period) => period >= 1,
            None => true,
        }
        &&& entries_sorted(self.spec_subscriptions_epoch())
    }

    /// What `epoch_at` returns: the epoch index of `timestamp`, or the error
    /// owed when the configuration is missing, the timestamp precedes
    /// checkpoint zero, or the epoch would exceed its native width — a
    /// wrapped or truncated epoch is never returned.
    pub open spec fn epoch_at_result(&self, timestamp: i64) -> EpochResult<Epoch> {
        match (self.spec_checkpoint_zero(), self.spec_checkpoints_period()) {
            (Some(zero), Some(period)) => if timestamp < zero {
                Err(EpochManagerError::CheckpointZeroInTheFuture(zero))
            } else if spec_epoch_at(zero as int, period as int, timestamp as int) > u32::MAX {
                Err(EpochManagerError::Overflow)
            } else {
                Ok(spec_epoch_at(zero as int, period as int, timestamp as int) as Epoch)
            },
            (None, _) => Err(EpochManagerError::UnknownEpochZero),
            (Some(_), None) => Err(EpochManagerError::UnknownCheckpointPeriod),
        }
    }

    /// What `epoch_timestamp` returns: the timestamp at which `epoch`
    /// starts, `period * epoch + zero`, or `Overflow` when the product does
    /// not fit the epoch's native width or the sum does not fit a timestamp.
    pub open spec fn epoch_timestamp_result(&self, epoch: Epoch) -> EpochResult<i64> {
        match (self.spec_checkpoint_zero(), self.spec_checkpoints_period()) {
            (Some(zero), Some(period)) => if period * epoch > u32::MAX {
                Err(EpochManagerError::Overflow)
            } else if period * epoch + zero > i64::MAX {
                Err(EpochManagerError::Overflow)
            } else {
                Ok((period * epoch + zero) as i64)
            },
            (None, _) => Err(EpochManagerError::UnknownEpochZero),
            (Some(_), None) => Err(EpochManagerError::UnknownCheckpointPeriod),
        }
    }

    /// Calculate the timestamp for a checkpoint (the start of an epoch),
    /// with overflow-detecting arithmetic: a wrapped or truncated timestamp
    /// is never returned.
    pub fn epoch_timestamp(&self, epoch: Epoch) -> (r: EpochResult<i64>)
        requires
            self.wf(),
        ensures
            r == self.epoch_timestamp_result(epoch),
    {
        match (self.checkpoint_zero_timestamp, self.checkpoints_period) {
            (Some(zero), Some(period)) => {
                match (period as u32).checked_mul(epoch) {
                    Some(product) => match (product as i64).checked_add(zero) {
                        Some(timestamp) => Ok(timestamp),
                        None => Err(EpochManagerError::Overflow),
                    },
                    None => Err(EpochManagerError::Overflow),
                }
            },
            (None, _) => Err(EpochManagerError::UnknownEpochZero),
            (Some(_), None) => Err(EpochManagerError::UnknownCheckpointPeriod),
        }
    }

    /// A fresh, unconfigured manager with an empty registry.
    pub fn new() -> (manager: Self)
        ensures
            manager.wf(),
            manager.spec_checkpoint_zero() == None::<i64>,
            manager.spec_checkpoints_period() == None::<u16>,
            manager.spec_subscriptions_epoch() == Seq::<
                (Epoch, Seq<SingleEpochSubscription<T>>),
            >::empty(),
            manager.spec_subscriptions_all() == Seq::<AllEpochSubscription<T>>::empty(),
            manager.spec_last_checked_epoch() == None::<Epoch>,
    {
        let manager = EpochManager {
            checkpoint_zero_timestamp: None,
            checkpoints_period: None,
            subscriptions_epoch: Vec::new(),
            subscriptions_all: Vec::new(),
            last_checked_epoch: None,
        };
        proof {
            assert(manager.spec_subscriptions_epoch() =~= Seq::<
                (Epoch, Seq<SingleEpochSubscription<T>>),
            >::empty());
        }
        manager
    }

    /// Set the timestamp for the start of epoch zero.
    pub fn set_checkpoint_zero(&mut self, timestamp: i64)
        requires
            old(self).wf(),
        ensures
            final(self).wf(),
            final(self).spec_checkpoint_zero() == Some(timestamp),
            final(self).spec_checkpoints_period() == old(self).spec_checkpoints_period(),
            final(self).spec_subscriptions_epoch() == old(self).spec_subscriptions_epoch(),
            final(self).spec_subscriptions_all() == old(self).spec_subscriptions_all(),
            final(self).spec_last_checked_epoch() == old(self).spec_last_checked_epoch(),
    {
        self.checkpoint_zero_timestamp = Some(timestamp);
        proof {
            assert(self.spec_subscriptions_epoch() =~= old(
                self,
            ).spec_subscriptions_epoch());
        }
    }

    /// Set the checkpoint period (epoch duration). A period of 0 is clamped
    /// to the minimum of 1 second, never stored as 0.
    pub fn set_period(&mut self, period: u16)
        requires
            old(self).wf(),
        ensures
            final(self).wf(),
            final(self).spec_checkpoints_period() == Some(
                if period == 0 {
                    1u16
                } else {
                    period
                },
            ),
            final(self).spec_checkpoint_zero() == old(self).spec_checkpoint_zero(),
            final(self).spec_subscriptions_epoch() == old(self).spec_subscriptions_epoch(),
            final(self).spec_subscriptions_all() == old(self).spec_subscriptions_all(),
            final(self).spec_last_checked_epoch() == old(self).spec_last_checked_epoch(),
    {
        let stored: u16 = if period == 0 {
            1
        } else {
            period
        };
        self.checkpoints_period = Some(stored);
        proof {
            assert(self.spec_subscriptions_epoch() =~= old(
                self,
            ).spec_subscriptions_epoch());
        }
    }

    /// Calculate the last checkpoint (the current epoch) at the present
    /// wall time, as read from the system clock.
    pub fn current_epoch(&self) -> (r: EpochResult<Epoch>)
        requires
            self.wf(),
        ensures
            exists|now_secs: i64| r == #[trigger] self.epoch_at_result(now_secs),
    {
        let (now_secs, _now_nanos) = get_timestamp_nanos();
        let r = self.epoch_at(now_secs);
        proof {
            assert(r == self.epoch_at_result(now_secs));
        }
        r
    }

    /// What `time_to_next_checkpoint_at` returns for a wall-clock reading:
    /// the whole seconds to the start of the next epoch, and the
    /// nanoseconds that round the reading up into the next whole second, so
    /// a timer armed with them never fires early. `Overflow` when the next
    /// epoch index, its timestamp, or the remaining seconds cannot be
    /// represented.
    pub open spec fn time_to_next_checkpoint_at_result(&self, now_secs: i64, now_nanos: u32) -> EpochResult<
        (u64, u32),
    > {
        match self.epoch_at_result(now_secs) {
            Err(e) => Err(e),
            Ok(current) => if current == u32::MAX {
                Err(EpochManagerError::Overflow)
            } else {
                match self.epoch_timestamp_result((current + 1) as Epoch) {
                    Err(e) => Err(e),
                    Ok(next) => if next - now_secs < 0 {
                        Err(EpochManagerError::Overflow)
                    } else {
                        Ok(((next - now_secs) as u64, (1_000_000_000 - now_nanos) as u32))
                    },
                }
            },
        }
    }

    /// Time remaining from the supplied wall-clock reading to the next
    /// checkpoint.
    pub fn time_to_next_checkpoint_at(&self, now_secs: i64, now_nanos: u32) -> (r: EpochResult<
        (u64, u32),
    >)
        requires
            self.wf(),
            now_nanos < 1_000_000_000,
        ensures
            r == self.time_to_next_checkpoint_at_result(now_secs, now_nanos),
    {
        let current = match self.epoch_at(now_secs) {
            Ok(epoch) => epoch,
            Err(e) => {
                return Err(e);
            },
        };
        let next_epoch = match current.checked_add(1) {
            Some(next_epoch) => next_epoch,
            None => {
                return Err(EpochManagerError::Overflow);
            },
        };
        let next = match self.epoch_timestamp(next_epoch) {
            Ok(next) => next,
            Err(e) => {
                return Err(e);
            },
        };
        // This difference is never negative once the current epoch was
        // computed from the same reading, but it is checked defensively,
        // as a wrapped timer delay would fire wildly.
        let diff: i128 = (next as i128) - (now_secs as i128);
        if diff < 0 {
            Err(EpochManagerError::Overflow)
        } else {
            Ok((diff as u64, 1_000_000_000 - now_nanos))
        }
    }

    /// Time remaining to the next checkpoint at the present wall time, as
    /// read from the system clock: what is returned for a given reading is
    /// stated by `time_to_next_checkpoint_at_result`.
    pub fn time_to_next_checkpoint(&self) -> (r: EpochResult<(u64, u32)>)
        requires
            self.wf(),
        ensures
            exists|now_secs: i64, now_nanos: u32|
                now_nanos < 1_000_000_000 && r == #[trigger] self.time_to_next_checkpoint_at_result(
                    now_secs,
                    now_nanos,
                ),
    {
        let (now_secs, now_nanos) = get_timestamp_nanos();
        let r = self.time_to_next_checkpoint_at(now_secs, now_nanos);
        proof {
            assert(r == self.time_to_next_checkpoint_at_result(now_secs, now_nanos));
        }
        r
    }

    /// The delay the checkpoint monitor arms its timer with, given what the
    /// time to the next checkpoint came out as: that time on success, one
    /// full period as the fallback on failure.
    pub open spec fn delay_from(&self, outcome: EpochResult<(u64, u32)>) -> (u64, u32)
        recommends
            self.spec_checkpoints_period().is_some(),
    {
        match outcome {
            Ok(delay) => delay,
            Err(_) => (self.spec_checkpoints_period().unwrap() as u64, 0u32),
        }
    }

    /// The delay to arm the timer with, at the present wall time: the time
    /// to the next checkpoint, or one full period as the fallback when that
    /// computation fails. The period must be configured, as it is once the
    /// configuration has been processed.
    pub fn checkpoint_monitor_delay(&self) -> (r: (u64, u32))
        requires
            self.wf(),
            self.spec_checkpoints_period().is_some(),
        ensures
            exists|now_secs: i64, now_nanos: u32|
                now_nanos < 1_000_000_000 && r == self.delay_from(
                    #[trigger] self.time_to_next_checkpoint_at_result(now_secs, now_nanos),
                ),
    {
        let (now_secs, now_nanos) = get_timestamp_nanos();
        let r = match self.time_to_next_checkpoint_at(now_secs, now_nanos) {
            Ok(delay) => delay,
            Err(_) => (self.checkpoints_period.unwrap() as u64, 0u32),
        };
        proof {
            assert(r == self.delay_from(
                self.time_to_next_checkpoint_at_result(now_secs, now_nanos),
            ));
        }
        r
    }

    /// Process the configuration: set the timestamp of checkpoint zero and
    /// the checkpoint period (clamped to at least 1 second). The caller
    /// then starts the checkpoint monitor.
    pub fn process_config(&mut self, checkpoint_zero_timestamp: i64, checkpoints_period: u16)
        requires
            old(self).wf(),
        ensures
            final(self).wf(),
            final(self).spec_checkpoint_zero() == Some(checkpoint_zero_timestamp),
            final(self).spec_checkpoints_period() == Some(
                if checkpoints_period == 0 {
                    1u16
                } else {
                    checkpoints_period
                },
            ),
            final(self).spec_subscriptions_epoch() == old(self).spec_subscriptions_epoch(),
            final(self).spec_subscriptions_all() == old(self).spec_subscriptions_all(),
            final(self).spec_last_checked_epoch() == old(self).spec_last_checked_epoch(),
    {
        self.set_checkpoint_zero(checkpoint_zero_timestamp);
        self.set_period(checkpoints_period);
    }

    /// Request one notification for `checkpoint`, to be delivered once that
    /// epoch is reached, or has already elapsed, by the time of the next
    /// firing. Subscriptions for one epoch accumulate; none is deduplicated.
    pub fn subscribe_to_epoch(&mut self, checkpoint: Epoch, recipient: RecipientId, payload: T)
        requires
            old(self).wf(),
        ensures
            final(self).wf(),
            final(self).spec_subscriptions_epoch() == inserted_entries(
                old(self).spec_subscriptions_epoch(),
                checkpoint,
                (SingleEpochSubscription { recipient, payload }),
            ),
            final(self).spec_checkpoint_zero() == old(self).spec_checkpoint_zero(),
            final(self).spec_checkpoints_period() == old(self).spec_checkpoints_period(),
            final(self).spec_subscriptions_all() == old(self).spec_subscriptions_all(),
            final(self).spec_last_checked_epoch() == old(self).spec_last_checked_epoch(),
    {
        let ghost whole = self.spec_subscriptions_epoch();
        let sub = SingleEpochSubscription { recipient, payload };
        let ghost sub_spec = sub;
        let mut idx: usize = 0;
        loop
            invariant
                whole == self.spec_subscriptions_epoch(),
                0 <= idx <= self.subscriptions_epoch@.len(),
                forall|k: int| 0 <= k < idx ==> (#[trigger] whole[k]).0 < checkpoint,
            ensures
                0 <= idx <= whole.len(),
                forall|k: int| 0 <= k < idx ==> (#[trigger] whole[k]).0 < checkpoint,
                idx < whole.len() ==> whole[idx as int].0 >= checkpoint,
            decreases self.subscriptions_epoch@.len() - idx,
        {
            if idx == self.subscriptions_epoch.len() {
                break ;
            }
            let entry = &self.subscriptions_epoch[idx];
            if entry.0 >= checkpoint {
                break ;
            }
            idx = idx + 1;
        }
        proof {
            lemma_insert_position(whole, checkpoint);
            assert(idx as int == insert_position(whole, checkpoint));
            lemma_inserted_entries_sorted(whole, checkpoint, sub_spec);
        }
        let mut matched = false;
        if idx < self.subscriptions_epoch.len() {
            let entry = &self.subscriptions_epoch[idx];
            if entry.0 == checkpoint {
                matched = true;
            }
        }
        if matched {
            let entry = self.subscriptions_epoch.remove(idx);
            let (key, mut subs) = entry;
            subs.push(sub);
            self.subscriptions_epoch.insert(idx, (key, subs));
            proof {
                assert(self.spec_subscriptions_epoch() =~= whole.update(
                    idx as int,
                    (checkpoint, whole[idx as int].1.push(sub_spec)),
                ));
            }
        } else {
            let mut fresh: Vec<SingleEpochSubscription<T>> = Vec::new();
            fresh.push(sub);
            self.subscriptions_epoch.insert(idx, (checkpoint, fresh));
            proof {
                assert(self.spec_subscriptions_epoch() =~= whole.insert(
                    idx as int,
                    (checkpoint, seq![sub_spec]),
                ));
            }
        }
    }

    /// Request a notification on every subsequent firing of the checkpoint
    /// monitor, indefinitely; there is no unsubscribe operation.
    pub fn subscribe_to_all_epochs(&mut self, recipient: RecipientId, payload: T)
        requires
            old(self).wf(),
        ensures
            final(self).wf(),
            final(self).spec_subscriptions_all() == old(self).spec_subscriptions_all().push(
                (AllEpochSubscription { recipient, payload }),
            ),
            final(self).spec_checkpoint_zero() == old(self).spec_checkpoint_zero(),
            final(self).spec_checkpoints_period() == old(self).spec_checkpoints_period(),
            final(self).spec_subscriptions_epoch() == old(self).spec_subscriptions_epoch(),
            final(self).spec_last_checked_epoch() == old(self).spec_last_checked_epoch(),
    {
        self.subscriptions_all.push(AllEpochSubscription { recipient, payload });
        proof {
            assert(self.spec_subscriptions_epoch() =~= old(
                self,
            ).spec_subscriptions_epoch());
        }
    }

    /// Remove and return, in ascending epoch order, every per-epoch entry
    /// whose epoch lies in the inclusive range `[from, to]`; used by the
    /// checkpoint monitor for catch-up delivery.
    pub fn drain_due(&mut self, from: Epoch, to: Epoch) -> (r: Vec<
        (Epoch, Vec<SingleEpochSubscription<T>>),
    >)
        requires
            old(self).wf(),
        ensures
            final(self).wf(),
            entries_view(r@) == drained_entries(old(self).spec_subscriptions_epoch(), from, to),
            final(self).spec_subscriptions_epoch() == retained_entries(
                old(self).spec_subscriptions_epoch(),
                from,
                to,
            ),
            final(self).spec_checkpoint_zero() == old(self).spec_checkpoint_zero(),
            final(self).spec_checkpoints_period() == old(self).spec_checkpoints_period(),
            final(self).spec_subscriptions_all() == old(self).spec_subscriptions_all(),
            final(self).spec_last_checked_epoch() == old(self).spec_last_checked_epoch(),
    {
        let ghost whole = self.spec_subscriptions_epoch();
        proof {
            lemma_partition_sorted(whole, from, to);
        }
        let mut rest: Vec<(Epoch, Vec<SingleEpochSubscription<T>>)> = Vec::new();
        core::mem::swap(&mut rest, &mut self.subscriptions_epoch);
        let mut due: Vec<(Epoch, Vec<SingleEpochSubscription<T>>)> = Vec::new();
        let mut kept: Vec<(Epoch, Vec<SingleEpochSubscription<T>>)> = Vec::new();
        while rest.len() > 0
            invariant
                drained_entries(whole, from, to) == entries_view(due@) + drained_entries(
                    entries_view(rest@),
                    from,
                    to,
                ),
                retained_entries(whole, from, to) == entries_view(kept@) + retained_entries(
                    entries_view(rest@),
                    from,
                    to,
                ),
            decreases rest@.len(),
        {
            let ghost rest_before = entries_view(rest@);
            let e = rest.remove(0);
            proof {
                assert(entries_view(rest@) =~= rest_before.drop_first());
            }
            let in_range = from <= e.0 && e.0 <= to;
            if in_range {
                let ghost due_before = entries_view(due@);
                due.push(e);
                proof {
                    assert(entries_view(due@) =~= due_before.push(rest_before[0]));
                    assert(entries_view(due@) + drained_entries(entries_view(rest@), from, to)
                        =~= due_before + (seq![rest_before[0]] + drained_entries(
                        rest_before.drop_first(),
                        from,
                        to,
                    )));
                }
            } else {
                let ghost kept_before = entries_view(kept@);
                kept.push(e);
                proof {
                    assert(entries_view(kept@) =~= kept_before.push(rest_before[0]));
                    assert(entries_view(kept@) + retained_entries(entries_view(rest@), from, to)
                        =~= kept_before + (seq![rest_before[0]] + retained_entries(
                        rest_before.drop_first(),
                        from,
                        to,
                    )));
                }
            }
        }
        proof {
            assert(entries_view(rest@) =~= Seq::<
                (Epoch, Seq<SingleEpochSubscription<T>>),
            >::empty());
            assert(entries_view(due@) =~= drained_entries(whole, from, to));
            assert(entries_view(kept@) =~= retained_entries(whole, from, to));
        }
        self.subscriptions_epoch = kept;
        due
    }

    /// The all-epoch subscriptions, in registration order; the checkpoint
    /// monitor reads them once per firing and never removes one.
    pub fn all_epoch_subscribers(&self) -> (r: &Vec<AllEpochSubscription<T>>)
        ensures
            r@ == self.spec_subscriptions_all(),
    {
        &self.subscriptions_all
    }

    /// Calculate the last checkpoint (the current epoch) at the supplied
    /// timestamp: the number of whole periods elapsed since checkpoint
    /// zero, or `Overflow` when that count exceeds the epoch's native
    /// width — a wrapped or truncated epoch is never returned.
    pub fn epoch_at(&self, timestamp: i64) -> (r: EpochResult<Epoch>)
        requires
            self.wf(),
        ensures
            r == self.epoch_at_result(timestamp),
    {
        match (self.checkpoint_zero_timestamp, self.checkpoints_period) {
            (Some(zero), Some(period)) => {
                if timestamp < zero {
                    Err(EpochManagerError::CheckpointZeroInTheFuture(zero))
                } else {
                    let elapsed_wide: i128 = (timestamp as i128) - (zero as i128);
                    let elapsed: u64 = elapsed_wide as u64;
                    let epoch_wide: u64 = elapsed / (period as u64);
                    if epoch_wide > u32::MAX as u64 {
                        Err(EpochManagerError::Overflow)
                    } else {
                        Ok(epoch_wide as u32)
                    }
                }
            },
            (None, _) => Err(EpochManagerError::UnknownEpochZero),
            (Some(_), None) => Err(EpochManagerError::UnknownCheckpointPeriod),
        }
    }
}

impl<T: Clone> EpochManager<T> {
    /// Everything one firing of the checkpoint monitor at wall-clock second
    /// `now_secs` does to the manager `pre`, leaving it as `post` and owing
    /// the notifications `r`: on a clock error the firing aborts with that
    /// error and no state change; otherwise every all-epoch subscriber is
    /// owed a notification for the current epoch with a duplicated payload,
    /// every one-shot subscription in the inclusive catch-up range is owed
    /// its notification in ascending epoch order and leaves the registry,
    /// and the current epoch is recorded as checked.
    pub open spec fn fire_outcome(
        pre: Self,
        post: Self,
        now_secs: i64,
        r: EpochResult<Vec<Delivery<T>>>,
    ) -> bool {
        match pre.epoch_at_result(now_secs) {
            Err(e) => r == Err::<Vec<Delivery<T>>, EpochManagerError>(e) && post == pre,
            Ok(current) => {
                let from = match pre.spec_last_checked_epoch() {
                    Some(last) => last,
                    None => 0u32,
                };
                let singles = drained_deliveries(
                    drained_entries(pre.spec_subscriptions_epoch(), from, current),
                );
                let all_subs = pre.spec_subscriptions_all();
                &&& post.spec_checkpoint_zero() == pre.spec_checkpoint_zero()
                &&& post.spec_checkpoints_period() == pre.spec_checkpoints_period()
                &&& post.spec_subscriptions_all() == pre.spec_subscriptions_all()
                &&& post.spec_subscriptions_epoch() == retained_entries(
                    pre.spec_subscriptions_epoch(),
                    from,
                    current,
                )
                &&& post.spec_last_checked_epoch() == Some(current)
                &&& r matches Ok(deliveries) && {
                    &&& deliveries@.len() == all_subs.len() + singles.len()
                    &&& forall|k: int|
                        0 <= k < all_subs.len() ==> {
                            &&& (#[trigger] deliveries@[k]).recipient == all_subs[k].recipient
                            &&& deliveries@[k].notification.checkpoint == current
                            &&& cloned::<T>(
                                all_subs[k].payload,
                                deliveries@[k].notification.payload,
                            )
                        }
                    &&& deliveries@.subrange(all_subs.len() as int, deliveries@.len() as int)
                        == singles
                }
            },
        }
    }

    /// One firing of the checkpoint monitor, at wall-clock second
    /// `now_secs`: computes the notifications that are due and mutates the
    /// registry accordingly, as `fire_outcome` states. The caller performs
    /// the actual sends and the re-arming of the timer.
    pub fn checkpoint_monitor_fire_at(&mut self, now_secs: i64) -> (r: EpochResult<
        Vec<Delivery<T>>,
    >)
        requires
            old(self).wf(),
        ensures
            final(self).wf(),
            Self::fire_outcome(*old(self), *final(self), now_secs, r),
    {
        let current = match self.epoch_at(now_secs) {
            Ok(epoch) => epoch,
            Err(e) => {
                return Err(e);
            },
        };
        let from = match self.last_checked_epoch {
            Some(last) => last,
            None => 0,
        };
        let ghost all_subs = self.spec_subscriptions_all();
        let mut deliveries: Vec<Delivery<T>> = Vec::new();
        let mut i: usize = 0;
        while i < self.subscriptions_all.len()
            invariant
                all_subs == self.spec_subscriptions_all(),
                0 <= i <= all_subs.len(),
                deliveries@.len() == i,
                forall|k: int|
                    0 <= k < i ==> {
                        &&& (#[trigger] deliveries@[k]).recipient == all_subs[k].recipient
                        &&& deliveries@[k].notification.checkpoint == current
                        &&& cloned::<T>(all_subs[k].payload, deliveries@[k].notification.payload)
                    },
            decreases all_subs.len() - i,
        {
            let subscription = &self.subscriptions_all[i];
            let payload = subscription.payload.clone();
            let recipient = subscription.recipient;
            deliveries.push(
                Delivery {
                    recipient,
                    notification: EpochNotification { checkpoint: current, payload },
                },
            );
            i = i + 1;
        }
        let ghost all_count = all_subs.len();
        let ghost whole = self.spec_subscriptions_epoch();
        let ghost due_view = drained_entries(whole, from, current);
        let mut due = self.drain_due(from, current);
        let ghost target = deliveries@ + drained_deliveries(due_view);
        while due.len() > 0
            invariant
                target == deliveries@ + drained_deliveries(entries_view(due@)),
                deliveries@.len() >= all_count,
                forall|k: int|
                    0 <= k < all_count ==> {
                        &&& (#[trigger] deliveries@[k]).recipient == all_subs[k].recipient
                        &&& deliveries@[k].notification.checkpoint == current
                        &&& cloned::<T>(all_subs[k].payload, deliveries@[k].notification.payload)
                    },
            decreases due@.len(),
        {
            let ghost due_before = entries_view(due@);
            let entry = due.remove(0);
            proof {
                assert(entries_view(due@) =~= due_before.drop_first());
            }
            let (checkpoint, mut subs) = entry;
            let ghost entry_view = due_before[0];
            let ghost subs_whole = subs@;
            let ghost delivered_before = deliveries@;
            proof {
                assert(entry_view == (checkpoint, subs_whole));
            }
            while subs.len() > 0
                invariant
                    entry_view == (checkpoint, subs_whole),
                    subs@.len() <= subs_whole.len(),
                    subs@ == subs_whole.subrange(
                        subs_whole.len() - subs@.len(),
                        subs_whole.len() as int,
                    ),
                    deliveries@ == delivered_before + entry_deliveries(entry_view).subrange(
                        0,
                        subs_whole.len() - subs@.len(),
                    ),
                    deliveries@.len() >= all_count,
                    delivered_before.len() >= all_count,
                    forall|k: int|
                        0 <= k < all_count ==> {
                            &&& (#[trigger] deliveries@[k]).recipient == all_subs[k].recipient
                            &&& deliveries@[k].notification.checkpoint == current
                            &&& cloned::<T>(
                                all_subs[k].payload,
                                deliveries@[k].notification.payload,
                            )
                        },
                decreases subs@.len(),
            {
                let ghost consumed = subs_whole.len() - subs@.len();
                let sub = subs.remove(0);
                proof {
                    assert(sub == subs_whole[consumed]);
                    assert(subs@ =~= subs_whole.subrange(consumed + 1, subs_whole.len() as int));
                }
                deliveries.push(
                    Delivery {
                        recipient: sub.recipient,
                        notification: EpochNotification { checkpoint, payload: sub.payload },
                    },
                );
                proof {
                    assert(entry_deliveries(entry_view)[consumed] == (Delivery {
                        recipient: sub.recipient,
                        notification: EpochNotification { checkpoint, payload: sub.payload },
                    }));
                    assert(entry_deliveries(entry_view).subrange(0, consumed + 1)
                        =~= entry_deliveries(entry_view).subrange(0, consumed).push(
                        entry_deliveries(entry_view)[consumed],
                    ));
                }
            }
            proof {
                assert(entry_deliveries(entry_view).subrange(0, subs_whole.len() as int)
                    =~= entry_deliveries(entry_view));
                assert(drained_deliveries(due_before) == entry_deliveries(due_before[0])
                    + drained_deliveries(due_before.drop_first()));
                assert(target =~= deliveries@ + drained_deliveries(entries_view(due@)));
            }
        }
        proof {
            assert(entries_view(due@) =~= Seq::<
                (Epoch, Seq<SingleEpochSubscription<T>>),
            >::empty());
            assert(deliveries@ =~= target);
            assert(deliveries@.subrange(all_count as int, deliveries@.len() as int)
                =~= drained_deliveries(due_view));
        }
        self.last_checked_epoch = Some(current);
        Ok(deliveries)
    }

    /// One firing of the checkpoint monitor at the present wall time, as
    /// read from the system clock: `fire_outcome` states what happened for
    /// that reading.
    pub fn checkpoint_monitor_fire(&mut self) -> (r: EpochResult<Vec<Delivery<T>>>)
        requires
            old(self).wf(),
        ensures
            final(self).wf(),
            exists|now_secs: i64|
                #[trigger] Self::fire_outcome(*old(self), *final(self), now_secs, r),
    {
        let (now_secs, _now_nanos) = get_timestamp_nanos();
        self.checkpoint_monitor_fire_at(now_secs)
    }
}

impl<T> Default for EpochManager<T> {
    /// A fresh, unconfigured manager with an empty registry.
    fn default() -> (manager: Self)
        ensures
            manager.wf(),
            manager.spec_checkpoint_zero() == None::<i64>,
            manager.spec_checkpoints_period() == None::<u16>,
            manager.spec_subscriptions_epoch() == Seq::<
                (Epoch, Seq<SingleEpochSubscription<T>>),
            >::empty(),
            manager.spec_subscriptions_all() == Seq::<AllEpochSubscription<T>>::empty(),
            manager.spec_last_checked_epoch() == None::<Epoch>,
    {
        Self::new()
    }
}

} // verus!
