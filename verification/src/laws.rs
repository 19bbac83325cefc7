use vstd::prelude::*;

use vstd::arithmetic::div_mod::lemma_div_basics;
use vstd::arithmetic::div_mod::lemma_div_by_multiple;
use vstd::arithmetic::div_mod::lemma_div_is_ordered;
use vstd::arithmetic::div_mod::lemma_fundamental_div_mod;
use vstd::arithmetic::div_mod::lemma_mod_bound;
use vstd::arithmetic::mul::lemma_mul_is_commutative;
use vstd::arithmetic::mul::lemma_mul_is_distributive_add;

use crate::manager::drained_entries;
use crate::manager::entries_sorted;
use crate::manager::lemma_partition_sorted;
use crate::manager::retained_entries;
use crate::manager::spec_epoch_at;
use crate::manager::EpochManager;
use crate::subscriptions::Epoch;
use crate::subscriptions::SingleEpochSubscription;

verus! {

/// Monotonicity: between two timestamps at or after checkpoint zero, the
/// later one never yields a smaller epoch; and whenever the later epoch is
/// computable, so is the earlier one.
pub proof fn lemma_epoch_at_monotonic<T>(m: EpochManager<T>, t1: i64, t2: i64)
    requires
        m.wf(),
        m.spec_checkpoint_zero().is_some(),
        m.spec_checkpoints_period().is_some(),
        m.spec_checkpoint_zero().unwrap() <= t1 <= t2,
    ensures
        m.epoch_at_result(t2) is Ok ==> m.epoch_at_result(t1) is Ok,
        (m.epoch_at_result(t1) is Ok && m.epoch_at_result(t2) is Ok) ==> m.epoch_at_result(
            t1,
        ).unwrap() <= m.epoch_at_result(t2).unwrap(),
{
    let zero = m.spec_checkpoint_zero().unwrap() as int;
    let period = m.spec_checkpoints_period().unwrap() as int;
    lemma_div_basics(period);
    lemma_div_is_ordered(0, t1 - zero, period);
    lemma_div_is_ordered(t1 - zero, t2 - zero, period);
    let q1 = spec_epoch_at(zero, period, t1 as int);
    let q2 = spec_epoch_at(zero, period, t2 as int);
    assert(0 <= q1 <= q2);
    if m.epoch_at_result(t1) is Ok && m.epoch_at_result(t2) is Ok {
        assert(q1 <= u32::MAX && q2 <= u32::MAX);
        assert(m.epoch_at_result(t1).unwrap() == q1 as u32);
        assert(m.epoch_at_result(t2).unwrap() == q2 as u32);
        assert(q1 as u32 <= q2 as u32);
    }
}

/// Bucketing: a timestamp whose epoch is `e` lies between the start of
/// epoch `e` (inclusive) and the start of epoch `e + 1` (exclusive),
/// whenever both starts are computable without overflow.
pub proof fn lemma_epoch_bucketing<T>(m: EpochManager<T>, e: Epoch, t: i64)
    requires
        m.wf(),
        e < u32::MAX,
        m.epoch_timestamp_result(e) is Ok,
        m.epoch_timestamp_result((e + 1) as Epoch) is Ok,
        m.epoch_at_result(t) == Ok::<Epoch, crate::errors::EpochManagerError>(e),
    ensures
        m.epoch_timestamp_result(e).unwrap() <= t,
        t < m.epoch_timestamp_result((e + 1) as Epoch).unwrap(),
{
    let zero = m.spec_checkpoint_zero().unwrap() as int;
    let period = m.spec_checkpoints_period().unwrap() as int;
    let elapsed = t - zero;
    lemma_div_basics(period);
    lemma_div_is_ordered(0, elapsed, period);
    assert(e == elapsed / period);
    lemma_fundamental_div_mod(elapsed, period);
    lemma_mod_bound(elapsed, period);
    assert(elapsed == period * (e as int) + (elapsed % period));
    assert(period * ((e + 1) as int) == period * (e as int) + period) by {
        lemma_mul_is_distributive_add(period, e as int, 1);
    }
    assert(m.epoch_timestamp_result(e).unwrap() == period * (e as int) + zero);
    assert(m.epoch_timestamp_result((e + 1) as Epoch).unwrap() == period * ((e + 1) as int)
        + zero);
}

/// Left-inverse round trip: whenever the start of epoch `e` is computable
/// without overflow, the epoch at that timestamp is `e` again.
pub proof fn lemma_epoch_round_trip<T>(m: EpochManager<T>, e: Epoch)
    requires
        m.wf(),
        m.epoch_timestamp_result(e) is Ok,
    ensures
        m.epoch_at_result(m.epoch_timestamp_result(e).unwrap()) == Ok::<
            Epoch,
            crate::errors::EpochManagerError,
        >(e),
{
    let zero = m.spec_checkpoint_zero().unwrap() as int;
    let period = m.spec_checkpoints_period().unwrap() as int;
    let product = period * (e as int);
    assert(product / period == e as int) by {
        lemma_mul_is_commutative(period, e as int);
        lemma_div_by_multiple(e as int, period);
    }
    assert(m.epoch_timestamp_result(e).unwrap() == product + zero);
    assert(spec_epoch_at(zero, period, product + zero) == e as int);
}

/// Catch-up completeness: every entry of the registry whose epoch lies in
/// the drained range appears in the drained sequence (which
/// `lemma_partition_sorted` shows is in ascending epoch order).
pub proof fn lemma_drain_complete<T>(
    s: Seq<(Epoch, Seq<SingleEpochSubscription<T>>)>,
    from: Epoch,
    to: Epoch,
)
    ensures
        forall|i: int|
            0 <= i < s.len() && from <= (#[trigger] s[i]).0 <= to ==> drained_entries(
                s,
                from,
                to,
            ).contains(s[i]),
    decreases s.len(),
{
    if s.len() == 0 {
    } else {
        let t = s.drop_first();
        lemma_drain_complete(t, from, to);
        let d = drained_entries(s, from, to);
        let dt = drained_entries(t, from, to);
        assert forall|i: int|
            0 <= i < s.len() && from <= (#[trigger] s[i]).0 <= to implies d.contains(s[i]) by {
            if i == 0 {
                assert(d[0] == s[0]);
            } else {
                assert(t[i - 1] == s[i]);
                assert(dt.contains(s[i]));
                let j = choose|j: int| 0 <= j < dt.len() && dt[j] == s[i];
                if from <= s[0].0 <= to {
                    assert(d[j + 1] == dt[j]);
                } else {
                    assert(d == dt);
                }
            }
        }
    }
}

/// No double delivery: an epoch drained by one firing is no longer in the
/// registry, so a later drain over any range returns no entry for an epoch
/// of the earlier range.
pub proof fn lemma_no_double_delivery<T>(
    s: Seq<(Epoch, Seq<SingleEpochSubscription<T>>)>,
    from1: Epoch,
    to1: Epoch,
    from2: Epoch,
    to2: Epoch,
)
    requires
        entries_sorted(s),
    ensures
        forall|i: int|
            0 <= i < drained_entries(retained_entries(s, from1, to1), from2, to2).len() ==> !(from1
                <= (#[trigger] drained_entries(retained_entries(s, from1, to1), from2, to2)[i]).0
                <= to1),
{
    let r = retained_entries(s, from1, to1);
    lemma_partition_sorted(s, from1, to1);
    lemma_partition_sorted(r, from2, to2);
    let d = drained_entries(r, from2, to2);
    assert forall|i: int| 0 <= i < d.len() implies !(from1 <= (#[trigger] d[i]).0 <= to1) by {
        assert(r.contains(d[i]));
        let j = choose|j: int| 0 <= j < r.len() && r[j] == d[i];
        assert(!(from1 <= r[j].0 <= to1));
    }
}

} // verus!
