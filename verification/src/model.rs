//! Mathematical model of the quota-sharding counter.
//!
//! The model is a single state value, [`CounterModel`], together with one
//! spec-level transition function per operation. The executable code in
//! [`crate::counter`] promises, in its contracts, to move its state exactly
//! as these transitions say; the laws in [`crate::laws`] are proved about the
//! transitions alone.

use vstd::arithmetic::div_mod::{lemma_div_nonincreasing, lemma_div_pos_is_pos};
use vstd::prelude::*;

verus! {

/// Capacity of the registry: the fixed upper bound on concurrently
/// registered threads.
pub const THREADS_MAX: usize = 32;

/// One registry entry: a registered thread's local slot, or an empty entry.
///
/// `used` is the amount currently drawn from the slot's quota and `limit` is
/// the quota ceiling. An empty entry (`registered == false`) holds zeroes.
#[verifier::ext_equal]
pub struct SlotModel {
    pub registered: bool,
    pub used: int,
    pub limit: int,
}

/// The whole counter state: the lock-protected global fields (`count`,
/// `count_max`, `reserve`), the registry of local slots, the active-thread
/// count, and the cached aggregate served by the eventual read strategy.
#[verifier::ext_equal]
pub struct CounterModel {
    pub count_max: int,
    pub count: int,
    pub reserve: int,
    pub slots: Seq<SlotModel>,
    pub active: int,
    pub eventual: int,
}

/// Sum of `used` over all registry entries.
pub open spec fn sum_used(s: Seq<SlotModel>) -> int
    decreases s.len(),
{
    if s.len() == 0 {
        0
    } else {
        s.first().used + sum_used(s.drop_first())
    }
}

/// Sum of `limit` over all registry entries.
pub open spec fn sum_limit(s: Seq<SlotModel>) -> int
    decreases s.len(),
{
    if s.len() == 0 {
        0
    } else {
        s.first().limit + sum_limit(s.drop_first())
    }
}

/// Number of registered entries.
pub open spec fn count_registered(s: Seq<SlotModel>) -> int
    decreases s.len(),
{
    if s.len() == 0 {
        0
    } else {
        (if s.first().registered {
            1int
        } else {
            0int
        }) + count_registered(s.drop_first())
    }
}

/// Per-entry invariant: a slot never draws more than its quota, and an empty
/// entry holds nothing.
pub open spec fn slot_inv(s: SlotModel) -> bool {
    &&& 0 <= s.used
    &&& 0 <= s.limit
    &&& s.used <= s.limit
    &&& !s.registered ==> s.used == 0 && s.limit == 0
}

pub open spec fn slots_inv(s: Seq<SlotModel>) -> bool {
    forall|i: int| 0 <= i < s.len() ==> slot_inv(#[trigger] s[i])
}

/// Well-formedness of the whole state: the registry has its fixed capacity,
/// every slot satisfies its invariant, `reserve` is exactly the sum of all
/// outstanding quota limits, `active` is exactly the number of registered
/// entries, and `count + reserve` never exceeds the ceiling.
pub open spec fn wf_model(v: CounterModel) -> bool {
    &&& v.slots.len() == THREADS_MAX
    &&& 0 <= v.count
    &&& 0 <= v.reserve
    &&& v.count + v.reserve <= v.count_max
    &&& slots_inv(v.slots)
    &&& v.reserve == sum_limit(v.slots)
    &&& v.active == count_registered(v.slots)
}

/// The true aggregate value of the counter: the globalized part plus
/// everything still held in the registered slots.
pub open spec fn aggregate(v: CounterModel) -> int {
    v.count + sum_used(v.slots)
}

pub open spec fn valid_index(v: CounterModel, i: int) -> bool {
    0 <= i < v.slots.len()
}

pub open spec fn is_registered(v: CounterModel, i: int) -> bool {
    valid_index(v, i) && v.slots[i].registered
}

/// The freshly initialized state: zero usage, a configured ceiling, an empty
/// registry.
pub open spec fn spec_init(count_max: int) -> CounterModel {
    CounterModel {
        count_max: count_max,
        count: 0,
        reserve: 0,
        slots: Seq::new(THREADS_MAX as nat, |i: int| SlotModel { registered: false, used: 0, limit: 0 }),
        active: 0,
        eventual: 0,
    }
}

/// Registration: publish a zeroed slot at a free index and bump the
/// active-thread count.
pub open spec fn spec_register(v: CounterModel, i: int) -> CounterModel {
    CounterModel {
        slots: v.slots.update(i, SlotModel { registered: true, used: 0, limit: 0 }),
        active: v.active + 1,
        ..v
    }
}

/// Merge (globalize): fold slot `i` entirely back into the global pool.
/// `count` absorbs the slot's `used`, `reserve` gives up its `limit`, and the
/// slot is left registered but empty.
pub open spec fn spec_merge(v: CounterModel, i: int) -> CounterModel {
    let s = v.slots[i];
    CounterModel {
        count: v.count + s.used,
        reserve: v.reserve - s.limit,
        slots: v.slots.update(i, SlotModel { registered: s.registered, used: 0, limit: 0 }),
        ..v
    }
}

/// Rebalance: grant slot `i` an even share of the remaining free capacity as
/// its new quota, and pre-draw half of it (capped by what `count` can give)
/// so that future `add`s and `sub`s both have local headroom.
pub open spec fn spec_balance(v: CounterModel, i: int) -> CounterModel {
    let avail = v.count_max - v.count - v.reserve;
    let lim = avail / v.active;
    let half = lim / 2;
    let drawn = if half > v.count {
        v.count
    } else {
        half
    };
    CounterModel {
        count: v.count - drawn,
        reserve: v.reserve + lim,
        slots: v.slots.update(i, SlotModel { registered: true, used: drawn, limit: lim }),
        ..v
    }
}

/// When `add` succeeds: either the delta fits in the local quota, or, once
/// the slot is merged, the remaining global capacity covers it.
pub open spec fn can_add(v: CounterModel, i: int, delta: int) -> bool {
    let s = v.slots[i];
    let m = spec_merge(v, i);
    s.limit - s.used >= delta || m.count_max - m.count - m.reserve >= delta
}

/// When `sub` succeeds: either the slot has drawn at least the delta, or,
/// once the slot is merged, the global count covers it.
pub open spec fn can_sub(v: CounterModel, i: int, delta: int) -> bool {
    let s = v.slots[i];
    let m = spec_merge(v, i);
    s.used >= delta || m.count >= delta
}

/// `add`: fast path on the local slot when the quota has room; otherwise
/// merge, check the remaining capacity against the ceiling, commit the delta
/// into `count`, and rebalance. On failure the state is left merged but the
/// aggregate is untouched.
pub open spec fn spec_add(v: CounterModel, i: int, delta: int) -> (CounterModel, bool) {
    let s = v.slots[i];
    if s.limit - s.used >= delta {
        (
            CounterModel {
                slots: v.slots.update(i, SlotModel { used: s.used + delta, ..s }),
                ..v
            },
            true,
        )
    } else {
        let m = spec_merge(v, i);
        if m.count_max - m.count - m.reserve < delta {
            (m, false)
        } else {
            (spec_balance(CounterModel { count: m.count + delta, ..m }, i), true)
        }
    }
}

/// `sub`: fast path on the local slot when enough has been drawn locally;
/// otherwise merge, check the global count for underflow, take the delta out
/// of `count`, and rebalance.
pub open spec fn spec_sub(v: CounterModel, i: int, delta: int) -> (CounterModel, bool) {
    let s = v.slots[i];
    if s.used >= delta {
        (
            CounterModel {
                slots: v.slots.update(i, SlotModel { used: s.used - delta, ..s }),
                ..v
            },
            true,
        )
    } else {
        let m = spec_merge(v, i);
        if m.count < delta {
            (m, false)
        } else {
            (spec_balance(CounterModel { count: m.count - delta, ..m }, i), true)
        }
    }
}

/// Deregistration: merge the slot back into the global pool, clear the
/// registry entry, and drop the active-thread count.
pub open spec fn spec_unregister(v: CounterModel, i: int) -> CounterModel {
    let m = spec_merge(v, i);
    CounterModel {
        slots: m.slots.update(i, SlotModel { registered: false, used: 0, limit: 0 }),
        active: m.active - 1,
        ..m
    }
}

/// Refresh of the eventual read strategy's cache: recompute the aggregate
/// and store it; nothing else moves.
pub open spec fn spec_refresh(v: CounterModel) -> CounterModel {
    CounterModel { eventual: aggregate(v), ..v }
}

proof fn lemma_slots_inv_drop_first(s: Seq<SlotModel>)
    requires
        slots_inv(s),
        s.len() > 0,
    ensures
        slots_inv(s.drop_first()),
{
    assert forall|j: int| 0 <= j < s.drop_first().len() implies slot_inv(#[trigger] s.drop_first()[j]) by {
        assert(s.drop_first()[j] == s[j + 1]);
    }
}

/// The sums and the registered count are bounded as the per-entry invariant
/// suggests: both sums are non-negative, `used` never outruns `limit` in the
/// total, and the registered count lies between 0 and the registry size.
pub proof fn lemma_sums_bounds(s: Seq<SlotModel>)
    requires
        slots_inv(s),
    ensures
        0 <= sum_used(s),
        0 <= sum_limit(s),
        sum_used(s) <= sum_limit(s),
        0 <= count_registered(s) <= s.len(),
    decreases s.len(),
{
    if s.len() > 0 {
        assert(slot_inv(s[0]));
        lemma_slots_inv_drop_first(s);
        lemma_sums_bounds(s.drop_first());
    }
}

/// Updating one entry changes each sum by exactly the difference at that
/// entry.
pub proof fn lemma_sums_update(s: Seq<SlotModel>, i: int, x: SlotModel)
    requires
        0 <= i < s.len(),
    ensures
        sum_used(s.update(i, x)) == sum_used(s) - s[i].used + x.used,
        sum_limit(s.update(i, x)) == sum_limit(s) - s[i].limit + x.limit,
        count_registered(s.update(i, x)) == count_registered(s) - (if s[i].registered {
            1int
        } else {
            0int
        }) + (if x.registered {
            1int
        } else {
            0int
        }),
    decreases s.len(),
{
    let t = s.update(i, x);
    if i == 0 {
        assert(t.drop_first() =~= s.drop_first());
        assert(t.first() == x);
    } else {
        assert(t.drop_first() =~= s.drop_first().update(i - 1, x));
        assert(t.first() == s.first());
        lemma_sums_update(s.drop_first(), i - 1, x);
    }
}

/// Each entry's numbers are bounded by the totals, and a registered entry
/// makes the registered count positive.
pub proof fn lemma_element_bounds(s: Seq<SlotModel>, i: int)
    requires
        slots_inv(s),
        0 <= i < s.len(),
    ensures
        s[i].used <= sum_used(s),
        s[i].limit <= sum_limit(s),
        s[i].registered ==> count_registered(s) >= 1,
    decreases s.len(),
{
    lemma_slots_inv_drop_first(s);
    if i == 0 {
        lemma_sums_bounds(s.drop_first());
        assert(slot_inv(s[0]));
    } else {
        assert(s.drop_first()[i - 1] == s[i]);
        lemma_element_bounds(s.drop_first(), i - 1);
        assert(slot_inv(s[0]));
    }
}

/// Once no entry is registered, nothing is held locally: both sums are zero.
pub proof fn lemma_quiescent_sums(s: Seq<SlotModel>)
    requires
        slots_inv(s),
        count_registered(s) == 0,
    ensures
        sum_used(s) == 0,
        sum_limit(s) == 0,
    decreases s.len(),
{
    if s.len() > 0 {
        lemma_slots_inv_drop_first(s);
        lemma_sums_bounds(s.drop_first());
        assert(slot_inv(s[0]));
        assert(!s[0].registered);
        lemma_quiescent_sums(s.drop_first());
    }
}

/// Splitting the `used` sum of a suffix at its first entry; the shape the
/// exact-read loop walks.
pub proof fn lemma_sum_used_skip(s: Seq<SlotModel>, i: int)
    requires
        0 <= i < s.len(),
    ensures
        sum_used(s.skip(i)) == s[i].used + sum_used(s.skip(i + 1)),
{
    assert(s.skip(i).first() == s[i]);
    assert(s.skip(i).drop_first() =~= s.skip(i + 1));
}

pub proof fn lemma_slots_inv_skip(s: Seq<SlotModel>, i: int)
    requires
        slots_inv(s),
        0 <= i <= s.len(),
    ensures
        slots_inv(s.skip(i)),
{
    assert forall|j: int| 0 <= j < s.skip(i).len() implies slot_inv(#[trigger] s.skip(i)[j]) by {
        assert(s.skip(i)[j] == s[i + j]);
    }
}

/// The initial state is well formed and its aggregate is zero.
pub proof fn lemma_init(count_max: int)
    requires
        count_max >= 0,
    ensures
        wf_model(spec_init(count_max)),
        aggregate(spec_init(count_max)) == 0,
        spec_init(count_max).active == 0,
{
    let s = spec_init(count_max).slots;
    lemma_empty_slots(s);
}

proof fn lemma_empty_slots(s: Seq<SlotModel>)
    requires
        forall|i: int| 0 <= i < s.len() ==> !(#[trigger] s[i]).registered && s[i].used == 0
            && s[i].limit == 0,
    ensures
        sum_used(s) == 0,
        sum_limit(s) == 0,
        count_registered(s) == 0,
    decreases s.len(),
{
    if s.len() > 0 {
        assert forall|j: int| 0 <= j < s.drop_first().len() implies !(#[trigger] s.drop_first()[j]).registered
            && s.drop_first()[j].used == 0 && s.drop_first()[j].limit == 0 by {
            assert(s.drop_first()[j] == s[j + 1]);
        }
        lemma_empty_slots(s.drop_first());
    }
}

/// Registration preserves well-formedness, touches neither the aggregate nor
/// the global fields, and bumps the active count by one.
pub proof fn lemma_register(v: CounterModel, i: int)
    requires
        wf_model(v),
        valid_index(v, i),
        !v.slots[i].registered,
    ensures
        wf_model(spec_register(v, i)),
        aggregate(spec_register(v, i)) == aggregate(v),
        spec_register(v, i).count == v.count,
        spec_register(v, i).reserve == v.reserve,
        spec_register(v, i).count_max == v.count_max,
        spec_register(v, i).eventual == v.eventual,
        spec_register(v, i).active == v.active + 1,
        is_registered(spec_register(v, i), i),
{
    assert(slot_inv(v.slots[i]));
    lemma_sums_update(v.slots, i, SlotModel { registered: true, used: 0, limit: 0 });
    let w = spec_register(v, i);
    assert forall|j: int| 0 <= j < w.slots.len() implies slot_inv(#[trigger] w.slots[j]) by {
        if j != i {
            assert(w.slots[j] == v.slots[j]);
        }
    }
}

/// Merging preserves well-formedness and the aggregate, and leaves the slot
/// registered but empty. It also exposes the bounds the executable merge
/// needs: the slot's `used` fits under the ceiling next to `count`, and its
/// `limit` never exceeds `reserve`.
pub proof fn lemma_merge(v: CounterModel, i: int)
    requires
        wf_model(v),
        is_registered(v, i),
    ensures
        wf_model(spec_merge(v, i)),
        aggregate(spec_merge(v, i)) == aggregate(v),
        spec_merge(v, i).count_max == v.count_max,
        spec_merge(v, i).eventual == v.eventual,
        spec_merge(v, i).active == v.active,
        spec_merge(v, i).slots[i] == (SlotModel { registered: true, used: 0, limit: 0 }),
        is_registered(spec_merge(v, i), i),
        v.count + v.slots[i].used <= v.count_max,
        v.slots[i].limit <= v.reserve,
{
    assert(slot_inv(v.slots[i]));
    lemma_element_bounds(v.slots, i);
    lemma_sums_bounds(v.slots);
    lemma_sums_update(v.slots, i, SlotModel { registered: true, used: 0, limit: 0 });
    let w = spec_merge(v, i);
    assert forall|j: int| 0 <= j < w.slots.len() implies slot_inv(#[trigger] w.slots[j]) by {
        if j != i {
            assert(w.slots[j] == v.slots[j]);
        }
    }
}

/// Rebalancing a merged slot preserves well-formedness and the aggregate:
/// whatever is pre-drawn into the slot's `used` is taken out of `count`, and
/// the fresh quota fits in the remaining capacity.
pub proof fn lemma_balance(v: CounterModel, i: int)
    requires
        wf_model(v),
        is_registered(v, i),
        v.slots[i].used == 0,
        v.slots[i].limit == 0,
    ensures
        wf_model(spec_balance(v, i)),
        aggregate(spec_balance(v, i)) == aggregate(v),
        spec_balance(v, i).count_max == v.count_max,
        spec_balance(v, i).eventual == v.eventual,
        spec_balance(v, i).active == v.active,
        is_registered(spec_balance(v, i), i),
{
    let avail = v.count_max - v.count - v.reserve;
    let lim = avail / v.active;
    let half = lim / 2;
    assert(slot_inv(v.slots[i]));
    lemma_element_bounds(v.slots, i);
    assert(v.active >= 1);
    lemma_div_pos_is_pos(avail, v.active);
    lemma_div_nonincreasing(avail, v.active);
    lemma_div_pos_is_pos(lim, 2);
    lemma_div_nonincreasing(lim, 2);
    let drawn = if half > v.count {
        v.count
    } else {
        half
    };
    lemma_sums_update(v.slots, i, SlotModel { registered: true, used: drawn, limit: lim });
    let w = spec_balance(v, i);
    assert forall|j: int| 0 <= j < w.slots.len() implies slot_inv(#[trigger] w.slots[j]) by {
        if j != i {
            assert(w.slots[j] == v.slots[j]);
        }
    }
}

/// `add` preserves well-formedness; it succeeds exactly when [`can_add`]
/// holds, in which case the aggregate grows by the delta; on failure the
/// aggregate is unchanged. The ceiling, the active count, and the slot's
/// registration never move.
pub proof fn lemma_add(v: CounterModel, i: int, delta: int)
    requires
        wf_model(v),
        is_registered(v, i),
        0 <= delta,
    ensures
        wf_model(spec_add(v, i, delta).0),
        spec_add(v, i, delta).1 == can_add(v, i, delta),
        spec_add(v, i, delta).1 ==> aggregate(spec_add(v, i, delta).0) == aggregate(v) + delta,
        !spec_add(v, i, delta).1 ==> aggregate(spec_add(v, i, delta).0) == aggregate(v),
        spec_add(v, i, delta).0.count_max == v.count_max,
        spec_add(v, i, delta).0.eventual == v.eventual,
        spec_add(v, i, delta).0.active == v.active,
        is_registered(spec_add(v, i, delta).0, i),
{
    let s = v.slots[i];
    assert(slot_inv(s));
    if s.limit - s.used >= delta {
        lemma_sums_update(v.slots, i, SlotModel { used: s.used + delta, ..s });
        let w = spec_add(v, i, delta).0;
        assert forall|j: int| 0 <= j < w.slots.len() implies slot_inv(#[trigger] w.slots[j]) by {
            if j != i {
                assert(w.slots[j] == v.slots[j]);
            }
        }
    } else {
        lemma_merge(v, i);
        let m = spec_merge(v, i);
        if m.count_max - m.count - m.reserve >= delta {
            let c = CounterModel { count: m.count + delta, ..m };
            assert(wf_model(c));
            assert(aggregate(c) == aggregate(v) + delta);
            lemma_balance(c, i);
        }
    }
}

/// `sub` preserves well-formedness; it succeeds exactly when [`can_sub`]
/// holds, in which case the aggregate shrinks by the delta; on failure the
/// aggregate is unchanged.
pub proof fn lemma_sub(v: CounterModel, i: int, delta: int)
    requires
        wf_model(v),
        is_registered(v, i),
        0 <= delta,
    ensures
        wf_model(spec_sub(v, i, delta).0),
        spec_sub(v, i, delta).1 == can_sub(v, i, delta),
        spec_sub(v, i, delta).1 ==> aggregate(spec_sub(v, i, delta).0) == aggregate(v) - delta,
        !spec_sub(v, i, delta).1 ==> aggregate(spec_sub(v, i, delta).0) == aggregate(v),
        spec_sub(v, i, delta).0.count_max == v.count_max,
        spec_sub(v, i, delta).0.eventual == v.eventual,
        spec_sub(v, i, delta).0.active == v.active,
        is_registered(spec_sub(v, i, delta).0, i),
{
    let s = v.slots[i];
    assert(slot_inv(s));
    if s.used >= delta {
        lemma_sums_update(v.slots, i, SlotModel { used: s.used - delta, ..s });
        let w = spec_sub(v, i, delta).0;
        assert forall|j: int| 0 <= j < w.slots.len() implies slot_inv(#[trigger] w.slots[j]) by {
            if j != i {
                assert(w.slots[j] == v.slots[j]);
            }
        }
    } else {
        lemma_merge(v, i);
        let m = spec_merge(v, i);
        if m.count >= delta {
            let c = CounterModel { count: m.count - delta, ..m };
            assert(wf_model(c));
            assert(aggregate(c) == aggregate(v) - delta);
            lemma_balance(c, i);
        }
    }
}

/// Deregistration preserves well-formedness and the aggregate, drops the
/// active count by one, and folds the slot's numbers into the global fields.
pub proof fn lemma_unregister(v: CounterModel, i: int)
    requires
        wf_model(v),
        is_registered(v, i),
    ensures
        wf_model(spec_unregister(v, i)),
        aggregate(spec_unregister(v, i)) == aggregate(v),
        spec_unregister(v, i).count == v.count + v.slots[i].used,
        spec_unregister(v, i).reserve == v.reserve - v.slots[i].limit,
        spec_unregister(v, i).count_max == v.count_max,
        spec_unregister(v, i).eventual == v.eventual,
        spec_unregister(v, i).active == v.active - 1,
        !spec_unregister(v, i).slots[i].registered,
{
    lemma_merge(v, i);
    let m = spec_merge(v, i);
    lemma_sums_update(m.slots, i, SlotModel { registered: false, used: 0, limit: 0 });
    let w = spec_unregister(v, i);
    assert forall|j: int| 0 <= j < w.slots.len() implies slot_inv(#[trigger] w.slots[j]) by {
        if j != i {
            assert(w.slots[j] == m.slots[j]);
        }
    }
}

/// Refreshing the eventual cache records the aggregate and moves nothing
/// else.
pub proof fn lemma_refresh(v: CounterModel)
    requires
        wf_model(v),
    ensures
        wf_model(spec_refresh(v)),
        aggregate(spec_refresh(v)) == aggregate(v),
        spec_refresh(v).eventual == aggregate(v),
        spec_refresh(v).count_max == v.count_max,
        spec_refresh(v).active == v.active,
{
}

} // verus!
