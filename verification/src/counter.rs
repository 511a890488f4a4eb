//! Executable quota-sharding counter.
//!
//! [`GlobalData`] owns the lock-protected global fields together with the
//! registry arena of local slots; in the running system every function here
//! is one atomic step (a fast-path step on the calling thread's own slot, or
//! a step under the global lock). Each function's contract pins the new state
//! to the matching transition of [`crate::model`].

use crate::model::{
    aggregate, can_add, can_sub, is_registered, lemma_add, lemma_balance, lemma_element_bounds,
    lemma_init, lemma_merge, lemma_quiescent_sums, lemma_register, lemma_slots_inv_skip,
    lemma_sub, lemma_sum_used_skip, lemma_sums_bounds, lemma_unregister, slot_inv, spec_add,
    spec_balance, spec_init, spec_merge, spec_refresh, spec_register, spec_sub, spec_unregister,
    wf_model, CounterModel, SlotModel, THREADS_MAX,
};
use vstd::arithmetic::div_mod::{lemma_div_nonincreasing, lemma_div_pos_is_pos};
use vstd::prelude::*;

verus! {

/// One registry arena entry: a thread's local slot, or an empty entry.
#[derive(Clone, Copy)]
struct LocalSlot {
    registered: bool,
    used: usize,
    limit: usize,
}

/// The shared state of the counter: the global fields, the registry arena of
/// per-thread slots, the active-thread count, and the eventual-read cache.
pub struct GlobalData {
    count_max: usize,
    count: usize,
    reserve: usize,
    slots: Vec<LocalSlot>,
    active_threads: usize,
    eventual: usize,
}

spec fn slot_model(s: LocalSlot) -> SlotModel {
    SlotModel { registered: s.registered, used: s.used as int, limit: s.limit as int }
}

impl View for GlobalData {
    type V = CounterModel;

    closed spec fn view(&self) -> CounterModel {
        CounterModel {
            count_max: self.count_max as int,
            count: self.count as int,
            reserve: self.reserve as int,
            slots: self.slots@.map(|i: int, s: LocalSlot| slot_model(s)),
            active: self.active_threads as int,
            eventual: self.eventual as int,
        }
    }
}

proof fn lemma_view_slots_update(pre: Seq<LocalSlot>, i: int, s: LocalSlot)
    requires
        0 <= i < pre.len(),
    ensures
        pre.update(i, s).map(|j: int, t: LocalSlot| slot_model(t)) == pre.map(
            |j: int, t: LocalSlot| slot_model(t),
        ).update(i, slot_model(s)),
{
    let lhs = pre.update(i, s).map(|j: int, t: LocalSlot| slot_model(t));
    let rhs = pre.map(|j: int, t: LocalSlot| slot_model(t)).update(i, slot_model(s));
    assert(lhs =~= rhs);
}

impl GlobalData {
    /// Well-formedness of the state; established by the constructors and
    /// preserved by every operation.
    pub open spec fn wf(&self) -> bool {
        wf_model(self@)
    }

    /// Creates a counter with the given hard ceiling, zero usage, and an
    /// empty registry of `THREADS_MAX` entries.
    pub fn new(count_max: usize) -> (r: GlobalData)
        ensures
            r.wf(),
            r@ == spec_init(count_max as int),
    {
        let mut slots: Vec<LocalSlot> = Vec::new();
        let mut i: usize = 0;
        while i < THREADS_MAX
            invariant
                i <= THREADS_MAX,
                slots@.len() == i,
                forall|j: int| 0 <= j < i ==> (#[trigger] slots@[j]) == (LocalSlot {
                    registered: false,
                    used: 0,
                    limit: 0,
                }),
            decreases THREADS_MAX - i,
        {
            slots.push(LocalSlot { registered: false, used: 0, limit: 0 });
            i = i + 1;
        }
        let r = GlobalData {
            count_max,
            count: 0,
            reserve: 0,
            slots,
            active_threads: 0,
            eventual: 0,
        };
        proof {
            assert(r@.slots =~= spec_init(count_max as int).slots);
            assert(r@ =~= spec_init(count_max as int));
            lemma_init(count_max as int);
        }
        r
    }

    /// Merge (globalize): folds slot `index` entirely back into the global
    /// pool. `count` absorbs the slot's `used`, `reserve` gives up the
    /// slot's `limit`, and the slot is left registered but empty.
    pub fn globalize_count(&mut self, index: usize)
        requires
            old(self).wf(),
            is_registered(old(self)@, index as int),
        ensures
            final(self).wf(),
            final(self)@ == spec_merge(old(self)@, index as int),
            aggregate(final(self)@) == aggregate(old(self)@),
    {
        proof {
            lemma_merge(self@, index as int);
        }
        let s = self.slots[index];
        self.count = self.count + s.used;
        self.reserve = self.reserve - s.limit;
        self.slots[index] = LocalSlot { registered: s.registered, used: 0, limit: 0 };
        proof {
            lemma_view_slots_update(
                old(self).slots@,
                index as int,
                LocalSlot { registered: s.registered, used: 0, limit: 0 },
            );
            assert(self@ =~= spec_merge(old(self)@, index as int));
        }
    }

    /// Rebalance: grants slot `index` (just merged, so currently empty) an
    /// even share of the remaining free capacity as its new quota, and
    /// pre-draws half of it, capped by what `count` can give.
    pub fn balance_count(&mut self, index: usize)
        requires
            old(self).wf(),
            is_registered(old(self)@, index as int),
            old(self)@.slots[index as int].used == 0,
            old(self)@.slots[index as int].limit == 0,
        ensures
            final(self).wf(),
            final(self)@ == spec_balance(old(self)@, index as int),
            aggregate(final(self)@) == aggregate(old(self)@),
    {
        proof {
            lemma_balance(self@, index as int);
            lemma_element_bounds(self@.slots, index as int);
        }
        let avail = self.count_max - self.count - self.reserve;
        let limit = avail / self.active_threads;
        proof {
            lemma_div_pos_is_pos(avail as int, self.active_threads as int);
            lemma_div_nonincreasing(avail as int, self.active_threads as int);
        }
        self.reserve = self.reserve + limit;
        let mut used = limit / 2;
        if used > self.count {
            used = self.count;
        }
        self.count = self.count - used;
        self.slots[index] = LocalSlot { registered: true, used, limit };
        proof {
            lemma_view_slots_update(
                old(self).slots@,
                index as int,
                LocalSlot { registered: true, used, limit },
            );
            assert(self@ =~= spec_balance(old(self)@, index as int));
        }
    }

    /// Exact read: the global `count` plus every registered slot's `used`.
    /// In the running system this walks the registry under the global lock;
    /// a value observed while a writer is mid-flight on its own slot is
    /// best-effort only, so the result is exact when no writer is concurrent.
    pub fn read_count(&self) -> (r: usize)
        requires
            self.wf(),
        ensures
            r == aggregate(self@),
    {
        let ghost vslots = self@.slots;
        proof {
            lemma_sums_bounds(vslots);
            assert(vslots.skip(0) =~= vslots);
        }
        let mut sum = self.count;
        let mut i: usize = 0;
        while i < THREADS_MAX
            invariant
                self.wf(),
                vslots == self@.slots,
                i <= THREADS_MAX,
                sum + sum_used_from(vslots, i as int) == aggregate(self@),
            decreases THREADS_MAX - i,
        {
            proof {
                lemma_sum_used_skip(vslots, i as int);
                lemma_slots_inv_skip(vslots, i as int + 1);
                lemma_sums_bounds(vslots.skip(i as int + 1));
                lemma_sums_bounds(vslots);
                assert(slot_inv(vslots[i as int]));
            }
            let s = self.slots[i];
            if s.registered {
                sum = sum + s.used;
            }
            i = i + 1;
        }
        proof {
            assert(vslots.skip(THREADS_MAX as int) =~= Seq::<SlotModel>::empty());
        }
        sum
    }

    /// Quiescent read: valid once every thread has deregistered; the whole
    /// aggregate then sits in the global `count` and the read is race-free.
    pub fn read_quiescent(&self) -> (r: usize)
        requires
            self.wf(),
            self@.active == 0,
        ensures
            r == aggregate(self@),
            r == self@.count,
    {
        proof {
            lemma_quiescent_sums(self@.slots);
        }
        self.count
    }

    /// Recomputes the eventual-read cache from the current state. In the
    /// running system a dedicated refresher task calls this on a fixed
    /// interval; readers then see a value at most one interval stale.
    pub fn refresh_eventual(&mut self)
        requires
            old(self).wf(),
        ensures
            final(self).wf(),
            final(self)@ == spec_refresh(old(self)@),
            final(self)@.eventual == aggregate(old(self)@),
    {
        let current = self.read_count();
        self.eventual = current;
        proof {
            assert(self@ =~= spec_refresh(old(self)@));
        }
    }

    /// Eventual read: returns the cached aggregate as of the last refresh.
    pub fn read_eventual(&self) -> (r: usize)
        ensures
            r == self@.eventual,
    {
        self.eventual
    }

    /// Reads the aggregate under the chosen consistency model.
    pub fn read_with(&self, strategy: ConsistencyModel) -> (r: usize)
        requires
            self.wf(),
            strategy is Quiescent ==> self@.active == 0,
        ensures
            strategy is Exact ==> r == aggregate(self@),
            strategy is Eventual ==> r == self@.eventual,
            strategy is Quiescent ==> r == aggregate(self@) && r == self@.count,
    {
        match strategy {
            ConsistencyModel::Exact => self.read_count(),
            ConsistencyModel::Eventual => self.read_eventual(),
            ConsistencyModel::Quiescent => self.read_quiescent(),
        }
    }

    /// The globalized part of the aggregate (what no slot currently holds).
    pub fn global_count(&self) -> (r: usize)
        ensures
            r == self@.count,
    {
        self.count
    }

    /// The hard ceiling the aggregate may never exceed.
    pub fn count_ceiling(&self) -> (r: usize)
        ensures
            r == self@.count_max,
    {
        self.count_max
    }

    /// The sum of all outstanding quota limits held by registered slots.
    pub fn reserve_total(&self) -> (r: usize)
        ensures
            r == self@.reserve,
    {
        self.reserve
    }

    /// The number of currently registered threads.
    pub fn active_count(&self) -> (r: usize)
        ensures
            r == self@.active,
    {
        self.active_threads
    }

    /// Whether the registry entry at `index` is occupied.
    pub fn thread_registered(&self, index: usize) -> (r: bool)
        requires
            self.wf(),
            (index as int) < self@.slots.len(),
        ensures
            r == self@.slots[index as int].registered,
    {
        self.slots[index].registered
    }

    /// The amount slot `index` has drawn from its quota.
    pub fn slot_used(&self, index: usize) -> (r: usize)
        requires
            self.wf(),
            (index as int) < self@.slots.len(),
        ensures
            r == self@.slots[index as int].used,
    {
        self.slots[index].used
    }

    /// Slot `index`'s current quota ceiling.
    pub fn slot_limit(&self, index: usize) -> (r: usize)
        requires
            self.wf(),
            (index as int) < self@.slots.len(),
        ensures
            r == self@.slots[index as int].limit,
    {
        self.slots[index].limit
    }
}

/// Helper for the exact-read loop: the part of the `used` sum not yet walked.
pub open spec fn sum_used_from(s: Seq<SlotModel>, i: int) -> int {
    crate::model::sum_used(s.skip(i))
}

impl Default for GlobalData {
    /// The configuration the algorithm ships with: a ceiling of 10000.
    fn default() -> (r: GlobalData)
        ensures
            r.wf(),
            r@ == spec_init(10000),
    {
        GlobalData::new(10000)
    }
}

/// The three read strategies, as a selectable interface: exact-on-demand,
/// periodically refreshed (possibly stale), and quiescence-based.
#[derive(Clone, Copy)]
pub enum ConsistencyModel {
    Exact,
    Eventual,
    Quiescent,
}

/// Registers the thread that owns slot `index`: publishes a zeroed slot in
/// the registry and bumps the active-thread count. The index must be within
/// the registry's capacity and not currently in use; in the running system
/// this step happens under the global lock so that it serializes with
/// rebalancing.
pub fn count_register_thread(global_data: &mut GlobalData, index: usize)
    requires
        old(global_data).wf(),
        (index as int) < old(global_data)@.slots.len(),
        !old(global_data)@.slots[index as int].registered,
    ensures
        final(global_data).wf(),
        final(global_data)@ == spec_register(old(global_data)@, index as int),
        aggregate(final(global_data)@) == aggregate(old(global_data)@),
{
    proof {
        lemma_register(global_data@, index as int);
        lemma_sums_bounds(global_data@.slots);
    }
    global_data.slots[index] = LocalSlot { registered: true, used: 0, limit: 0 };
    global_data.active_threads = global_data.active_threads + 1;
    proof {
        lemma_view_slots_update(
            old(global_data).slots@,
            index as int,
            LocalSlot { registered: true, used: 0, limit: 0 },
        );
        assert(global_data@ =~= spec_register(old(global_data)@, index as int));
    }
}

/// Deregisters the thread that owns slot `index`: merges its outstanding
/// `used`/`limit` back into the global pool, clears the registry entry, and
/// drops the active-thread count. After this the slot holds nothing and the
/// aggregate is entirely accounted for in `count` and the other slots.
pub fn count_unregister_thread(global_data: &mut GlobalData, index: usize)
    requires
        old(global_data).wf(),
        is_registered(old(global_data)@, index as int),
    ensures
        final(global_data).wf(),
        final(global_data)@ == spec_unregister(old(global_data)@, index as int),
        aggregate(final(global_data)@) == aggregate(old(global_data)@),
{
    proof {
        lemma_unregister(global_data@, index as int);
    }
    global_data.globalize_count(index);
    let ghost mid = global_data.slots@;
    proof {
        lemma_element_bounds(global_data@.slots, index as int);
    }
    global_data.slots[index] = LocalSlot { registered: false, used: 0, limit: 0 };
    global_data.active_threads = global_data.active_threads - 1;
    proof {
        lemma_view_slots_update(
            mid,
            index as int,
            LocalSlot { registered: false, used: 0, limit: 0 },
        );
        assert(global_data@ =~= spec_unregister(old(global_data)@, index as int));
    }
}

/// Admits `delta` into the counter: on the fast path the calling thread's
/// own slot covers it with no synchronization; otherwise the slot is merged
/// under the lock, the remaining capacity is checked against the ceiling,
/// and on success the delta is committed and the slot rebalanced. Returns
/// whether the delta was admitted; on failure the aggregate is unchanged.
pub fn add_count(global_data: &mut GlobalData, index: usize, delta: usize) -> (r: bool)
    requires
        old(global_data).wf(),
        is_registered(old(global_data)@, index as int),
    ensures
        final(global_data).wf(),
        final(global_data)@ == spec_add(old(global_data)@, index as int, delta as int).0,
        r == spec_add(old(global_data)@, index as int, delta as int).1,
        r == can_add(old(global_data)@, index as int, delta as int),
        r ==> aggregate(final(global_data)@) == aggregate(old(global_data)@) + delta,
        !r ==> aggregate(final(global_data)@) == aggregate(old(global_data)@),
        is_registered(final(global_data)@, index as int),
        final(global_data)@.count_max == old(global_data)@.count_max,
{
    proof {
        lemma_add(global_data@, index as int, delta as int);
        assert(slot_inv(global_data@.slots[index as int]));
    }
    let s = global_data.slots[index];
    if s.limit - s.used >= delta {
        global_data.slots[index] = LocalSlot {
            registered: s.registered,
            used: s.used + delta,
            limit: s.limit,
        };
        proof {
            lemma_view_slots_update(
                old(global_data).slots@,
                index as int,
                LocalSlot { registered: s.registered, used: (s.used + delta) as usize, limit: s.limit },
            );
            assert(global_data@ =~= spec_add(old(global_data)@, index as int, delta as int).0);
        }
        return true;
    }
    global_data.globalize_count(index);
    let ghost m = global_data@;
    if global_data.count_max - global_data.count - global_data.reserve < delta {
        return false;
    }
    global_data.count = global_data.count + delta;
    proof {
        assert(global_data@ =~= (CounterModel { count: m.count + delta, ..m }));
    }
    global_data.balance_count(index);
    proof {
        assert(global_data@ == spec_add(old(global_data)@, index as int, delta as int).0);
    }
    true
}

/// Takes `delta` back out of the counter: on the fast path the calling
/// thread's slot has drawn enough to return locally; otherwise the slot is
/// merged under the lock, the global count is checked for underflow, and on
/// success the delta is removed and the slot rebalanced. Returns whether the
/// delta was applied; on failure the aggregate is unchanged.
pub fn sub_count(global_data: &mut GlobalData, index: usize, delta: usize) -> (r: bool)
    requires
        old(global_data).wf(),
        is_registered(old(global_data)@, index as int),
    ensures
        final(global_data).wf(),
        final(global_data)@ == spec_sub(old(global_data)@, index as int, delta as int).0,
        r == spec_sub(old(global_data)@, index as int, delta as int).1,
        r == can_sub(old(global_data)@, index as int, delta as int),
        r ==> aggregate(final(global_data)@) == aggregate(old(global_data)@) - delta,
        !r ==> aggregate(final(global_data)@) == aggregate(old(global_data)@),
        is_registered(final(global_data)@, index as int),
        final(global_data)@.count_max == old(global_data)@.count_max,
{
    proof {
        lemma_sub(global_data@, index as int, delta as int);
        assert(slot_inv(global_data@.slots[index as int]));
    }
    let s = global_data.slots[index];
    if s.used >= delta {
        global_data.slots[index] = LocalSlot {
            registered: s.registered,
            used: s.used - delta,
            limit: s.limit,
        };
        proof {
            lemma_view_slots_update(
                old(global_data).slots@,
                index as int,
                LocalSlot { registered: s.registered, used: (s.used - delta) as usize, limit: s.limit },
            );
            assert(global_data@ =~= spec_sub(old(global_data)@, index as int, delta as int).0);
        }
        return true;
    }
    global_data.globalize_count(index);
    let ghost m = global_data@;
    if global_data.count < delta {
        return false;
    }
    global_data.count = global_data.count - delta;
    proof {
        assert(global_data@ =~= (CounterModel { count: m.count - delta, ..m }));
    }
    global_data.balance_count(index);
    proof {
        assert(global_data@ == spec_sub(old(global_data)@, index as int, delta as int).0);
    }
    true
}

} // verus!
