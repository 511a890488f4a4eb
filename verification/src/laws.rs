//! Laws of the counter, proved over the model's transitions.
//!
//! An execution of the running system is an interleaving of atomic steps:
//! fast-path steps touch only the acting thread's own slot and every other
//! step runs under the global lock, so any concurrent history corresponds to
//! some sequence of [`Op`]s. The lemmas here quantify over all such
//! sequences, and therefore over all schedulings.

use crate::model::{
    aggregate, is_registered, lemma_add, lemma_init, lemma_quiescent_sums, lemma_refresh,
    lemma_register, lemma_sub, lemma_sums_bounds, lemma_unregister, slot_inv, slots_inv, spec_add,
    spec_init, spec_refresh, spec_register, spec_sub, spec_unregister, valid_index, wf_model,
    CounterModel,
};
use vstd::prelude::*;

verus! {

/// One atomic step of the counter, as taken by the thread owning `index`.
pub enum Op {
    Register { index: int },
    Unregister { index: int },
    Add { index: int, delta: int },
    Sub { index: int, delta: int },
    Refresh,
}

/// The precondition of a step: registration needs a free in-range entry,
/// and every other slot operation needs the acting thread to be registered.
pub open spec fn op_enabled(v: CounterModel, op: Op) -> bool {
    match op {
        Op::Register { index } => valid_index(v, index) && !v.slots[index].registered,
        Op::Unregister { index } => is_registered(v, index),
        Op::Add { index, delta } => is_registered(v, index) && 0 <= delta,
        Op::Sub { index, delta } => is_registered(v, index) && 0 <= delta,
        Op::Refresh => true,
    }
}

/// The state after one step.
pub open spec fn op_step(v: CounterModel, op: Op) -> CounterModel {
    match op {
        Op::Register { index } => spec_register(v, index),
        Op::Unregister { index } => spec_unregister(v, index),
        Op::Add { index, delta } => spec_add(v, index, delta).0,
        Op::Sub { index, delta } => spec_sub(v, index, delta).0,
        Op::Refresh => spec_refresh(v),
    }
}

/// The step's contribution to the logical value: `+delta` for a successful
/// `add`, `-delta` for a successful `sub`, nothing otherwise.
pub open spec fn op_gain(v: CounterModel, op: Op) -> int {
    match op {
        Op::Add { index, delta } => if spec_add(v, index, delta).1 {
            delta
        } else {
            0
        },
        Op::Sub { index, delta } => if spec_sub(v, index, delta).1 {
            -delta
        } else {
            0
        },
        _ => 0,
    }
}

/// Every step of the sequence is enabled in the state it runs from.
pub open spec fn ops_enabled(v: CounterModel, ops: Seq<Op>) -> bool
    decreases ops.len(),
{
    ops.len() == 0 || (op_enabled(v, ops.first()) && ops_enabled(
        op_step(v, ops.first()),
        ops.drop_first(),
    ))
}

/// The state after running the whole sequence.
pub open spec fn run_ops(v: CounterModel, ops: Seq<Op>) -> CounterModel
    decreases ops.len(),
{
    if ops.len() == 0 {
        v
    } else {
        run_ops(op_step(v, ops.first()), ops.drop_first())
    }
}

/// The sum of all successful `add` deltas minus all successful `sub` deltas
/// along the run.
pub open spec fn net_gain(v: CounterModel, ops: Seq<Op>) -> int
    decreases ops.len(),
{
    if ops.len() == 0 {
        0
    } else {
        op_gain(v, ops.first()) + net_gain(op_step(v, ops.first()), ops.drop_first())
    }
}

/// In every well-formed state the true aggregate is within the ceiling:
/// `0 <= count + Σ used <= count_max` (and so, since `used <= limit` per
/// slot and `reserve == Σ limit`, also `count + reserve <= count_max`).
/// Every reachable state is well formed, so this is an invariant of the
/// counter.
pub proof fn lemma_aggregate_bounded(v: CounterModel)
    requires
        wf_model(v),
    ensures
        0 <= aggregate(v) <= v.count_max,
{
    lemma_sums_bounds(v.slots);
}

/// One step from a well-formed state lands in a well-formed state, moves the
/// aggregate by exactly the step's gain, and keeps the ceiling.
pub proof fn lemma_step(v: CounterModel, op: Op)
    requires
        wf_model(v),
        op_enabled(v, op),
    ensures
        wf_model(op_step(v, op)),
        aggregate(op_step(v, op)) == aggregate(v) + op_gain(v, op),
        op_step(v, op).count_max == v.count_max,
{
    match op {
        Op::Register { index } => lemma_register(v, index),
        Op::Unregister { index } => lemma_unregister(v, index),
        Op::Add { index, delta } => lemma_add(v, index, delta),
        Op::Sub { index, delta } => lemma_sub(v, index, delta),
        Op::Refresh => lemma_refresh(v),
    }
}

/// The data-model invariant holds in every reachable state: starting from a
/// fresh counter, after any enabled sequence of operations the state is
/// still well formed — in particular `count + reserve <= count_max` and
/// every slot satisfies `used <= limit`.
pub proof fn lemma_invariant_reachable(count_max: int, ops: Seq<Op>)
    requires
        0 <= count_max,
        ops_enabled(spec_init(count_max), ops),
    ensures
        wf_model(run_ops(spec_init(count_max), ops)),
        run_ops(spec_init(count_max), ops).count + run_ops(spec_init(count_max), ops).reserve
            <= count_max,
        slots_inv(run_ops(spec_init(count_max), ops).slots),
{
    lemma_init(count_max);
    lemma_conservation(spec_init(count_max), ops);
}

/// Conservation: over any enabled sequence of operations, the aggregate
/// moves by exactly the sum of the successful `add` deltas minus the
/// successful `sub` deltas — no admitted amount is ever lost or duplicated,
/// under any interleaving.
pub proof fn lemma_conservation(v: CounterModel, ops: Seq<Op>)
    requires
        wf_model(v),
        ops_enabled(v, ops),
    ensures
        wf_model(run_ops(v, ops)),
        aggregate(run_ops(v, ops)) == aggregate(v) + net_gain(v, ops),
        run_ops(v, ops).count_max == v.count_max,
    decreases ops.len(),
{
    if ops.len() > 0 {
        lemma_step(v, ops.first());
        lemma_conservation(op_step(v, ops.first()), ops.drop_first());
    }
}

/// Conservation at quiescence: if after the run every thread has
/// deregistered, the quiescent read — the global `count` alone — equals the
/// initial aggregate plus the net of all successful operations. Read after
/// a lifetime that starts from a fresh counter, it equals exactly the sum of
/// successful `add` deltas minus successful `sub` deltas.
pub proof fn lemma_quiescent_conservation(v: CounterModel, ops: Seq<Op>)
    requires
        wf_model(v),
        ops_enabled(v, ops),
        run_ops(v, ops).active == 0,
    ensures
        run_ops(v, ops).count == aggregate(v) + net_gain(v, ops),
{
    lemma_conservation(v, ops);
    let w = run_ops(v, ops);
    lemma_quiescent_sums(w.slots);
}

/// No-overcommit: over any enabled sequence, the successes can never sum to
/// more than the free room under the ceiling — in particular, starting from
/// a fresh counter, a set of concurrent `add`s whose successes sum to `S`
/// satisfies `S <= count_max`, regardless of scheduling.
pub proof fn lemma_no_overcommit(v: CounterModel, ops: Seq<Op>)
    requires
        wf_model(v),
        ops_enabled(v, ops),
    ensures
        net_gain(v, ops) <= v.count_max - aggregate(v),
        net_gain(v, ops) <= v.count_max,
{
    lemma_conservation(v, ops);
    lemma_aggregate_bounded(run_ops(v, ops));
    lemma_aggregate_bounded(v);
}

/// Registration symmetry: `register` followed immediately by `unregister`,
/// with nothing in between, restores the state exactly — in particular the
/// global `count` and `reserve` are unchanged from before registration.
pub proof fn lemma_register_unregister_symmetry(v: CounterModel, i: int)
    requires
        wf_model(v),
        valid_index(v, i),
        !v.slots[i].registered,
    ensures
        spec_unregister(spec_register(v, i), i) == v,
{
    lemma_register(v, i);
    let w = spec_register(v, i);
    lemma_unregister(w, i);
    assert(slot_inv(v.slots[i]));
    assert(spec_unregister(w, i).slots =~= v.slots);
    assert(spec_unregister(w, i) =~= v);
}

} // verus!
