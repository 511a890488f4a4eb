use count_lim::{
    add_count, count_register_thread, count_unregister_thread, sub_count, GlobalData, THREADS_MAX,
};

#[test]
fn default_ceiling() {
    let gd = GlobalData::default();
    assert_eq!(gd.count_ceiling(), 10000);
    assert_eq!(gd.read_count(), 0);
    assert_eq!(gd.global_count(), 0);
    assert_eq!(gd.reserve_total(), 0);
    assert_eq!(gd.active_count(), 0);
}

#[test]
fn register_unregister_symmetry() {
    let mut gd = GlobalData::new(1000);
    let count_before = gd.global_count();
    let reserve_before = gd.reserve_total();
    let active_before = gd.active_count();
    let total_before = gd.read_count();

    count_register_thread(&mut gd, 3);
    assert_eq!(gd.active_count(), active_before + 1);
    assert!(gd.thread_registered(3));

    count_unregister_thread(&mut gd, 3);
    assert_eq!(gd.global_count(), count_before);
    assert_eq!(gd.reserve_total(), reserve_before);
    assert_eq!(gd.active_count(), active_before);
    assert_eq!(gd.read_count(), total_before);
    assert!(!gd.thread_registered(3));
}

#[test]
fn slow_path_balance_values() {
    let mut gd = GlobalData::new(110);
    count_register_thread(&mut gd, 0);
    assert!(add_count(&mut gd, 0, 10));
    // The slow path commits the delta, then grants the lone thread the whole
    // remaining capacity as quota and pre-draws min(quota / 2, count).
    assert_eq!(gd.slot_limit(0), 100);
    assert_eq!(gd.slot_used(0), 10);
    assert_eq!(gd.global_count(), 0);
    assert_eq!(gd.reserve_total(), 100);
    assert_eq!(gd.read_count(), 10);
}

#[test]
fn fast_path_add_and_sub() {
    let mut gd = GlobalData::new(110);
    count_register_thread(&mut gd, 0);
    assert!(add_count(&mut gd, 0, 10));
    let reserve = gd.reserve_total();
    let count = gd.global_count();
    assert!(add_count(&mut gd, 0, 30));
    // Fast path: only the slot's `used` moves.
    assert_eq!(gd.slot_used(0), 40);
    assert_eq!(gd.reserve_total(), reserve);
    assert_eq!(gd.global_count(), count);
    assert_eq!(gd.read_count(), 40);
    assert!(sub_count(&mut gd, 0, 15));
    assert_eq!(gd.slot_used(0), 25);
    assert_eq!(gd.read_count(), 25);
}

#[test]
fn exact_read_bounds_concurrent_add() {
    // A thread holding limit = 100, used = 40 performs add(10); an exact
    // read observes either the state before or after the atomic fast-path
    // step, so the observed sum lies within [previous_total, previous_total
    // + 10].
    let mut gd = GlobalData::new(110);
    count_register_thread(&mut gd, 0);
    assert!(add_count(&mut gd, 0, 10));
    assert!(add_count(&mut gd, 0, 30));
    assert_eq!(gd.slot_limit(0), 100);
    assert_eq!(gd.slot_used(0), 40);
    let previous_total = gd.read_count();
    assert_eq!(previous_total, 40);
    assert!(add_count(&mut gd, 0, 10));
    let observed = gd.read_count();
    assert!(previous_total <= observed);
    assert!(observed <= previous_total + 10);
    assert_eq!(observed, 50);
}

#[test]
fn add_over_ceiling_fails() {
    let mut gd = GlobalData::new(10000);
    count_register_thread(&mut gd, 0);
    assert!(!add_count(&mut gd, 0, 10001));
    assert_eq!(gd.global_count(), 0);
    assert_eq!(gd.read_count(), 0);
    // The counter still works afterwards.
    assert!(add_count(&mut gd, 0, 10000));
    assert_eq!(gd.read_count(), 10000);
    assert!(!add_count(&mut gd, 0, 1));
    assert_eq!(gd.read_count(), 10000);
}

#[test]
fn sub_underflow_fails() {
    let mut gd = GlobalData::new(100);
    count_register_thread(&mut gd, 0);
    assert!(!sub_count(&mut gd, 0, 1));
    assert_eq!(gd.read_count(), 0);
    assert!(add_count(&mut gd, 0, 5));
    assert!(sub_count(&mut gd, 0, 3));
    assert_eq!(gd.read_count(), 2);
    assert!(!sub_count(&mut gd, 0, 5));
    assert_eq!(gd.read_count(), 2);
    assert!(sub_count(&mut gd, 0, 2));
    assert_eq!(gd.read_count(), 0);
}

#[test]
fn quota_scenario_32_threads() {
    // 32 threads, interleaved round-robin, each admitting 1 a hundred times
    // under a ceiling of 10000; afterwards every thread deregisters and the
    // quiescent read is exactly 3200.
    let mut gd = GlobalData::default();
    for i in 0..THREADS_MAX {
        count_register_thread(&mut gd, i);
    }
    assert_eq!(gd.active_count(), THREADS_MAX);
    for _round in 0..100 {
        for i in 0..THREADS_MAX {
            assert!(add_count(&mut gd, i, 1));
        }
        assert!(gd.read_count() <= 10000);
    }
    for i in 0..THREADS_MAX {
        count_unregister_thread(&mut gd, i);
    }
    assert_eq!(gd.active_count(), 0);
    assert_eq!(gd.read_quiescent(), 3200);
    assert_eq!(gd.read_count(), 3200);
}

#[test]
fn conservation_mixed_operations() {
    let mut gd = GlobalData::new(500);
    count_register_thread(&mut gd, 0);
    count_register_thread(&mut gd, 1);
    assert!(add_count(&mut gd, 0, 100));
    assert!(add_count(&mut gd, 1, 50));
    assert!(sub_count(&mut gd, 0, 30));
    // Thread 1 can only return what the pool and its own slot hold: its slot
    // has 50 drawn and the global count is 0 after the balances above took
    // the committed amounts back out, so returning 60 underflows.
    assert!(!sub_count(&mut gd, 1, 60));
    assert_eq!(gd.read_count(), 120);
    assert!(sub_count(&mut gd, 1, 20));
    count_unregister_thread(&mut gd, 0);
    count_unregister_thread(&mut gd, 1);
    // Net of the successful operations: 100 + 50 - 30 - 20.
    assert_eq!(gd.read_quiescent(), 100);
}

#[test]
fn zero_delta_always_succeeds() {
    let mut gd = GlobalData::new(0);
    count_register_thread(&mut gd, 0);
    // A zero delta always fits in the local quota, even under a zero
    // ceiling, and moves nothing.
    assert!(add_count(&mut gd, 0, 0));
    assert!(sub_count(&mut gd, 0, 0));
    assert_eq!(gd.read_count(), 0);
    assert!(!add_count(&mut gd, 0, 1));
}

#[test]
fn oversized_delta_fails_cleanly() {
    let mut gd = GlobalData::new(10);
    count_register_thread(&mut gd, 0);
    assert!(!add_count(&mut gd, 0, usize::MAX));
    assert_eq!(gd.read_count(), 0);
    assert!(add_count(&mut gd, 0, 10));
    assert!(!sub_count(&mut gd, 0, usize::MAX));
    assert_eq!(gd.read_count(), 10);
}

#[test]
fn register_to_capacity_and_back() {
    let mut gd = GlobalData::new(320);
    for i in 0..THREADS_MAX {
        assert!(!gd.thread_registered(i));
        count_register_thread(&mut gd, i);
        assert!(gd.thread_registered(i));
    }
    assert_eq!(gd.active_count(), THREADS_MAX);
    for i in 0..THREADS_MAX {
        assert!(add_count(&mut gd, i, 1));
    }
    assert_eq!(gd.read_count(), THREADS_MAX);
    for i in 0..THREADS_MAX {
        count_unregister_thread(&mut gd, i);
    }
    assert_eq!(gd.active_count(), 0);
    assert_eq!(gd.read_quiescent(), THREADS_MAX);
}
