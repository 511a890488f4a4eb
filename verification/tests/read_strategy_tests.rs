use count_lim::{
    add_count, count_register_thread, count_unregister_thread, ConsistencyModel, GlobalData,
};

#[test]
fn eventual_read_reflects_last_refresh() {
    let mut gd = GlobalData::new(100);
    count_register_thread(&mut gd, 0);
    assert!(add_count(&mut gd, 0, 5));
    // The cache starts at zero and only moves on refresh.
    assert_eq!(gd.read_eventual(), 0);
    gd.refresh_eventual();
    assert_eq!(gd.read_eventual(), 5);
    // A later fast-path add leaves the cache stale until the next refresh.
    assert!(add_count(&mut gd, 0, 2));
    assert_eq!(gd.read_eventual(), 5);
    assert_eq!(gd.read_count(), 7);
    gd.refresh_eventual();
    assert_eq!(gd.read_eventual(), 7);
}

#[test]
fn read_with_selects_strategy() {
    let mut gd = GlobalData::new(100);
    count_register_thread(&mut gd, 0);
    assert!(add_count(&mut gd, 0, 9));
    gd.refresh_eventual();
    assert!(add_count(&mut gd, 0, 1));
    assert_eq!(gd.read_with(ConsistencyModel::Exact), 10);
    assert_eq!(gd.read_with(ConsistencyModel::Eventual), 9);
    count_unregister_thread(&mut gd, 0);
    assert_eq!(gd.read_with(ConsistencyModel::Quiescent), 10);
    assert_eq!(gd.read_with(ConsistencyModel::Quiescent), gd.global_count());
}
