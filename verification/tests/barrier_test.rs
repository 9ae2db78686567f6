use threadpools::barrier::BarrierState;

#[test]
fn last_of_all_participants_releases() {
    let mut b = BarrierState::for_pool(2);
    assert!(!b.is_complete());
    assert!(!b.arrive());
    assert!(!b.is_complete());
    assert!(!b.arrive());
    assert!(!b.is_complete());
    assert!(b.arrive());
    assert!(b.is_complete());
}

#[test]
fn pool_without_workers_releases_the_caller_at_once() {
    let mut b = BarrierState::for_pool(0);
    assert!(!b.is_complete());
    assert!(b.arrive());
    assert!(b.is_complete());
}

#[test]
fn thirty_two_workers_need_thirty_three_arrivals() {
    let mut b = BarrierState::for_pool(32);
    for _ in 0..32 {
        assert!(!b.arrive());
    }
    assert!(b.arrive());
    assert!(b.is_complete());
}
