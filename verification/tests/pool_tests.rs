use netprobe::WorkerPool;

#[test]
fn pool_counts_slots() {
    let mut pool = WorkerPool::new(2);
    assert_eq!(pool.limit(), 2);
    assert_eq!(pool.in_flight(), 0);
    assert!(pool.try_acquire());
    assert_eq!(pool.in_flight(), 1);
    assert!(pool.try_acquire());
    assert_eq!(pool.in_flight(), 2);
    // The ceiling holds: a full pool refuses the acquire.
    assert!(!pool.try_acquire());
    assert_eq!(pool.in_flight(), 2);
    pool.release();
    assert_eq!(pool.in_flight(), 1);
    assert!(pool.try_acquire());
    assert_eq!(pool.in_flight(), 2);
}

#[test]
fn pool_never_exceeds_ceiling_under_arbitrary_schedules() {
    // An instrumented run: many acquire attempts and releases in a
    // scheduler-like interleaving; the count never passes the ceiling.
    let limit = 3;
    let mut pool = WorkerPool::new(limit);
    let mut max_seen = 0;
    let mut held = 0;
    for step in 0..1000 {
        let acquire = (step * 7 + step / 3) % 5 != 0;
        if acquire {
            if pool.try_acquire() {
                held += 1;
            }
        } else if held > 0 {
            pool.release();
            held -= 1;
        }
        if pool.in_flight() > max_seen {
            max_seen = pool.in_flight();
        }
        assert!(pool.in_flight() <= limit);
    }
    assert_eq!(max_seen, limit);
}

#[test]
fn zero_capacity_pool_admits_nothing() {
    let mut pool = WorkerPool::new(0);
    assert!(!pool.try_acquire());
    assert_eq!(pool.in_flight(), 0);
}
