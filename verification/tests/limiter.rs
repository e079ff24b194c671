use network_scanner::limiter::Limiter;

#[test]
fn a_new_limiter_holds_nothing() {
    let limiter = Limiter::new(3);
    assert_eq!(limiter.capacity(), 3);
    assert_eq!(limiter.active(), 0);
}

#[test]
fn slots_are_granted_up_to_the_capacity() {
    let mut limiter = Limiter::new(2);
    assert!(limiter.try_acquire());
    assert_eq!(limiter.active(), 1);
    assert!(limiter.try_acquire());
    assert_eq!(limiter.active(), 2);
    assert!(!limiter.try_acquire());
    assert!(!limiter.try_acquire());
    assert_eq!(limiter.active(), 2);
    assert_eq!(limiter.capacity(), 2);
}

#[test]
fn a_release_frees_one_slot() {
    let mut limiter = Limiter::new(2);
    assert!(limiter.try_acquire());
    assert!(limiter.try_acquire());
    limiter.release();
    assert_eq!(limiter.active(), 1);
    assert!(limiter.try_acquire());
    assert!(!limiter.try_acquire());
    limiter.release();
    limiter.release();
    assert_eq!(limiter.active(), 0);
}

#[test]
fn a_limiter_of_one_lets_one_caller_through_at_a_time() {
    let mut limiter = Limiter::new(1);
    for _ in 0..5 {
        assert!(limiter.try_acquire());
        assert!(!limiter.try_acquire());
        limiter.release();
    }
    assert_eq!(limiter.active(), 0);
}
