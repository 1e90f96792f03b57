use page_cache::guard::RegenerationGuard;

#[test]
fn burst_of_attempts_grants_one_holder() {
    let mut g = RegenerationGuard::new();
    let outcomes: Vec<bool> = (0..10).map(|_| g.try_acquire()).collect();
    assert_eq!(outcomes.iter().filter(|held| **held).count(), 1);
    assert!(outcomes[0]);
}

#[test]
fn release_lets_next_attempt_hold() {
    let mut g = RegenerationGuard::new();
    assert!(g.try_acquire());
    assert!(!g.try_acquire());
    g.release();
    assert!(g.try_acquire());
}
