use aether::rate_limit::RateLimiter;

const SECOND: u64 = 1_000_000_000;

#[test]
fn enforces_per_key_limit() {
    let mut limiter = RateLimiter::new(100, 1);
    assert!(limiter.check(Some("a"), 0));
    assert!(!limiter.check(Some("a"), 0));
    assert!(limiter.check(Some("b"), 0));
}

#[test]
fn a_window_restarts_after_a_minute() {
    let mut limiter = RateLimiter::new(100, 1);
    assert!(limiter.check(Some("a"), 5 * SECOND));
    assert!(!limiter.check(Some("a"), 64 * SECOND));
    assert!(limiter.check(Some("a"), 65 * SECOND));
    assert!(!limiter.check(Some("a"), 66 * SECOND));
}

#[test]
fn the_global_limit_comes_first() {
    let mut limiter = RateLimiter::new(2, 100);
    assert!(limiter.check(None, 0));
    assert!(limiter.check(Some("a"), 1));
    assert!(!limiter.check(Some("b"), 2));
    assert!(!limiter.check(None, 3));
}

#[test]
fn a_zero_limit_disables_limiting() {
    let mut limiter = RateLimiter::new(0, 0);
    for i in 0..1000u64 {
        assert!(limiter.check(Some("a"), i));
    }
}

#[test]
fn a_key_refusal_still_uses_a_global_slot() {
    let mut limiter = RateLimiter::new(2, 1);
    assert!(limiter.check(Some("a"), 0));
    assert!(!limiter.check(Some("a"), SECOND));
    assert!(!limiter.check(Some("b"), 2 * SECOND));
}

#[test]
fn within_a_minute_at_most_the_limit_passes() {
    let mut limiter = RateLimiter::new(3, 100);
    let passed = (0..10u64).filter(|i| limiter.check(None, i * SECOND)).count();
    assert_eq!(passed, 3);
}
