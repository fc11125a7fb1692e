use pd_guard::infra::rate_limit::RateLimiter;

#[test]
fn allows_up_to_rps() {
    let mut limiter = RateLimiter::new();
    assert!(limiter.check("sys", 3, 0).is_ok());
    assert!(limiter.check("sys", 3, 0).is_ok());
    assert!(limiter.check("sys", 3, 0).is_ok());
    assert!(limiter.check("sys", 3, 0).is_err());
}

#[test]
fn separate_buckets_per_system() {
    let mut limiter = RateLimiter::new();
    assert!(limiter.check("a", 1, 0).is_ok());
    assert!(limiter.check("a", 1, 0).is_err());
    assert!(limiter.check("b", 1, 0).is_ok());
}

#[test]
fn refills_with_time_and_reports_the_wait() {
    let mut limiter = RateLimiter::new();
    assert!(limiter.check("s", 2, 0).is_ok());
    assert!(limiter.check("s", 2, 0).is_ok());
    assert_eq!(limiter.check("s", 2, 100_000), Err(400_000));
    assert!(limiter.check("s", 2, 500_000).is_ok());
    assert!(limiter.check("s", 0, 500_000).is_ok());
}
