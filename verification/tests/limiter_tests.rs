use poe_watcher::limiter::RateLimiter;

#[test]
fn burst_of_ten_then_refusal() {
    let mut limiter = RateLimiter::new(10, 5, 0);
    for _ in 0..10 {
        assert!(limiter.try_acquire(0));
    }
    assert!(!limiter.try_acquire(0));
    assert_eq!(limiter.tokens_milli(), 0);
}

#[test]
fn tokens_never_exceed_the_burst_cap() {
    let mut limiter = RateLimiter::new(10, 5, 0);
    // a long idle period refills only to the cap
    assert!(limiter.try_acquire(1_000_000));
    assert_eq!(limiter.tokens_milli(), 9_000);
}

#[test]
fn refill_rate_is_five_per_second() {
    let mut limiter = RateLimiter::new(10, 5, 0);
    for _ in 0..10 {
        assert!(limiter.try_acquire(0));
    }
    assert_eq!(limiter.tokens_milli(), 0);
    // after one second, five tokens are back: five more requests pass
    for _ in 0..5 {
        assert!(limiter.try_acquire(1000));
    }
    assert!(!limiter.try_acquire(1000));
}

#[test]
fn wait_time_is_zero_when_a_token_is_present() {
    let limiter = RateLimiter::new(10, 5, 0);
    assert_eq!(limiter.time_until_available(), 0);
}

#[test]
fn wait_time_on_empty_bucket_is_deficit_over_rate() {
    let mut limiter = RateLimiter::new(10, 5, 0);
    for _ in 0..10 {
        assert!(limiter.try_acquire(0));
    }
    // no tokens left: one whole token takes 1000/5 = 200 ms to accrue
    assert_eq!(limiter.time_until_available(), 200);
    // and sleeping exactly that long makes the next acquire succeed
    assert!(limiter.try_acquire(200));
    assert!(!limiter.try_acquire(200));
}

#[test]
fn fractional_refill_accrues_exactly() {
    let mut limiter = RateLimiter::new(10, 5, 0);
    for _ in 0..10 {
        assert!(limiter.try_acquire(0));
    }
    // 100 ms at 5 tokens/s is half a token: not enough yet
    assert!(!limiter.try_acquire(100));
    assert_eq!(limiter.tokens_milli(), 500);
    assert_eq!(limiter.time_until_available(), 100);
}

#[test]
fn clock_going_backwards_credits_nothing() {
    let mut limiter = RateLimiter::new(10, 5, 1000);
    for _ in 0..10 {
        assert!(limiter.try_acquire(1000));
    }
    assert!(!limiter.try_acquire(500));
    assert_eq!(limiter.tokens_milli(), 0);
}
