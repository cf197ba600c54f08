use mast::rate_limit::RateLimiter;
use std::time::Duration;

#[test]
fn allows_up_to_the_limit_within_the_window() {
    let mut l = RateLimiter::new(Duration::from_nanos(10), 2);
    assert!(l.hit_at("k", 0));
    assert!(l.hit_at("k", 1));
    assert!(!l.hit_at("k", 2));
    assert!(!l.is_allowed_at("k", 9));
}

#[test]
fn old_hits_expire() {
    let mut l = RateLimiter::new(Duration::from_nanos(10), 2);
    assert!(l.hit_at("k", 0));
    assert!(l.hit_at("k", 1));
    assert!(!l.is_allowed_at("k", 9));
    assert!(l.is_allowed_at("k", 10));
    assert!(l.hit_at("k", 10));
    assert!(!l.hit_at("k", 10));
    assert!(l.hit_at("k", 20));
}

#[test]
fn refused_hits_do_not_extend_the_lockout() {
    let mut l = RateLimiter::new(Duration::from_nanos(10), 1);
    assert!(l.hit_at("k", 0));
    assert!(!l.hit_at("k", 5));
    assert!(!l.hit_at("k", 9));
    assert!(l.hit_at("k", 10));
}

#[test]
fn keys_are_counted_apart() {
    let mut l = RateLimiter::new(Duration::from_nanos(100), 1);
    assert!(l.hit_at("a", 0));
    assert!(l.hit_at("b", 0));
    assert!(!l.hit_at("a", 1));
    assert!(l.is_allowed_at("c", 1));
}

#[test]
fn reset_forgets_a_key() {
    let mut l = RateLimiter::new(Duration::from_nanos(100), 1);
    assert!(l.hit_at("a", 0));
    assert!(!l.is_allowed_at("a", 1));
    l.reset("a");
    assert!(l.is_allowed_at("a", 1));
    assert!(l.hit_at("a", 1));
}

#[test]
fn unknown_keys_are_allowed_even_at_zero() {
    let mut l = RateLimiter::new(Duration::from_secs(1), 0);
    assert!(l.is_allowed_at("x", 0));
    assert!(!l.hit_at("x", 0));
}

#[test]
fn the_clock_versions_agree() {
    let mut l = RateLimiter::new(Duration::from_secs(3600), 2);
    assert!(l.is_allowed("ip"));
    assert!(l.hit("ip"));
    assert!(l.hit("ip"));
    assert!(!l.is_allowed("ip"));
    assert!(!l.hit("ip"));
    l.reset("ip");
    assert!(l.hit("ip"));
}

#[test]
fn no_stretch_of_one_window_holds_more_than_the_limit() {
    let mut l = RateLimiter::new(Duration::from_nanos(10), 2);
    let times: [u128; 9] = [0, 3, 5, 9, 10, 12, 14, 19, 30];
    let mut allowed = Vec::new();
    for t in times {
        if l.hit_at("k", t) {
            allowed.push(t);
        }
    }
    assert_eq!(allowed, vec![0, 3, 10, 14, 30]);
    for from in 0..40u128 {
        let n = allowed.iter().filter(|t| from <= **t && **t < from + 10).count();
        assert!(n <= 2);
    }
}

#[test]
fn a_limiter_from_nanoseconds_keeps_its_window() {
    let mut l = RateLimiter::from_nanos(10, 1);
    assert!(l.hit_at("k", 0));
    assert!(!l.hit_at("k", 9));
    assert!(l.hit_at("k", 10));
    let mut live = RateLimiter::from_nanos(Duration::from_secs(3600).as_nanos(), 2);
    assert!(live.hit("a"));
    assert!(live.hit("a"));
    assert!(!live.hit("a"));
    assert!(live.hit("b"));
}
