use divar_scraper::clock::{backoff_delay, backoff_with_jitter, nanos_of, seconds_of};
use divar_scraper::throttle::Throttle;
use std::time::Duration;

/// A retry sweep must not re-run at the pace that caused the failures.
#[test]
fn retry_sweeps_start_slower_each_pass() {
    let mut t = Throttle::new(400, 8000);
    t.slow_start(1);
    assert_eq!(t.current(), 800);
    t.slow_start(2);
    assert_eq!(t.current(), 3200);
    for p in 1..=9 {
        t.slow_start(p);
        assert!(t.current() <= 8000, "must stay under the ceiling");
    }
}

#[test]
fn backoff_grows_and_stays_bounded() {
    assert!(backoff_delay(1000, 1) >= Duration::from_millis(2000));
    assert!(backoff_delay(1000, 3) >= Duration::from_millis(8000));
    assert!(backoff_delay(1000, 50) <= Duration::from_millis(120_000));
}

#[test]
fn throttle_backs_off_on_429_and_is_capped() {
    let mut t = Throttle::new(400, 2000);
    t.penalize();
    assert_eq!(t.current(), 600);
    for _ in 0..20 {
        t.penalize();
    }
    assert_eq!(t.current(), 2000, "must not exceed the ceiling");
}

#[test]
fn jitter_is_at_most_a_quarter() {
    assert_eq!(backoff_with_jitter(1000, 1, 0), 2000);
    assert_eq!(backoff_with_jitter(1000, 1, 500), 2500);
    assert_eq!(backoff_with_jitter(1000, 1, 501), 2000);
    assert_eq!(backoff_with_jitter(1000, 6, 999_999_999), 64_000 + 999_999_999 % 16_001);
    assert_eq!(backoff_with_jitter(1000, 7, 7), backoff_with_jitter(1000, 6, 7));
    assert_eq!(backoff_with_jitter(1500, 9, 0), 96_000);
    assert_eq!(backoff_with_jitter(10_000, 5, 3), 120_000);
}

#[test]
fn the_clock_is_read_in_parts() {
    let reading = || Ok(Duration::from_millis(12_345));
    assert_eq!(seconds_of(reading()), 12);
    assert_eq!(nanos_of(reading()), 345_000_000);
}

#[test]
fn a_ceiling_of_the_backoff_is_exact() {
    assert_eq!(backoff_delay(10_000, 5), Duration::from_millis(120_000));
    assert_eq!(backoff_delay(0, 5), Duration::from_millis(0));
}

#[test]
fn success_is_counted_before_the_pace_quickens() {
    let mut t = Throttle::new(100, 2000);
    for _ in 0..49 {
        t.relax();
    }
    assert_eq!(t.current(), 100);
    t.relax();
    assert_eq!(t.current(), 90);
    let mut t = Throttle::new(10, 2000);
    for _ in 0..50 {
        t.relax();
    }
    assert_eq!(t.current(), 50, "never below 50");
    t.penalize();
    assert_eq!((t.current(), t.ok_streak), (75, 0));
    let mut t = Throttle::new(5, 2000);
    t.penalize();
    assert_eq!(t.current(), 50);
    t.slow_start(0);
    assert_eq!(t.current(), 50);
    t.slow_start(4);
    assert_eq!(t.current(), 800);
    t.slow_start(u32::MAX);
    assert_eq!(t.current(), 2000);
    let mut t = Throttle::new(100, 8000);
    t.slow_start(4);
    assert_eq!(t.current(), 1600, "two to the fourth");
    let mut t = Throttle::new(0, 8000);
    t.slow_start(u32::MAX);
    assert_eq!(t.current(), 0);
    let mut t = Throttle::new(u64::MAX, u64::MAX);
    t.slow_start(3);
    assert_eq!(t.current(), u64::MAX);
    let mut t = Throttle::new(9000, 8000);
    t.slow_start(0);
    assert_eq!(t.current(), 8000);
    let mut t = Throttle::new(20, 40);
    t.penalize();
    assert_eq!(t.current(), 30);
    t.penalize();
    assert_eq!(t.current(), 40);
}
