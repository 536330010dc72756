use std::time::Duration;

use p2proxy::backoff::Backoff;

#[test]
fn grows_exponentially_and_caps() {
    let mut b = Backoff::new(Duration::from_secs(1), 2, Duration::from_secs(8));
    let seq: Vec<u64> = (0..6).map(|_| b.next_delay().as_secs()).collect();
    assert_eq!(seq, vec![1, 2, 4, 8, 8, 8]);
}

#[test]
fn reset_returns_to_initial() {
    let mut b = Backoff::new(Duration::from_secs(1), 2, Duration::from_secs(8));
    b.next_delay();
    b.next_delay();
    b.reset();
    assert_eq!(b.next_delay(), Duration::from_secs(1));
}

#[test]
fn factor_zero_is_treated_as_one() {
    let mut b = Backoff::new(Duration::from_millis(500), 0, Duration::from_secs(8));
    assert_eq!(b.next_delay(), Duration::from_millis(500));
    assert_eq!(b.next_delay(), Duration::from_millis(500));
}

#[test]
fn schedule_in_nanoseconds_matches_duration_schedule() {
    let mut b = Backoff::from_nanos(1_000_000_000, 2, 8_000_000_000);
    assert_eq!(b.next_delay(), Duration::from_secs(1));
    assert_eq!(b.next_delay(), Duration::from_secs(2));
    assert_eq!(b.next_delay(), Duration::from_secs(4));
}

#[test]
fn saturates_instead_of_overflowing() {
    let mut b = Backoff::new(Duration::MAX, 3, Duration::MAX);
    assert_eq!(b.next_delay(), Duration::MAX);
    assert_eq!(b.next_delay(), Duration::MAX);
}
