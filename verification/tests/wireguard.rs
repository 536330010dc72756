use p2proxy::wireguard::{session_expired, validate_packet_size, RateLimiter, WireguardError};
use p2proxy::wireguard::admit_session;

#[test]
fn short_packets_of_known_types_are_refused() {
    assert!(matches!(validate_packet_size(1, 147), Err(WireguardError::InvalidPacketSize { msg_type: 1, size: 147 })));
    assert!(validate_packet_size(1, 148).is_ok());
    assert!(validate_packet_size(2, 91).is_err());
    assert!(validate_packet_size(2, 92).is_ok());
    assert!(validate_packet_size(3, 63).is_err());
    assert!(validate_packet_size(3, 64).is_ok());
    assert!(validate_packet_size(4, 31).is_err());
    assert!(validate_packet_size(4, 32).is_ok());
    assert!(validate_packet_size(9, 0).is_ok(), "unknown types pass unchecked");
    assert_eq!(
        WireguardError::InvalidPacketSize { msg_type: 4, size: 3 }.message(),
        "Invalid packet size 3 for message type 4"
    );
    assert_eq!(WireguardError::MaxSessionsReached(10000).message(), "Maximum session limit (10000) reached");
}

#[test]
fn the_bucket_empties_and_refills_with_time() {
    let mut r = RateLimiter::new(2, 0);
    assert!(r.try_acquire(10));
    assert!(r.try_acquire(20));
    assert!(!r.try_acquire(50), "empty, and too soon to refill");
    assert!(r.try_acquire(101), "a hundred milliseconds refill a hundred tokens");
}

#[test]
fn the_bucket_never_holds_more_than_a_second() {
    let mut r = RateLimiter::new(0, 0);
    let mut granted = 0;
    assert!(r.try_acquire(60_000));
    granted += 1;
    while r.try_acquire(60_000) {
        granted += 1;
    }
    assert_eq!(granted, 1000);
}

#[test]
fn sessions_expire_after_ninety_idle_seconds() {
    assert!(!session_expired(0, 90_000));
    assert!(session_expired(0, 90_001));
    assert!(!session_expired(5, 1));
}

#[test]
fn sessions_are_capped_per_server() {
    assert!(admit_session(9_999).is_ok());
    assert!(matches!(admit_session(10_000), Err(WireguardError::MaxSessionsReached(10_000))));
}

#[test]
fn a_long_idle_refills_a_full_bucket() {
    let mut r = RateLimiter::new(0, 0);
    let idle: u64 = 4_294_968;
    for _ in 0..1000 {
        assert!(r.try_acquire(idle));
    }
    assert!(!r.try_acquire(idle));
}
