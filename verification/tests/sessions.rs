use p2proxy::route::PeerKey;
use p2proxy::sessions::SessionTable;
use p2proxy::wireguard::{WireguardError, DEFAULT_SESSION_TIMEOUT_MS, MAX_PACKETS_PER_SEC_PER_CLIENT};

fn client(s: &str) -> String {
    s.to_string()
}

fn peer() -> PeerKey {
    PeerKey::new("12D3KooWExit".to_string())
}

#[test]
fn unknown_client_has_no_live_session() {
    let mut t = SessionTable::new();
    assert_eq!(t.touch_live(&client("10.0.0.1:51820"), 0), None);
    assert_eq!(t.len(), 0);
}

#[test]
fn installed_session_is_found_until_it_expires() {
    let mut t = SessionTable::new();
    let c = client("10.0.0.1:51820");
    assert_eq!(t.install(&c, 7, peer(), 1_000), 7);
    assert_eq!(t.len(), 1);
    assert_eq!(t.touch_live(&c, 1_000 + DEFAULT_SESSION_TIMEOUT_MS), Some(7));
    let later = 1_000 + 2 * DEFAULT_SESSION_TIMEOUT_MS + 1;
    assert_eq!(t.touch_live(&c, later), None);
}

#[test]
fn install_keeps_a_live_session_and_replaces_an_expired_one() {
    let mut t = SessionTable::new();
    let c = client("10.0.0.2:51820");
    t.install(&c, 1, peer(), 0);
    assert_eq!(t.install(&c, 2, peer(), 10), 1);
    let later = 10 + DEFAULT_SESSION_TIMEOUT_MS + 1;
    assert_eq!(t.install(&c, 3, peer(), later), 3);
    assert_eq!(t.len(), 1);
}

#[test]
fn packets_without_session_are_refused() {
    let mut t = SessionTable::new();
    match t.admit_packet(&client("10.0.0.3:1"), 0) {
        Err(WireguardError::SessionNotFound(a)) => assert_eq!(a, "10.0.0.3:1"),
        other => panic!("unexpected {other:?}"),
    }
}

#[test]
fn budget_runs_out_then_refills() {
    let mut t = SessionTable::new();
    let c = client("10.0.0.4:1");
    t.install(&c, 9, peer(), 0);
    for _ in 0..MAX_PACKETS_PER_SEC_PER_CLIENT {
        assert_eq!(t.admit_packet(&c, 0).unwrap(), 9);
    }
    match t.admit_packet(&c, 0) {
        Err(WireguardError::RateLimitExceeded(a)) => assert_eq!(a, c),
        other => panic!("unexpected {other:?}"),
    }
    assert_eq!(t.admit_packet(&c, 100).unwrap(), 9);
}

#[test]
fn close_hands_back_peer_and_byte_counts() {
    let mut t = SessionTable::new();
    let c = client("10.0.0.5:1");
    t.install(&c, 4, peer(), 0);
    t.add_outgoing(&c, 1400);
    t.add_outgoing(&c, 100);
    let (p, incoming, outgoing) = t.close(&c).unwrap();
    assert_eq!(p, peer());
    assert_eq!(incoming, 0);
    assert_eq!(outgoing, 1500);
    assert!(t.close(&c).is_none());
    assert_eq!(t.len(), 0);
}

#[test]
fn expired_lists_only_idle_clients() {
    let mut t = SessionTable::new();
    t.install(&client("a"), 1, peer(), 0);
    t.install(&client("b"), 2, peer(), 50_000);
    let v = t.expired(95_000);
    assert_eq!(v, vec!["a".to_string()]);
    assert!(t.expired(10).is_empty());
}
