use p2proxy::network::{bootstrap_retry, circuit_listen_addresses, MAX_BOOTSTRAP_RETRIES};
use p2proxy::network::{find_nodes_limit, listen_addresses, NetworkState, ProxyNetwork};
use p2proxy::route::{PeerKey, Route};
use p2proxy::errors::DirectoryError;
use p2proxy::events::PoolPeer;
use p2proxy::network::{find_answer, resolve_answer, HubAnswer};

fn key(s: &str) -> PeerKey {
    PeerKey::new(s.to_string())
}

fn peer() -> PeerKey {
    PeerKey::new(libp2p::identity::Keypair::generate_ed25519().public().to_peer_id().to_string())
}

fn route_to(p: &PeerKey) -> Route {
    Route::parse(&format!("/ip4/198.51.100.7/tcp/443/p2p/{}", p.id)).expect("addr")
}

#[test]
fn a_dial_without_candidates_is_answered_at_once() {
    let mut s = NetworkState::new();
    let bare = Route::parse("/ip4/1.2.3.4/tcp/1").expect("addr");
    assert!(!s.start_dial(1, &vec![bare], 10_000));
}

#[test]
fn a_connection_answers_the_dials_that_list_it() {
    let (a, b) = (peer(), peer());
    let mut s = NetworkState::new();
    assert!(s.start_dial(1, &vec![route_to(&a)], 10_000));
    assert!(s.start_dial(2, &vec![route_to(&b)], 10_000));
    assert!(s.start_dial(3, &vec![route_to(&a), route_to(&b)], 10_000));
    let (answered, direct) = s.on_connection_established(&a, false, false);
    assert_eq!(answered, vec![1, 3]);
    assert!(direct, "a direct link to a non-hub peer is reported");
    assert_eq!(s.complete_pending_dials(&a), Vec::<u64>::new(), "answered once");
    assert_eq!(s.complete_pending_dials(&b), vec![2]);
}

#[test]
fn deadlines_expire_pending_dials() {
    let a = peer();
    let mut s = NetworkState::new();
    s.start_dial(1, &vec![route_to(&a)], 0);
    s.start_dial(2, &vec![route_to(&a)], 5_000);
    assert_eq!(s.expire_dials(9_999), Vec::<u64>::new());
    assert_eq!(s.expire_dials(10_000), vec![1]);
    assert_eq!(s.expire_dials(14_999), Vec::<u64>::new());
    assert_eq!(s.expire_dials(20_000), vec![2]);
}

#[test]
fn a_dial_made_at_the_end_of_the_clock_expires_there() {
    let a = peer();
    let mut s = NetworkState::new();
    s.start_dial(1, &vec![route_to(&a)], u64::MAX - 5);
    assert_eq!(s.expire_dials(u64::MAX - 1), Vec::<u64>::new());
    assert_eq!(s.expire_dials(u64::MAX), vec![1]);
}

#[test]
fn the_third_consecutive_ping_failure_disconnects() {
    let p = key("peer");
    let mut s = NetworkState::new();
    assert!(!s.on_ping_failure(&p));
    assert!(!s.on_ping_failure(&p));
    assert!(s.on_ping_failure(&p));
    assert!(!s.on_ping_failure(&p), "the count starts over");
}

#[test]
fn a_successful_ping_forgives_earlier_failures() {
    let (p, q) = (key("p"), key("q"));
    let mut s = NetworkState::new();
    assert!(!s.on_ping_failure(&p));
    assert!(!s.on_ping_failure(&p));
    assert!(!s.on_ping_failure(&q));
    s.on_ping_success(&p);
    assert!(!s.on_ping_failure(&p));
    assert!(!s.on_ping_failure(&p));
    s.on_connection_closed(&q, false);
    assert!(!s.on_ping_failure(&q));
}

#[test]
fn bootstrap_is_redialed_only_when_down_and_idle() {
    let hub = key("hub");
    let mut s = NetworkState::new();
    assert!(!s.try_dial_bootstrap(), "presumed up at start");
    s.on_connection_closed(&hub, true);
    assert!(s.try_dial_bootstrap());
    s.bootstrap_dial_started();
    assert!(!s.try_dial_bootstrap(), "already dialing");
    s.on_outgoing_error(true);
    assert!(s.try_dial_bootstrap());
    let (_, direct) = s.on_connection_established(&hub, false, true);
    assert!(!direct, "the hub is never promoted");
    assert!(!s.try_dial_bootstrap());
}

#[test]
fn find_nodes_limit_fits_the_wire_field() {
    assert_eq!(find_nodes_limit(25), 25);
    assert_eq!(find_nodes_limit(70_000), 65_535);
}

#[test]
fn proxy_network_hands_out_bootstrap_and_engine() {
    let relay = Route::parse("/dns4/boot.example.com/tcp/45445").expect("addr");
    let boot = Route::parse("/dns4/boot2.example.com/tcp/45445").expect("addr");
    let mut n = ProxyNetwork::new(relay.clone(), key("hub"), "tok".into(), true, boot.clone());
    assert_eq!(n.try_dial_bootstrap(), Some(&boot));
    n.bootstrap_dial_result(true);
    assert_eq!(n.try_dial_bootstrap(), None);
    n.bootstrap_link(true);
    assert_eq!(n.try_dial_bootstrap(), None);
    n.bootstrap_link(false);
    assert_eq!(n.try_dial_bootstrap(), Some(&boot));
    let e = n.discovery_engine();
    assert_eq!(e.relay_address, &relay);
    assert_eq!(e.token, "tok");
    assert!(e.headless);
}

#[test]
fn hub_answers_map_to_directory_outcomes() {
    let p = peer();
    let nodes = vec![PoolPeer { peer_id: p.clone(), addresses: vec![route_to(&p)] }];
    let resolved = resolve_answer(HubAnswer::Nodes(nodes.clone())).expect("routes");
    assert_eq!(resolved.entries.len(), 1);
    assert_eq!(resolved.entries[0].peer, p);
    assert_eq!(resolved.entries[0].routes, vec![route_to(&p)]);
    assert!(matches!(resolve_answer(HubAnswer::Error("old hub".into())), Err(DirectoryError::Unsupported(m)) if m == "old hub"));
    assert!(matches!(resolve_answer(HubAnswer::SingleNode), Err(DirectoryError::Rejected(m)) if m == "expected FindNodes"));
    assert!(matches!(resolve_answer(HubAnswer::Failed("t".into())), Err(DirectoryError::Unsupported(_))));
    assert!(matches!(resolve_answer(HubAnswer::SigningFailed("k".into())), Err(DirectoryError::Unsupported(m)) if m == "failed to sign request: k"));
    assert_eq!(find_answer(HubAnswer::Nodes(nodes)).expect("pool").len(), 1);
    assert!(matches!(find_answer(HubAnswer::Error("no".into())), Err(DirectoryError::Rejected(m)) if m == "no"));
    assert!(matches!(find_answer(HubAnswer::Failed("t".into())), Err(DirectoryError::Timeout)));
    assert!(matches!(find_answer(HubAnswer::SigningFailed("k".into())), Err(DirectoryError::Rejected(m)) if m == "failed to sign request: k"));
}

#[test]
fn listen_addresses_cover_tcp_and_quic_on_both_families() {
    let v = listen_addresses(45445);
    let texts: Vec<String> = v.iter().map(|r| r.to_text()).collect();
    assert_eq!(
        texts,
        vec![
            "/ip4/0.0.0.0/tcp/45445",
            "/ip4/0.0.0.0/udp/45445/quic-v1",
            "/ip6/::/tcp/45445",
            "/ip6/::/udp/45445/quic-v1",
        ]
    );
    for (r, t) in v.iter().zip(texts.iter()) {
        assert_eq!(&Route::parse(t).expect("libp2p parses it"), r);
    }
}

#[test]
fn bootstrap_retries_ten_times_then_gives_up() {
    assert_eq!(bootstrap_retry(0), Some(1));
    assert_eq!(bootstrap_retry(9), Some(10));
    assert_eq!(bootstrap_retry(MAX_BOOTSTRAP_RETRIES), None);
    let mut retries = 0;
    let mut attempts = 1;
    while let Some(n) = bootstrap_retry(retries) {
        retries = n;
        attempts += 1;
    }
    assert_eq!(attempts, 11);
}

#[test]
fn hub_addresses_become_circuit_listen_addresses() {
    let hub = peer();
    let me = peer();
    let other = peer();
    let bare = Route::parse("/ip4/203.0.113.5/tcp/4001").expect("addr");
    let named = route_to(&hub);
    let foreign = route_to(&other);
    let v = circuit_listen_addresses(&vec![bare, foreign, named], &hub, &me);
    let texts: Vec<String> = v.iter().map(|r| r.to_text()).collect();
    assert_eq!(
        texts,
        vec![
            format!("/ip4/203.0.113.5/tcp/4001/p2p/{}/p2p-circuit/p2p/{}", hub.id, me.id),
            format!("/ip4/198.51.100.7/tcp/443/p2p/{}/p2p-circuit/p2p/{}", hub.id, me.id),
        ]
    );
}

#[test]
fn a_dial_waits_through_other_peers_and_is_answered_once() {
    let (hub, a, b) = (peer(), peer(), peer());
    let mut s = NetworkState::new();
    assert!(s.start_dial(1, &vec![route_to(&a)], 0));
    assert!(s.start_dial(2, &vec![route_to(&b)], 0));
    assert_eq!(s.complete_pending_dials(&hub), Vec::<u64>::new(), "the hub answers nothing");
    assert_eq!(s.complete_pending_dials(&a), vec![1]);
    assert_eq!(s.expire_dials(10_000), vec![2]);
    assert_eq!(s.complete_pending_dials(&b), Vec::<u64>::new(), "too late for dial 2");
    assert_eq!(s.expire_dials(u64::MAX), Vec::<u64>::new());
}
