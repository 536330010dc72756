use std::collections::HashSet;

use p2proxy::config::DestinationPeerEntry;
use p2proxy::route::{synthesize_circuit, Component, PeerKey, Route};
use p2proxy::selection::{candidate_routes, destination_peer_ids, last_p2p, partition_direct_first, ResolvedEntry, ResolvedRoutes};

fn random_peer() -> PeerKey {
    PeerKey::new(libp2p::identity::Keypair::generate_ed25519().public().to_peer_id().to_string())
}

fn addr(s: &str) -> Route {
    Route::parse(s).expect("addr")
}

fn set<T: std::hash::Hash + Eq>(v: Vec<T>) -> HashSet<T> {
    v.into_iter().collect()
}

fn candidate_routes_case() {
    let peer = random_peer();
    let verbatim = addr(&format!("/ip4/9.9.9.9/tcp/31515/p2p/{}", peer.id));
    let hub_route = addr(&format!("/dns4/hub.example.com/tcp/31515/p2p-circuit/p2p/{}", peer.id));
    let resolved = ResolvedRoutes { entries: vec![ResolvedEntry { peer: peer.clone(), routes: vec![hub_route.clone()] }] };

    let entry = DestinationPeerEntry { peer_id: peer, address: Some(verbatim.clone()) };
    assert_eq!(set(candidate_routes(&entry, &resolved)), set(vec![verbatim.clone(), hub_route]));

    let bare = DestinationPeerEntry { peer_id: random_peer(), address: None };
    assert!(candidate_routes(&bare, &resolved).is_empty(), "unresolved bare id has no routes");

    let verbatim_only = DestinationPeerEntry { peer_id: random_peer(), address: Some(verbatim.clone()) };
    assert_eq!(
        set(candidate_routes(&verbatim_only, &resolved)),
        set(vec![verbatim]),
        "verbatim address keeps an unresolved entry dialable"
    );
}

fn dial_set_case() {
    let relay = random_peer();
    let dest = random_peer();
    let direct_dest = random_peer();
    let circuit = addr(&format!("/dns4/hub.example.com/tcp/31515/p2p/{}/p2p-circuit/p2p/{}", relay.id, dest.id));
    let direct = addr(&format!("/ip4/9.9.9.9/tcp/31515/p2p/{}", direct_dest.id));
    let ids = set(destination_peer_ids(&vec![circuit, direct]));
    assert_eq!(ids, set(vec![dest, direct_dest]));
    assert!(!ids.contains(&relay), "relay must never enter the dial set");
}

fn tagging_case() {
    let peer = random_peer();
    let bare = addr("/ip4/203.0.113.7/udp/45445/quic-v1");
    assert!(destination_peer_ids(&vec![bare.clone()]).is_empty(), "a bare address yields no dial target — would never adopt");
    let tagged = bare.with_p2p(&peer).expect("append /p2p/");
    assert_eq!(
        set(destination_peer_ids(&vec![tagged])),
        set(vec![peer]),
        "tagging with the peer id makes the stored direct address dialable"
    );
}

#[test]
fn selection_candidate_routes_unions_resolved_and_verbatim() {
    candidate_routes_case();
}

#[test]
fn connect_candidate_routes_unions_resolved_and_verbatim() {
    candidate_routes_case();
}

#[test]
fn selection_dial_set_uses_last_p2p_component() {
    dial_set_case();
}

#[test]
fn connect_dial_set_uses_last_p2p_component() {
    dial_set_case();
}

#[test]
fn selection_bare_direct_address_must_be_tagged_with_peer_id() {
    tagging_case();
}

#[test]
fn connect_bare_direct_address_must_be_tagged_with_peer_id() {
    tagging_case();
}

#[test]
fn partition_keeps_direct_before_circuit() {
    let p = random_peer();
    let direct = addr(&format!("/ip4/9.9.9.9/tcp/443/p2p/{}", p.id));
    let circuit = addr(&format!("/dns4/h/tcp/1/p2p-circuit/p2p/{}", p.id));
    let (d, c) = partition_direct_first(vec![circuit.clone(), direct.clone()]);
    assert_eq!(d, vec![direct]);
    assert_eq!(c, vec![circuit]);
}

#[test]
fn synthesizes_circuit_through_relay() {
    let relay = addr("/dns4/boot.example.com/tcp/45445");
    let peer = random_peer();
    let circuit = synthesize_circuit(&relay, &peer).expect("circuit");
    assert!(circuit.components.iter().any(|p| matches!(p, Component::P2pCircuit)));
    assert_eq!(last_p2p(&circuit), Some(peer.clone()));
    assert_eq!(circuit.to_text(), format!("/dns4/boot.example.com/tcp/45445/p2p-circuit/p2p/{}", peer.id));
}

#[test]
fn with_p2p_refuses_another_peer() {
    let (a, b) = (random_peer(), random_peer());
    let tagged = addr(&format!("/ip4/1.2.3.4/tcp/1/p2p/{}", a.id));
    assert_eq!(tagged.clone().with_p2p(&a), Ok(tagged.clone()));
    assert_eq!(tagged.clone().with_p2p(&b), Err(tagged));
}

#[test]
fn parsed_route_renders_back_to_its_text() {
    let p = random_peer();
    let text = format!("/ip4/198.51.100.7/tcp/443/p2p/{}", p.id);
    let r = addr(&text);
    assert_eq!(r.to_text(), text);
    assert!(!r.is_relayed());
    assert!(Route::parse("not-an-address").is_err());
}
