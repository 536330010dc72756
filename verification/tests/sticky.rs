use p2proxy::events::PoolPeer;
use p2proxy::route::{PeerKey, Route};
use p2proxy::sticky::{loaded_pools, migrate_v1, store_format, StickyEntryV1, StickyState, StoreContents, StoreFormat};

fn random_peer() -> PeerKey {
    PeerKey::new(libp2p::identity::Keypair::generate_ed25519().public().to_peer_id().to_string())
}

fn addr(p: &PeerKey) -> Route {
    Route::parse(&format!("/ip4/198.51.100.1/tcp/443/p2p/{}", p.id)).expect("addr")
}

#[test]
fn pool_is_empty_when_unknown() {
    let mut s = StickyState::default();
    assert!(s.pool(1080, "fp").is_empty());
}

#[test]
fn remember_keeps_mru_first_and_caps() {
    let mut s = StickyState::default();
    let peers: Vec<PeerKey> = (0..4).map(|_| random_peer()).collect();
    for p in &peers {
        s.remember(1080, "fp", p.clone(), 3);
    }
    assert_eq!(s.pool(1080, "fp"), vec![peers[3].clone(), peers[2].clone(), peers[1].clone()]);
}

#[test]
fn sticky_re_remembering_promotes_without_duplicating() {
    let mut s = StickyState::default();
    let (a, b) = (random_peer(), random_peer());
    s.remember(1080, "fp", a.clone(), 5);
    s.remember(1080, "fp", b.clone(), 5);
    assert!(s.remember(1080, "fp", a.clone(), 5));
    assert_eq!(s.pool(1080, "fp"), vec![a.clone(), b]);
    assert!(!s.remember(1080, "fp", a, 5));
}

#[test]
fn sticky_fingerprint_mismatch_drops_whole_pool() {
    let mut s = StickyState::default();
    s.remember(1080, "fp-NL", random_peer(), 5);
    assert!(s.pool(1080, "fp-RU").is_empty());
    assert!(s.pool(1080, "fp-NL").is_empty(), "invalidation is sticky");
}

#[test]
fn forget_removes_one_keeps_rest() {
    let mut s = StickyState::default();
    let (a, b) = (random_peer(), random_peer());
    s.remember(1080, "fp", a.clone(), 5);
    s.remember(1080, "fp", b.clone(), 5);
    s.forget_peer(1080, &b);
    assert_eq!(s.pool(1080, "fp"), vec![a]);
}

#[test]
fn forgetting_the_last_member_drops_the_pool() {
    let mut s = StickyState::default();
    let a = random_peer();
    s.remember(1080, "fp", a.clone(), 5);
    s.forget_peer(1080, &a);
    assert!(s.pools().is_empty());
}

#[test]
fn note_direct_address_updates_existing_but_never_adds() {
    let mut s = StickyState::default();
    let p = random_peer();
    let hub = random_peer();
    s.remember(1080, "fp", p.clone(), 5);

    s.note_direct_address(&p, &addr(&p));
    assert_eq!(s.direct_address(1080, &p), Some(addr(&p)));

    s.note_direct_address(&hub, &addr(&hub));
    assert!(!s.pool(1080, "fp").contains(&hub), "non-exit never added");
}

#[test]
fn promote_connected_fills_with_addresses_and_evicts_relay_only_standbys() {
    let fp = "v1|1080||1000";
    let active = random_peer();
    let a = random_peer();
    let b = random_peer();
    let mut store = StickyState::default();
    store.remember(1080, fp, active.clone(), 3);
    store.remember(1080, fp, a.clone(), 3);
    store.remember(1080, fp, active.clone(), 3);

    assert!(store.promote_connected(1080, fp, b.clone(), addr(&b), 3));
    assert_eq!(store.pool(1080, fp), vec![active.clone(), a.clone(), b.clone()]);
    assert_eq!(store.direct_address(1080, &b), Some(addr(&b)));

    assert!(!store.promote_connected(1080, fp, b.clone(), addr(&b), 3));
    assert_eq!(store.pool(1080, fp), vec![active.clone(), a.clone(), b.clone()]);

    let c = random_peer();
    assert!(store.promote_connected(1080, fp, c.clone(), addr(&c), 3));
    let pool = store.pool(1080, fp);
    assert_eq!(pool[0], active, "front (active) is never evicted");
    assert!(pool.contains(&c) && pool.contains(&b));
    assert!(!pool.contains(&a), "relay-only standby was evicted");
    assert_eq!(store.direct_address(1080, &c), Some(addr(&c)));
}

#[test]
fn full_pool_of_addressed_members_is_kept() {
    let fp = "fp";
    let (x, y, z) = (random_peer(), random_peer(), random_peer());
    let mut s = StickyState::default();
    s.remember(1080, fp, x.clone(), 2);
    assert!(s.promote_connected(1080, fp, y.clone(), addr(&y), 2));
    s.note_direct_address(&x, &addr(&x));
    assert!(!s.promote_connected(1080, fp, z.clone(), addr(&z), 2));
    assert_eq!(s.pool(1080, fp), vec![x, y]);
}

#[test]
fn snapshot_shows_members_without_invalidating() {
    let mut s = StickyState::default();
    let (a, b) = (random_peer(), random_peer());
    s.remember(1080, "fp", a.clone(), 5);
    s.remember(1080, "fp", b.clone(), 5);
    s.note_direct_address(&a, &addr(&a));
    let snap: Vec<PoolPeer> = s.snapshot(1080, "fp");
    assert_eq!(snap.len(), 2);
    assert_eq!(snap[0].peer_id, b);
    assert!(snap[0].addresses.is_empty());
    assert_eq!(snap[1].addresses, vec![addr(&a)]);
    assert!(s.snapshot(1080, "other").is_empty());
    assert_eq!(s.pool(1080, "fp").len(), 2, "a mismatched snapshot dropped nothing");
}

#[test]
fn v1_entries_become_one_member_pools() {
    let p = random_peer();
    let pools = migrate_v1(vec![StickyEntryV1 {
        port: 1080,
        peer_id: p.clone(),
        fingerprint: "v1|1080||1000".into(),
        updated_at: 42,
    }]);
    let mut s = StickyState::from_pools(pools);
    assert_eq!(s.pool(1080, "v1|1080||1000"), vec![p]);
}

#[test]
fn store_versions_pick_the_reader() {
    assert_eq!(store_format(Some(2)), StoreFormat::Current);
    assert_eq!(store_format(Some(1)), StoreFormat::V1);
    assert_eq!(store_format(Some(7)), StoreFormat::Unknown(7));
    assert_eq!(store_format(None), StoreFormat::Unknown(0));
}

fn reloaded(s: &StickyState) -> StickyState {
    StickyState::from_pools(s.pools().clone())
}

#[test]
fn pool_keeps_most_recently_active_first_and_caps() {
    let fp = "v1|1080||1000";
    let peers: Vec<PeerKey> = (0..4).map(|_| random_peer()).collect();
    let mut store = StickyState::default();
    for p in &peers {
        store.remember(1080, fp, p.clone(), 3);
    }
    let mut reloaded = reloaded(&store);
    assert_eq!(reloaded.pool(1080, fp), vec![peers[3].clone(), peers[2].clone(), peers[1].clone()]);
}

#[test]
fn direct_address_roundtrips() {
    let fp = "v1|1080||1000";
    let peer = random_peer();
    let addr = Route::parse("/ip4/203.0.113.7/udp/45445/quic-v1").expect("addr");
    let mut store = StickyState::default();
    store.remember(1080, fp, peer.clone(), 5);
    store.note_direct_address(&peer, &addr);
    let mut reloaded = reloaded(&store);
    assert_eq!(reloaded.pool(1080, fp), vec![peer.clone()]);
    assert_eq!(reloaded.direct_address(1080, &peer), Some(addr));
}

#[test]
fn forget_peer_removes_one_keeps_rest() {
    let fp = "v1|1080||1000";
    let (a, b) = (random_peer(), random_peer());
    let mut store = StickyState::default();
    store.remember(1080, fp, a.clone(), 5);
    store.remember(1080, fp, b.clone(), 5);
    store.forget_peer(1080, &b);
    assert_eq!(store.pool(1080, fp), vec![a.clone()]);
    let mut reloaded = reloaded(&store);
    assert_eq!(reloaded.pool(1080, fp), vec![a]);
}

#[test]
fn unreadable_or_unknown_stores_load_empty() {
    assert!(loaded_pools(StoreContents::Missing).is_empty());
    assert!(loaded_pools(StoreContents::Unknown(7)).is_empty());
    assert!(loaded_pools(StoreContents::Current(None)).is_empty());
    assert!(loaded_pools(StoreContents::V1(None)).is_empty());
}

#[test]
fn stores_load_their_pools_by_version() {
    let p = random_peer();
    let v1 = loaded_pools(StoreContents::V1(Some(vec![StickyEntryV1 {
        port: 1080,
        peer_id: p.clone(),
        fingerprint: "fp".into(),
        updated_at: 5,
    }])));
    let mut s = StickyState::from_pools(v1.clone());
    assert_eq!(s.pool(1080, "fp"), vec![p.clone()]);
    let current = loaded_pools(StoreContents::Current(Some(v1)));
    let mut t = StickyState::from_pools(current);
    assert_eq!(t.pool(1080, "fp"), vec![p]);
}
