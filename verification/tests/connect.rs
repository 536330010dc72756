use std::collections::VecDeque;
use std::time::Duration;

use p2proxy::config::{DestinationPeerEntry, PoolConfigOptions, ProxyProtocols, Server, ServerPeerOptions, StickyReconnect};
use p2proxy::connect::{MAX_DISCOVERY_ATTEMPTS, MAX_PINNED_PASSES};
use p2proxy::errors::{ConnectError, DirectoryError};
use p2proxy::events::{DestinationSource, Events, PoolPeer};
use p2proxy::filters::FilterPolicy;
use p2proxy::flow::{ConnectFlow, ConnectReply, ConnectRequest, ConnectedDestination};
use p2proxy::route::{PeerKey, Route};
use p2proxy::selection::{destination_peer_ids, last_p2p, ResolvedEntry, ResolvedRoutes};
use p2proxy::sticky::StickyState;
use p2proxy::testing::FakeClock;

fn peer() -> PeerKey {
    PeerKey::new(libp2p::identity::Keypair::generate_ed25519().public().to_peer_id().to_string())
}

fn direct_addr(p: &PeerKey) -> Route {
    Route::parse(&format!("/ip4/198.51.100.7/tcp/443/p2p/{}", p.id)).expect("addr")
}

fn relay_addr() -> Route {
    Route::parse("/dns4/boot.example.com/tcp/45445").expect("addr")
}

fn discovery_server(port: u16) -> Server {
    Server {
        protocol: ProxyProtocols::Socks5,
        port,
        peer_options: ServerPeerOptions {
            destination_peers: None,
            fallback_to_discovery: false,
            sticky: true,
            sticky_reconnect: StickyReconnect::WithBackoff,
            country: None,
            min_bandwidth_bps: 0,
            city: None,
            isp: None,
            asn: None,
            proxy: FilterPolicy::Allow,
            mobile: FilterPolicy::Allow,
            hosting: FilterPolicy::Allow,
        },
        pool: PoolConfigOptions::default(),
    }
}

fn pinned_server(port: u16, peers: Vec<PeerKey>) -> Server {
    let mut server = discovery_server(port);
    server.peer_options.destination_peers =
        Some(peers.into_iter().map(|peer_id| DestinationPeerEntry { peer_id, address: None }).collect());
    server
}

#[derive(Default)]
struct FakeDirectory {
    find: VecDeque<Result<Vec<PoolPeer>, DirectoryError>>,
    resolved: Vec<(PeerKey, Vec<Route>)>,
    unsupported: bool,
    find_calls: usize,
    resolve_calls: usize,
}

impl FakeDirectory {
    fn queue_find(mut self, responses: Vec<Result<Vec<PoolPeer>, DirectoryError>>) -> Self {
        self.find = responses.into();
        self
    }

    fn with_resolved(mut self, map: Vec<(PeerKey, Vec<Route>)>) -> Self {
        self.resolved = map;
        self
    }

    fn unsupported() -> Self {
        FakeDirectory { unsupported: true, ..Default::default() }
    }

    fn resolve(&mut self, peers: &[PeerKey]) -> Result<ResolvedRoutes, DirectoryError> {
        self.resolve_calls += 1;
        if self.unsupported {
            return Err(DirectoryError::Unsupported("fake".into()));
        }
        let entries = peers
            .iter()
            .filter_map(|p| {
                self.resolved.iter().find(|(k, _)| k == p).map(|(k, r)| ResolvedEntry { peer: k.clone(), routes: r.clone() })
            })
            .collect();
        Ok(ResolvedRoutes { entries })
    }

    fn find_nodes(&mut self) -> Result<Vec<PoolPeer>, DirectoryError> {
        self.find_calls += 1;
        self.find.pop_front().unwrap_or_else(|| Ok(Vec::new()))
    }
}

#[derive(Default)]
struct FakeDialer {
    reachable: Vec<PeerKey>,
    reachable_addrs: Option<Vec<Route>>,
    connected: Vec<PeerKey>,
    dialed: usize,
}

impl FakeDialer {
    fn reachable(peers: Vec<PeerKey>) -> Self {
        FakeDialer { reachable: peers, ..Default::default() }
    }

    fn reachable_addresses(addrs: Vec<Route>) -> Self {
        FakeDialer { reachable_addrs: Some(addrs), ..Default::default() }
    }

    fn dial(&mut self, addresses: &Vec<Route>) -> Option<PeerKey> {
        self.dialed += 1;
        let hit = match &self.reachable_addrs {
            Some(addrs) => addresses.iter().find(|a| addrs.contains(a)).and_then(last_p2p),
            None => destination_peer_ids(addresses).into_iter().find(|p| self.reachable.contains(p)),
        };
        if let Some(p) = &hit {
            self.connected.push(p.clone());
        }
        hit
    }
}

struct Run {
    result: Result<ConnectedDestination, ConnectError>,
    events: Vec<Events>,
}

fn run(
    server: &Server,
    avoid: Option<PeerKey>,
    dir: &mut FakeDirectory,
    dl: &mut FakeDialer,
    clk: &mut FakeClock,
    sticky: &mut StickyState,
    relay: &Route,
) -> Run {
    let mut events = Vec::new();
    let (mut flow, mut step) = ConnectFlow::start(server, relay, avoid, sticky);
    loop {
        events.extend(step.emit);
        let reply = match step.request {
            ConnectRequest::ResolvePeers(peers) => ConnectReply::Resolved(dir.resolve(&peers)),
            ConnectRequest::FindNodes(_) => ConnectReply::Found(dir.find_nodes()),
            ConnectRequest::Dial(routes) => ConnectReply::Dialed(dl.dial(&routes)),
            ConnectRequest::IsConnected(p) => ConnectReply::Connected(dl.connected.contains(&p)),
            ConnectRequest::Sleep(d) => {
                clk.record(d);
                ConnectReply::Slept
            }
            ConnectRequest::Done(result) => return Run { result, events },
        };
        step = flow.resume(sticky, reply);
    }
}

fn errors(events: &[Events]) -> Vec<String> {
    events.iter().filter_map(|e| match e {
        Events::Error(m) => Some(m.clone()),
        _ => None,
    }).collect()
}

fn candidate(p: &PeerKey) -> PoolPeer {
    PoolPeer { peer_id: p.clone(), addresses: vec![direct_addr(p)] }
}

#[test]
fn discovered_adopts_and_remembers() {
    let p = peer();
    let server = discovery_server(1080);
    let fp = server.peer_options.filter_fingerprint(1080);
    let mut dir = FakeDirectory::default().queue_find(vec![Ok(vec![candidate(&p)])]);
    let mut dl = FakeDialer::reachable(vec![p.clone()]);
    let mut clk = FakeClock::new();
    let mut sticky = StickyState::default();

    let out = run(&server, None, &mut dir, &mut dl, &mut clk, &mut sticky, &relay_addr());
    let dest = out.result.expect("connects");
    assert_eq!(dest.peer, p);
    assert_eq!(dest.source, DestinationSource::Discovered);
    assert_eq!(sticky.pool(1080, &fp), vec![p], "adopted peer is remembered");
    assert!(out.events.iter().any(|e| matches!(e, Events::ServerPool { .. })), "pool surfaced to the TUI");
}

#[test]
fn discovery_retries_until_candidates_appear() {
    let p = peer();
    let server = discovery_server(1080);
    let mut dir = FakeDirectory::default().queue_find(vec![Ok(vec![]), Ok(vec![candidate(&p)])]);
    let mut dl = FakeDialer::reachable(vec![p.clone()]);
    let mut clk = FakeClock::new();
    let mut sticky = StickyState::default();

    let out = run(&server, None, &mut dir, &mut dl, &mut clk, &mut sticky, &relay_addr());
    assert_eq!(out.result.expect("connects").peer, p);
    assert!(dir.find_calls >= 2);
    assert!(clk.sleeps().contains(&Duration::from_secs(1)));
}

#[test]
fn discovery_exhausts_and_reports_error() {
    let server = discovery_server(1080);
    let mut dir = FakeDirectory::default();
    let mut dl = FakeDialer::default();
    let mut clk = FakeClock::new();
    let mut sticky = StickyState::default();

    let out = run(&server, None, &mut dir, &mut dl, &mut clk, &mut sticky, &relay_addr());
    assert!(matches!(out.result, Err(ConnectError::DiscoveryExhausted { port: 1080, .. })));
    assert_eq!(dir.find_calls, MAX_DISCOVERY_ATTEMPTS);
    assert!(!errors(&out.events).is_empty());
    assert_eq!(
        errors(&out.events),
        vec!["Failed to connect with any peer for :1080 after 20 attempts (filter: Unknown).".to_string()]
    );
}

#[test]
fn sticky_pool_falls_back_to_relay_circuit_on_transient_hub_failure() {
    let p = peer();
    let server = discovery_server(1080);
    let fp = server.peer_options.filter_fingerprint(1080);
    let mut sticky = StickyState::default();
    sticky.remember(1080, &fp, p.clone(), 5);
    let mut dir = FakeDirectory::default();
    let mut dl = FakeDialer::reachable(vec![p.clone()]);
    let mut clk = FakeClock::new();

    let out = run(&server, None, &mut dir, &mut dl, &mut clk, &mut sticky, &relay_addr());
    let dest = out.result.expect("reconnects via synthesized relay circuit");
    assert_eq!(dest.peer, p);
    assert_eq!(dest.source, DestinationSource::Sticky);
    assert_eq!(dir.find_calls, 0, "never fell through to discovery");
}

#[test]
fn sticky_pool_reconnects_using_remembered_direct_address() {
    let p = peer();
    let server = discovery_server(1080);
    let fp = server.peer_options.filter_fingerprint(1080);
    let mut sticky = StickyState::default();
    sticky.remember(1080, &fp, p.clone(), 5);
    sticky.note_direct_address(&p, &direct_addr(&p));
    let mut dir = FakeDirectory::default();
    let mut dl = FakeDialer::reachable(vec![p.clone()]);
    let mut clk = FakeClock::new();

    let out = run(&server, None, &mut dir, &mut dl, &mut clk, &mut sticky, &relay_addr());
    let dest = out.result.expect("connects");
    assert_eq!(dest.peer, p);
    assert_eq!(dest.source, DestinationSource::Sticky);
    assert_eq!(dir.find_calls, 0, "remembered peer needs no discovery");
    assert_eq!(dl.dialed, 1, "remembered + hub routes raced in one dial");
}

#[test]
fn stale_remembered_direct_does_not_block_a_fresh_route() {
    let p = peer();
    let server = discovery_server(1080);
    let fp = server.peer_options.filter_fingerprint(1080);
    let stale = Route::parse(&format!("/ip4/203.0.113.7/tcp/9/p2p/{}", p.id)).expect("addr");
    let fresh = direct_addr(&p);
    let mut sticky = StickyState::default();
    sticky.remember(1080, &fp, p.clone(), 5);
    sticky.note_direct_address(&p, &stale);
    let mut dir = FakeDirectory::default().with_resolved(vec![(p.clone(), vec![fresh.clone()])]);
    let mut dl = FakeDialer::reachable_addresses(vec![fresh]);
    let mut clk = FakeClock::new();

    let out = run(&server, None, &mut dir, &mut dl, &mut clk, &mut sticky, &relay_addr());
    let dest = out.result.expect("reconnects on the fresh route despite the stale remembered address");
    assert_eq!(dest.peer, p);
    assert_eq!(dest.source, DestinationSource::Sticky);
    assert_eq!(dl.dialed, 1, "stale + fresh raced in one dial, not serially");
}

#[test]
fn unsupported_resolve_falls_back_to_circuit() {
    let p = peer();
    let server = discovery_server(1080);
    let fp = server.peer_options.filter_fingerprint(1080);
    let mut sticky = StickyState::default();
    sticky.remember(1080, &fp, p.clone(), 5);
    let mut dir = FakeDirectory::unsupported();
    let mut dl = FakeDialer::reachable(vec![p.clone()]);
    let mut clk = FakeClock::new();

    let out = run(&server, None, &mut dir, &mut dl, &mut clk, &mut sticky, &relay_addr());
    let dest = out.result.expect("connects via synthesized circuit");
    assert_eq!(dest.peer, p);
    assert_eq!(dest.source, DestinationSource::Sticky);
    assert_eq!(dir.find_calls, 0);
}

#[test]
fn sticky_reconnect_backs_off_then_forgets_and_discovers() {
    let old = peer();
    let fresh = peer();
    let server = discovery_server(1080);
    let fp = server.peer_options.filter_fingerprint(1080);
    let mut sticky = StickyState::default();
    sticky.remember(1080, &fp, old.clone(), 5);
    let mut dir = FakeDirectory::default().queue_find(vec![Ok(vec![candidate(&fresh)])]);
    let mut dl = FakeDialer::reachable(vec![fresh.clone()]);
    let mut clk = FakeClock::new();

    let out = run(&server, Some(old), &mut dir, &mut dl, &mut clk, &mut sticky, &relay_addr());
    let dest = out.result.expect("rotates to a fresh peer");
    assert_eq!(dest.peer, fresh);
    assert_eq!(dest.source, DestinationSource::Discovered);
    assert_eq!(sticky.pool(1080, &fp), vec![fresh], "old forgotten, fresh remembered");
    assert_eq!(
        clk.sleeps()[..2],
        [Duration::from_secs(1), Duration::from_secs(2)],
        "exponential backoff between reconnect attempts"
    );
}

#[test]
fn pinned_rank0_wins_when_reachable() {
    let (a, b) = (peer(), peer());
    let server = pinned_server(1080, vec![a.clone(), b]);
    let mut dir = FakeDirectory::default().with_resolved(vec![(a.clone(), vec![direct_addr(&a)])]);
    let mut dl = FakeDialer::reachable(vec![a.clone()]);
    let mut clk = FakeClock::new();
    let mut sticky = StickyState::default();

    let out = run(&server, None, &mut dir, &mut dl, &mut clk, &mut sticky, &relay_addr());
    let dest = out.result.expect("connects");
    assert_eq!(dest.peer, a);
    assert_eq!(dest.source, DestinationSource::Pinned { rank: 0 });
    assert!(out.events.iter().any(|e| matches!(e, Events::PinnedPeerStatuses { .. })));
}

#[test]
fn pinned_fails_over_to_rank1() {
    let (a, b) = (peer(), peer());
    let server = pinned_server(1080, vec![a.clone(), b.clone()]);
    let mut dir = FakeDirectory::default()
        .with_resolved(vec![(a.clone(), vec![direct_addr(&a)]), (b.clone(), vec![direct_addr(&b)])]);
    let mut dl = FakeDialer::reachable(vec![b.clone()]);
    let mut clk = FakeClock::new();
    let mut sticky = StickyState::default();

    let out = run(&server, None, &mut dir, &mut dl, &mut clk, &mut sticky, &relay_addr());
    let dest = out.result.expect("connects");
    assert_eq!(dest.peer, b);
    assert_eq!(dest.source, DestinationSource::Pinned { rank: 1 });
}

#[test]
fn hard_pin_exhausts_without_silently_discovering() {
    let a = peer();
    let server = pinned_server(1080, vec![a]);
    let mut dir = FakeDirectory::default();
    let mut dl = FakeDialer::default();
    let mut clk = FakeClock::new();
    let mut sticky = StickyState::default();

    let out = run(&server, None, &mut dir, &mut dl, &mut clk, &mut sticky, &relay_addr());
    assert!(matches!(out.result, Err(ConnectError::PinnedExhausted { port: 1080, count: 1 })));
    assert_eq!(clk.sleeps().len(), MAX_PINNED_PASSES);
    assert!(!errors(&out.events).is_empty());
    assert_eq!(dir.find_calls, 0);
    assert_eq!(
        errors(&out.events),
        vec!["All 1 pinned peer(s) for :1080 are offline or unresolvable.".to_string()]
    );
}

#[test]
fn pinned_falls_back_to_discovery_when_opted_in() {
    let a = peer();
    let fresh = peer();
    let mut server = pinned_server(1080, vec![a]);
    server.peer_options.fallback_to_discovery = true;
    let mut dir = FakeDirectory::default().queue_find(vec![Ok(vec![candidate(&fresh)])]);
    let mut dl = FakeDialer::reachable(vec![fresh.clone()]);
    let mut clk = FakeClock::new();
    let mut sticky = StickyState::default();

    let out = run(&server, None, &mut dir, &mut dl, &mut clk, &mut sticky, &relay_addr());
    let dest = out.result.expect("connects");
    assert_eq!(dest.peer, fresh);
    assert_eq!(dest.source, DestinationSource::Discovered);
}

#[test]
fn better_rank_that_connected_late_wins() {
    let (a, b) = (peer(), peer());
    let server = pinned_server(1080, vec![a.clone(), b.clone()]);
    let mut dir = FakeDirectory::default().with_resolved(vec![(b.clone(), vec![direct_addr(&b)])]);
    let mut dl = FakeDialer::reachable(vec![b.clone()]);
    dl.connected.push(a.clone());
    let mut clk = FakeClock::new();
    let mut sticky = StickyState::default();

    let out = run(&server, None, &mut dir, &mut dl, &mut clk, &mut sticky, &relay_addr());
    let dest = out.result.expect("connects");
    assert_eq!(dest.peer, a);
    assert_eq!(dest.source, DestinationSource::Pinned { rank: 0 });
}

#[test]
fn pool_pass_skips_the_dropped_peer_without_backoff() {
    let (old, other) = (peer(), peer());
    let mut server = discovery_server(1080);
    server.peer_options.sticky_reconnect = StickyReconnect::FailFast;
    let fp = server.peer_options.filter_fingerprint(1080);
    let mut sticky = StickyState::default();
    sticky.remember(1080, &fp, other.clone(), 5);
    sticky.remember(1080, &fp, old.clone(), 5);
    let mut dir = FakeDirectory::default();
    let mut dl = FakeDialer::reachable(vec![old.clone(), other.clone()]);
    let mut clk = FakeClock::new();

    let out = run(&server, Some(old), &mut dir, &mut dl, &mut clk, &mut sticky, &relay_addr());
    let dest = out.result.expect("connects");
    assert_eq!(dest.peer, other, "the dropped peer is skipped");
    assert_eq!(dest.source, DestinationSource::Sticky);
    assert!(clk.sleeps().is_empty(), "fail-fast never backs off");
    assert_eq!(sticky.pool(1080, &fp)[0], other, "the adopted standby leads the pool");
}

#[test]
fn discovery_skips_the_dropped_peer() {
    let old = peer();
    let fresh = peer();
    let mut server = discovery_server(1080);
    server.peer_options.sticky = false;
    let mut dir = FakeDirectory::default().queue_find(vec![Ok(vec![candidate(&old), candidate(&fresh)])]);
    let mut dl = FakeDialer::reachable(vec![old.clone(), fresh.clone()]);
    let mut clk = FakeClock::new();
    let mut sticky = StickyState::default();

    let out = run(&server, Some(old.clone()), &mut dir, &mut dl, &mut clk, &mut sticky, &relay_addr());
    let dest = out.result.expect("connects");
    assert_eq!(dest.peer, fresh);
    assert_eq!(dest.source, DestinationSource::Discovered);
    assert!(!dl.connected.contains(&old));
}

#[test]
fn discovery_with_only_the_dropped_peer_dials_nothing() {
    let old = peer();
    let mut server = discovery_server(1080);
    server.peer_options.sticky = false;
    let mut dir = FakeDirectory::default().queue_find(vec![Ok(vec![candidate(&old)])]);
    let mut dl = FakeDialer::reachable(vec![old.clone()]);
    let mut clk = FakeClock::new();
    let mut sticky = StickyState::default();

    let out = run(&server, Some(old.clone()), &mut dir, &mut dl, &mut clk, &mut sticky, &relay_addr());
    assert!(out.result.is_err());
    assert_eq!(dl.dialed, 0);
}
