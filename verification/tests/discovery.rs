use p2proxy::discovery::disconnect_events;
use p2proxy::events::Events;
use p2proxy::discovery::{ClosedAction, DiscoveryState};
use p2proxy::route::PeerKey;
use p2proxy::discovery::{plan_disconnect, DisconnectPlan};

fn key(s: &str) -> PeerKey {
    PeerKey::new(s.to_string())
}

#[test]
fn a_dropped_exit_is_rediscovered_then_throttled_within_the_cooldown() {
    let exit = key("exit");
    let mut s = DiscoveryState::new(&vec![1080, 1081]);
    s.set_destination(1080, Some(exit.clone()));
    assert_eq!(s.peer_closed(&exit, 1_000), vec![ClosedAction::Rediscover { port: 1080 }]);
    s.discovery_started(1080);
    s.set_destination(1080, Some(exit.clone()));
    assert_eq!(
        s.peer_closed(&exit, 11_000),
        vec![ClosedAction::Throttle { port: 1080, retry_after_ms: Some(20_000) }]
    );
    assert_eq!(s.active(1080), None, "the gone peer is no longer active");
    s.set_destination(1080, Some(exit.clone()));
    assert_eq!(
        s.peer_closed(&exit, 12_000),
        vec![ClosedAction::Throttle { port: 1080, retry_after_ms: None }],
        "one retry is scheduled, not two"
    );
    s.discovery_started(1080);
    s.set_destination(1080, Some(exit.clone()));
    assert_eq!(s.peer_closed(&exit, 31_000), vec![ClosedAction::Rediscover { port: 1080 }]);
}

#[test]
fn only_ports_the_peer_served_are_touched() {
    let (a, b) = (key("a"), key("b"));
    let mut s = DiscoveryState::new(&vec![1080, 1081, 1082]);
    s.set_destination(1080, Some(a.clone()));
    s.set_destination(1081, Some(b.clone()));
    s.set_destination(1082, Some(a.clone()));
    assert_eq!(s.ports_served_by(&a), vec![1080, 1082]);
    let actions = s.peer_closed(&a, 0);
    assert_eq!(actions, vec![ClosedAction::Rediscover { port: 1080 }, ClosedAction::Rediscover { port: 1082 }]);
    assert_eq!(s.active(1081), Some(b));
}

#[test]
fn relay_stuck_ports_rotate_to_a_direct_peer() {
    let (relayed, direct, candidate) = (key("r"), key("d"), key("c"));
    let mut s = DiscoveryState::new(&vec![1080, 1081, 1082]);
    s.set_destination(1080, Some(relayed.clone()));
    s.set_destination(1081, Some(direct.clone()));
    s.set_destination(1082, Some(candidate.clone()));
    assert!(s.peer_connected(&direct, false));
    assert!(!s.peer_connected(&relayed, true));
    assert_eq!(s.relay_stuck_ports(&candidate), vec![1080]);
    s.peer_closed(&direct, 0);
    assert_eq!(s.relay_stuck_ports(&candidate), vec![1080, 1081]);
}

#[test]
fn swarm_path_disconnect_plan() {
    let (a, b) = (key("a"), key("b"));
    assert_eq!(plan_disconnect(&Some(a.clone()), &b, None, 0), DisconnectPlan::Ignore);
    assert_eq!(plan_disconnect(&None, &b, None, 0), DisconnectPlan::Ignore);
    assert_eq!(plan_disconnect(&Some(a.clone()), &a, None, 0), DisconnectPlan::Rediscover);
    assert_eq!(plan_disconnect(&Some(a.clone()), &a, Some(1_000), 20_000), DisconnectPlan::Clear);
    assert_eq!(plan_disconnect(&Some(a.clone()), &a, Some(1_000), 31_000), DisconnectPlan::Rediscover);
}

#[test]
fn clearing_announces_no_active_destination_once() {
    let v = disconnect_events(1080, DisconnectPlan::Clear);
    assert_eq!(v.len(), 1);
    assert!(matches!(v[0], Events::ActiveDestination { port: 1080, peer: None, source: None }));
    assert!(disconnect_events(1080, DisconnectPlan::Ignore).is_empty());
    assert!(disconnect_events(1080, DisconnectPlan::Rediscover).is_empty());
}
