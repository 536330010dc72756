use p2proxy::pool::{PeerStats, PeerTable, MAX_WINDOW_SIZE};
use p2proxy::route::PeerKey;

fn key(s: &str) -> PeerKey {
    PeerKey::new(s.to_string())
}

#[test]
fn untracked_peer_is_healthy_and_has_no_counters() {
    let t = PeerTable::new();
    assert!(t.is_peer_healthy(&key("12D3KooWA")));
    assert!(t.get(&key("12D3KooWA")).is_none());
    assert!(t.get_stats().is_empty());
}

#[test]
fn acquire_then_success_counts_one_open_stream() {
    let mut t = PeerTable::new();
    let p = key("12D3KooWA");
    t.begin_acquire(&p);
    let s = t.record_success(&p).unwrap();
    assert_eq!(s.total_opened, 1);
    assert_eq!(s.recent_successes, 1);
    assert_eq!(s.recent_failures, 0);
    assert_eq!(s.current_active, 1);
    assert!(s.is_healthy);
    t.stream_closed(&p);
    assert_eq!(t.get(&p).unwrap().current_active, 0);
}

#[test]
fn failed_open_gives_back_its_slot() {
    let mut t = PeerTable::new();
    let p = key("12D3KooWB");
    t.begin_acquire(&p);
    t.begin_acquire(&p);
    let s = t.record_failure(&p).unwrap();
    assert_eq!(s.total_failed, 1);
    assert_eq!(s.recent_failures, 1);
    assert_eq!(s.current_active, 1);
}

#[test]
fn close_never_goes_below_zero() {
    let mut t = PeerTable::new();
    let p = key("12D3KooWC");
    t.begin_acquire(&p);
    t.stream_closed(&p);
    t.stream_closed(&p);
    assert_eq!(t.get(&p).unwrap().current_active, 0);
}

#[test]
fn outcomes_for_untracked_peer_change_nothing() {
    let mut t = PeerTable::new();
    let p = key("12D3KooWD");
    assert!(t.record_success(&p).is_none());
    assert!(t.record_failure(&p).is_none());
    t.stream_closed(&p);
    t.set_healthy(&p, false);
    assert!(t.get(&p).is_none());
    assert!(t.is_peer_healthy(&p));
}

#[test]
fn window_is_halved_once_it_outgrows_its_size() {
    let mut s = PeerStats::new();
    for _ in 0..MAX_WINDOW_SIZE {
        s.note_success();
    }
    assert_eq!(s.recent_successes, 100);
    s.note_failure();
    assert_eq!(s.recent_successes, 50);
    assert_eq!(s.recent_failures, 0);
    assert_eq!(s.total_opened, 100);
    assert_eq!(s.total_failed, 1);
}

#[test]
fn verdict_changes_only_when_set() {
    let mut t = PeerTable::new();
    let p = key("12D3KooWE");
    t.begin_acquire(&p);
    for _ in 0..5 {
        t.record_failure(&p);
    }
    assert!(t.is_peer_healthy(&p));
    t.set_healthy(&p, false);
    assert!(!t.is_peer_healthy(&p));
    t.record_success(&p);
    assert!(!t.is_peer_healthy(&p));
}

#[test]
fn stats_list_every_tracked_peer_once() {
    let mut t = PeerTable::new();
    t.begin_acquire(&key("a"));
    t.begin_acquire(&key("b"));
    t.begin_acquire(&key("a"));
    let v = t.get_stats();
    assert_eq!(v.len(), 2);
    let a = v.iter().find(|(k, _)| k.id == "a").unwrap();
    assert_eq!(a.1.current_active, 2);
}
