use p2proxy::errors::StreamError;
use p2proxy::socks::{greeting_outcome, greeting_reply, open_failure_plan, GreetingOutcome};
use p2proxy::socks::{rebind_retry_ms, supervise, AcceptLoopEnd, DataPhase, PeerAction, SessionLedger, SupervisorStep};
use p2proxy::events::{BandwidthEvents, Events, SessionEvents};
use p2proxy::route::PeerKey;
use p2proxy::socks::{ui_event, DataDirection, SessionMessage, SessionStage};

#[test]
fn transfers_for_the_session_are_hashed_and_counted() {
    let mut l = SessionLedger::new("s-1".into());
    l.client_chunk(b"GET / HTTP/1.1\r\n\r\n");
    l.client_chunk_sent(18);
    let a = l.peer_message(&DataPhase::Transfer { id: "s-1".into(), bytes: b"hello".to_vec() });
    assert!(matches!(a, PeerAction::Deliver));
    l.peer_chunk_delivered(5);
    let other = l.peer_message(&DataPhase::Transfer { id: "s-2".into(), bytes: b"nope".to_vec() });
    assert!(matches!(other, PeerAction::Ignore));
    let s = l.finish();
    assert_eq!(s.incoming_bytes, 5);
    assert_eq!(s.outgoing_bytes, 18);
    assert_eq!(s.incoming_hash, blake3::hash(b"hello").to_hex().to_string());
    assert_eq!(s.outgoing_hash, blake3::hash(b"GET / HTTP/1.1\r\n\r\n").to_hex().to_string());
}

#[test]
fn an_empty_session_hashes_nothing() {
    let l = SessionLedger::new("s".into());
    let s = l.finish();
    assert_eq!(s.incoming_hash, blake3::hash(b"").to_hex().to_string());
    assert_eq!(s.incoming_hash.len(), 64);
}

#[test]
fn errors_and_closes_end_the_session() {
    let mut l = SessionLedger::new("s".into());
    match l.peer_message(&DataPhase::Error("boom".into())) {
        PeerAction::Fail(m) => assert_eq!(m, "Received error message: boom"),
        _ => panic!("expected a failure"),
    }
    assert!(matches!(l.peer_message(&DataPhase::Close("s".into())), PeerAction::Close));
    assert!(matches!(l.peer_message(&DataPhase::Close("t".into())), PeerAction::Ignore));
}

#[test]
fn the_supervisor_restarts_a_failed_listener() {
    assert_eq!(supervise(AcceptLoopEnd::Clean), SupervisorStep::Exit);
    assert_eq!(supervise(AcceptLoopEnd::Failed), SupervisorStep::Rebind { after_ms: 1000 });
    assert_eq!(supervise(AcceptLoopEnd::Panicked), SupervisorStep::Rebind { after_ms: 1000 });
    assert_eq!(rebind_retry_ms(), 5000);
}

#[test]
fn session_messages_become_ui_events() {
    let p = PeerKey::new("peer".into());
    assert!(matches!(
        ui_event(&SessionMessage::Initialized { session_id: 9, target: "example.com:443".into(), peer: p.clone() }),
        Some(Events::Session(SessionEvents::New(9, t, k))) if t == "example.com:443" && k == p
    ));
    assert!(matches!(
        ui_event(&SessionMessage::DataTransferred { session_id: 9, direction: DataDirection::Incoming, bytes: 10 }),
        Some(Events::Bandwidth(BandwidthEvents::Download(9, 10)))
    ));
    assert!(matches!(
        ui_event(&SessionMessage::DataTransferred { session_id: 9, direction: DataDirection::Outgoing, bytes: 3 }),
        Some(Events::Bandwidth(BandwidthEvents::Upload(9, 3)))
    ));
    assert!(ui_event(&SessionMessage::Error { session_id: None, error: "x".into(), stage: SessionStage::Handshake }).is_none());
    assert!(matches!(ui_event(&SessionMessage::Finished { session_id: 9 }), Some(Events::Session(SessionEvents::End(9)))));
}

#[test]
fn rejects_socks_client_without_noauth() {
    // SOCKS5 greeting offering only method 0xFF (no NoAuth).
    let greeting = [0x05u8, 0x01, 0xFF];
    let o = greeting_outcome(&greeting[2..]);
    assert_eq!(o, GreetingOutcome::Reject);
    assert_eq!(greeting_reply(o), vec![0x05, 0xFF], "server replies NoAcceptableMethods");
}

#[test]
fn greeting_with_noauth_proceeds() {
    let o = greeting_outcome(&[0x02, 0x00]);
    assert_eq!(o, GreetingOutcome::Proceed);
    assert_eq!(greeting_reply(o), vec![0x05, 0x00]);
}

#[test]
fn failed_open_evicts_only_a_peer_that_cannot_proxy() {
    let p = PeerKey::new("12D3KooWX".to_string());
    let refused = StreamError::UnsupportedProtocol { peer: p.clone(), protocol: "/bitping/tcp/1".into() };
    let plan = open_failure_plan(&refused);
    assert!(plan.evict_peer);
    assert_eq!(plan.reply, 0x01);
    let timeout = StreamError::OpenTimeout { peer: p };
    assert!(!open_failure_plan(&timeout).evict_peer);
}
