use p2proxy::errors::StreamError;
use p2proxy::route::PeerKey;
use p2proxy::socks::{SessionMessage, SessionStage};
use p2proxy::socks_session::{SocksAction, SocksEvent, SocksPhase, SocksSession};

fn peer() -> PeerKey {
    PeerKey::new("12D3KooWExit".to_string())
}

fn is_error(a: &SocksAction, id: Option<u128>, text: &str, stage: SessionStage) -> bool {
    matches!(a, SocksAction::Report(SessionMessage::Error { session_id, error, stage: s })
        if *session_id == id && error == text && *s == stage)
}

#[test]
fn a_greeting_without_noauth_is_rejected_before_any_stream() {
    let (mut s, first) = SocksSession::new(7, peer());
    assert!(matches!(first.as_slice(), [SocksAction::ReadGreeting]));
    let v = s.step(SocksEvent::Greeting(Ok(vec![0xFF])));
    assert_eq!(v.len(), 3);
    assert!(matches!(&v[0], SocksAction::ReplyGreeting(b) if b == &vec![0x05, 0xFF]));
    assert!(is_error(&v[1], None, "No acceptable authentication methods", SessionStage::Handshake));
    assert!(matches!(v[2], SocksAction::Stop));
    assert_eq!(s.phase, SocksPhase::Done);
}

#[test]
fn a_session_goes_through_every_stage() {
    let (mut s, _) = SocksSession::new(7, peer());
    let v = s.step(SocksEvent::Greeting(Ok(vec![0x02, 0x00])));
    assert!(matches!(&v[..], [SocksAction::ReplyGreeting(b)] if b == &vec![0x05, 0x00]));
    assert!(matches!(&s.step(SocksEvent::Written(Ok(())))[..], [SocksAction::ReadRequest]));
    assert!(matches!(&s.step(SocksEvent::Request(Ok("example.com:443".into())))[..], [SocksAction::ReplySucceeded]));
    assert!(matches!(&s.step(SocksEvent::Written(Ok(())))[..], [SocksAction::OpenStream]));
    assert!(matches!(&s.step(SocksEvent::Opened(Ok(())))[..], [SocksAction::InitSession]));
    let v = s.step(SocksEvent::SessionInit(Ok(())));
    assert!(matches!(&v[0], SocksAction::Report(SessionMessage::Initialized { session_id: 7, target, .. })
        if target == "example.com:443"));
    assert!(matches!(v[1], SocksAction::StartTransfer));
    assert_eq!(s.phase, SocksPhase::Transfer);
}

#[test]
fn handshake_read_failure_is_reported_without_a_session_id() {
    let (mut s, _) = SocksSession::new(7, peer());
    let v = s.step(SocksEvent::Greeting(Err("eof".into())));
    assert!(is_error(&v[0], None, "Failed to read initial handshake: eof", SessionStage::Handshake));
    assert!(matches!(v[1], SocksAction::Stop));
}

#[test]
fn a_peer_that_cannot_proxy_is_evicted_and_the_client_told() {
    let (mut s, _) = SocksSession::new(9, peer());
    s.step(SocksEvent::Greeting(Ok(vec![0x00])));
    s.step(SocksEvent::Written(Ok(())));
    s.step(SocksEvent::Request(Ok("1.2.3.4:80".into())));
    s.step(SocksEvent::Written(Ok(())));
    let e = StreamError::UnsupportedProtocol { peer: peer(), protocol: "/bitping/tcp/1".into() };
    let v = s.step(SocksEvent::Opened(Err(e)));
    assert!(matches!(v[0], SocksAction::EvictPeer));
    assert!(matches!(v[1], SocksAction::ReplyFailure));
    assert!(is_error(
        &v[2],
        Some(9),
        "Failed to acquire stream: remote peer 12D3KooWExit does not support /bitping/tcp/1",
        SessionStage::PeerConnection
    ));
    assert!(matches!(v[3], SocksAction::Stop));
}

#[test]
fn an_open_timeout_is_not_an_eviction() {
    let (mut s, _) = SocksSession::new(9, peer());
    s.step(SocksEvent::Greeting(Ok(vec![0x00])));
    s.step(SocksEvent::Written(Ok(())));
    s.step(SocksEvent::Request(Ok("1.2.3.4:80".into())));
    s.step(SocksEvent::Written(Ok(())));
    let v = s.step(SocksEvent::Opened(Err(StreamError::OpenTimeout { peer: peer() })));
    assert!(matches!(v[0], SocksAction::ReplyFailure));
    assert_eq!(v.len(), 3);
}
