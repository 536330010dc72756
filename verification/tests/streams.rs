use p2proxy::errors::StreamError;
use p2proxy::route::PeerKey;
use p2proxy::streams::{map_open_error, per_peer_cap, stream_error_of, OpenFailure};

fn peer() -> PeerKey {
    PeerKey::new(libp2p::identity::Keypair::generate_ed25519().public().to_peer_id().to_string())
}

#[test]
fn refused_protocol_makes_the_peer_unusable() {
    let p = peer();
    let e = map_open_error(
        p.clone(),
        libp2p_stream::OpenStreamError::UnsupportedProtocol(libp2p::StreamProtocol::new("/bitping/tcp/1")),
    );
    assert!(e.is_terminal_for_peer());
    match &e {
        StreamError::UnsupportedProtocol { peer, protocol } => {
            assert_eq!(peer, &p);
            assert_eq!(protocol, "/bitping/tcp/1");
        }
        other => panic!("unexpected {other:?}"),
    }
    assert_eq!(e.message(), format!("remote peer {} does not support /bitping/tcp/1", p.id));
}

#[test]
fn io_failure_keeps_its_text() {
    let p = peer();
    let e = map_open_error(p.clone(), libp2p_stream::OpenStreamError::Io(std::io::Error::other("reset by peer")));
    assert!(!e.is_terminal_for_peer());
    assert_eq!(e.message(), format!("io error opening stream to {}: reset by peer", p.id));
}

#[test]
fn other_failures_are_io_errors() {
    let p = peer();
    match stream_error_of(p.clone(), OpenFailure::Other("gone".into())) {
        StreamError::Io { peer, message } => {
            assert_eq!(peer, p);
            assert_eq!(message, "gone");
        }
        other => panic!("unexpected {other:?}"),
    }
}

#[test]
fn timeout_message_names_the_peer() {
    let p = peer();
    assert_eq!(StreamError::OpenTimeout { peer: p.clone() }.message(), format!("timeout opening stream to {}", p.id));
}

#[test]
fn cap_is_at_least_one() {
    assert_eq!(per_peer_cap(0), 1);
    assert_eq!(per_peer_cap(30), 30);
}
