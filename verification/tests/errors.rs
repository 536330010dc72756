use p2proxy::errors::{AuthError, ConnectError, DialError, DirectoryError, StreamError};
use p2proxy::route::PeerKey;

fn peer() -> PeerKey {
    PeerKey::new(libp2p::identity::Keypair::generate_ed25519().public().to_peer_id().to_string())
}

#[test]
fn connect_directory_error_converts_into_connect_error() {
    let e: ConnectError = DirectoryError::Timeout.into();
    assert!(matches!(e, ConnectError::Directory(DirectoryError::Timeout)));
}

#[test]
fn errors_directory_error_converts_into_connect_error() {
    let e: ConnectError = DirectoryError::Timeout.into();
    assert!(matches!(e, ConnectError::Directory(DirectoryError::Timeout)));
}

#[test]
fn errors_unsupported_protocol_is_terminal() {
    let e = StreamError::UnsupportedProtocol { peer: peer(), protocol: "/bitping/tcp/1".into() };
    assert!(e.is_terminal_for_peer());
}

#[test]
fn errors_open_timeout_is_not_terminal() {
    assert!(!StreamError::OpenTimeout { peer: peer() }.is_terminal_for_peer());
}

#[test]
fn stream_unsupported_protocol_is_terminal() {
    let e = StreamError::UnsupportedProtocol { peer: peer(), protocol: "/bitping/tcp/1".into() };
    assert!(e.is_terminal_for_peer());
}

#[test]
fn stream_open_timeout_is_not_terminal() {
    assert!(!StreamError::OpenTimeout { peer: peer() }.is_terminal_for_peer());
}

#[test]
fn io_failure_is_not_terminal() {
    assert!(!StreamError::Io { peer: peer(), message: "reset".into() }.is_terminal_for_peer());
}

#[test]
fn error_messages_match_their_variants() {
    assert_eq!(
        ConnectError::PinnedExhausted { port: 1080, count: 2 }.message(),
        "all 2 pinned peer(s) for :1080 are offline or unresolvable"
    );
    assert_eq!(
        ConnectError::DiscoveryExhausted { port: 1080, attempts: 20 }.message(),
        "no peer matched the filters for :1080 after 20 attempts"
    );
    assert_eq!(ConnectError::Shutdown.message(), "shutdown requested");
    assert_eq!(ConnectError::Directory(DirectoryError::Timeout).message(), "hub query timed out");
    assert_eq!(DirectoryError::Rejected("no".into()).message(), "hub rejected the query: no");
    assert_eq!(DirectoryError::Unsupported("old".into()).message(), "hub does not support this query: old");
    assert_eq!(DirectoryError::TaskFailed("gone".into()).message(), "hub query task failed: gone");
    assert_eq!(DialError::NoneConnected.message(), "no candidate connected before the deadline");
    assert_eq!(DialError::Shutdown.message(), "shutdown requested during dial");
    assert_eq!(AuthError::EmptyToken.message(), "auth service returned an empty federated token");
    assert_eq!(AuthError::Transport("down".into()).message(), "auth transport error: down");
    assert_eq!(AuthError::Signing("bad".into()).message(), "failed to sign auth request: bad");
}
