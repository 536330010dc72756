//! Opening proxy streams to exit peers: the per-peer cap on concurrent
//! opens, and how a failed open is classified (a peer that does not speak
//! the proxy protocol is evicted; anything else is an I/O failure).
use vstd::prelude::*;

use crate::errors::StreamError;
use crate::route::PeerKey;

verus! {

#[verifier::external_type_specification]
#[verifier::external_body]
pub struct ExOpenStreamError(libp2p_stream::OpenStreamError);

/// A failed stream open, as plain values: the protocol the remote refused,
/// or the text of any other failure.
#[derive(Debug, Clone)]
pub enum OpenFailure {
    UnsupportedProtocol(String),
    Io(String),
    Other(String),
}

/// Trusted: tells the variants of `libp2p_stream::OpenStreamError` apart,
/// keeping the refused protocol's name or the error's text. Nothing is
/// stated of the texts.
#[verifier::external_body]
fn open_failure_of(error: libp2p_stream::OpenStreamError) -> (f: OpenFailure) {
    match error {
        libp2p_stream::OpenStreamError::UnsupportedProtocol(p) => OpenFailure::UnsupportedProtocol(p.to_string()),
        libp2p_stream::OpenStreamError::Io(e) => OpenFailure::Io(e.to_string()),
        other => OpenFailure::Other(other.to_string()),
    }
}

/// The stream error for a failed open to `peer`: a refused protocol makes
/// the peer unusable; any other failure is an I/O error with its text.
pub fn stream_error_of(peer: PeerKey, failure: OpenFailure) -> (e: StreamError)
    ensures
        match failure {
            OpenFailure::UnsupportedProtocol(p) => e matches StreamError::UnsupportedProtocol { peer: q, protocol }
                && q@ == peer@ && protocol@ == p@,
            OpenFailure::Io(m) => e matches StreamError::Io { peer: q, message } && q@ == peer@ && message@ == m@,
            OpenFailure::Other(m) => e matches StreamError::Io { peer: q, message } && q@ == peer@ && message@ == m@,
        },
{
    match failure {
        OpenFailure::UnsupportedProtocol(protocol) => StreamError::UnsupportedProtocol { peer, protocol },
        OpenFailure::Io(message) => StreamError::Io { peer, message },
        OpenFailure::Other(message) => StreamError::Io { peer, message },
    }
}

/// Classify a failed open of a stream to `peer`.
pub fn map_open_error(peer: PeerKey, error: libp2p_stream::OpenStreamError) -> (e: StreamError)
    ensures
        e is UnsupportedProtocol || e is Io,
        match e {
            StreamError::UnsupportedProtocol { peer: q, .. } => q@ == peer@,
            StreamError::Io { peer: q, .. } => q@ == peer@,
            StreamError::OpenTimeout { .. } => false,
        },
{
    let failure = open_failure_of(error);
    stream_error_of(peer, failure)
}

/// Concurrent opens allowed per peer: the configured number, but at least
/// one.
pub fn per_peer_cap(max_concurrent_per_peer: usize) -> (n: usize)
    ensures
        n == if max_concurrent_per_peer >= 1 { max_concurrent_per_peer } else { 1 },
{
    if max_concurrent_per_peer >= 1 {
        max_concurrent_per_peer
    } else {
        1
    }
}

} // verus!
