//! The library's error values and their messages.
use vstd::prelude::*;

use crate::route::PeerKey;
use crate::text::{concat, decimal, decimal_string};

verus! {

/// Hub-query failures (`FindNodes` / `ResolvePeers`). `Unsupported` is the
/// older hub shape: the caller falls back to circuit synthesis and retries
/// next pass; the others are genuine query failures.
#[derive(Debug, Clone)]
pub enum DirectoryError {
    Timeout,
    Rejected(String),
    Unsupported(String),
    TaskFailed(String),
}

pub enum DirectoryErrorView {
    Timeout,
    Rejected(Seq<char>),
    Unsupported(Seq<char>),
    TaskFailed(Seq<char>),
}

impl View for DirectoryError {
    type V = DirectoryErrorView;

    open spec fn view(&self) -> DirectoryErrorView {
        match self {
            DirectoryError::Timeout => DirectoryErrorView::Timeout,
            DirectoryError::Rejected(s) => DirectoryErrorView::Rejected(s@),
            DirectoryError::Unsupported(s) => DirectoryErrorView::Unsupported(s@),
            DirectoryError::TaskFailed(s) => DirectoryErrorView::TaskFailed(s@),
        }
    }
}

/// The message of a directory error.
pub open spec fn directory_message(e: DirectoryErrorView) -> Seq<char> {
    match e {
        DirectoryErrorView::Timeout => "hub query timed out"@,
        DirectoryErrorView::Rejected(s) => "hub rejected the query: "@ + s,
        DirectoryErrorView::Unsupported(s) => "hub does not support this query: "@ + s,
        DirectoryErrorView::TaskFailed(s) => "hub query task failed: "@ + s,
    }
}

impl DirectoryError {
    /// The error's message.
    pub fn message(&self) -> (m: String)
        ensures
            m@ == directory_message(self@),
    {
        match self {
            DirectoryError::Timeout => "hub query timed out".to_owned(),
            DirectoryError::Rejected(s) => concat("hub rejected the query: ", s.as_str()),
            DirectoryError::Unsupported(s) => concat("hub does not support this query: ", s.as_str()),
            DirectoryError::TaskFailed(s) => concat("hub query task failed: ", s.as_str()),
        }
    }

    /// An equal copy.
    pub fn duplicate(&self) -> (e: DirectoryError)
        ensures
            e@ == self@,
    {
        match self {
            DirectoryError::Timeout => DirectoryError::Timeout,
            DirectoryError::Rejected(s) => DirectoryError::Rejected(s.clone()),
            DirectoryError::Unsupported(s) => DirectoryError::Unsupported(s.clone()),
            DirectoryError::TaskFailed(s) => DirectoryError::TaskFailed(s.clone()),
        }
    }
}

/// Why a dial produced no connection.
#[derive(Debug, Clone, Copy, PartialEq, Eq, Structural)]
pub enum DialError {
    NoneConnected,
    Shutdown,
}

impl DialError {
    /// The error's message.
    pub fn message(&self) -> (m: String)
        ensures
            m@ == (match *self {
                DialError::NoneConnected => "no candidate connected before the deadline"@,
                DialError::Shutdown => "shutdown requested during dial"@,
            }),
    {
        match self {
            DialError::NoneConnected => "no candidate connected before the deadline".to_owned(),
            DialError::Shutdown => "shutdown requested during dial".to_owned(),
        }
    }
}

/// Why one bounded connect effort gave up.
#[derive(Debug, Clone)]
pub enum ConnectError {
    PinnedExhausted { port: u16, count: usize },
    DiscoveryExhausted { port: u16, attempts: usize },
    Shutdown,
    Directory(DirectoryError),
}

pub enum ConnectErrorView {
    PinnedExhausted { port: u16, count: usize },
    DiscoveryExhausted { port: u16, attempts: usize },
    Shutdown,
    Directory(DirectoryErrorView),
}

impl View for ConnectError {
    type V = ConnectErrorView;

    open spec fn view(&self) -> ConnectErrorView {
        match self {
            ConnectError::PinnedExhausted { port, count } => ConnectErrorView::PinnedExhausted {
                port: *port,
                count: *count,
            },
            ConnectError::DiscoveryExhausted { port, attempts } => ConnectErrorView::DiscoveryExhausted {
                port: *port,
                attempts: *attempts,
            },
            ConnectError::Shutdown => ConnectErrorView::Shutdown,
            ConnectError::Directory(e) => ConnectErrorView::Directory(e@),
        }
    }
}

impl From<DirectoryError> for ConnectError {
    fn from(e: DirectoryError) -> (r: ConnectError) {
        ConnectError::Directory(e)
    }
}

impl vstd::std_specs::convert::FromSpecImpl<DirectoryError> for ConnectError {
    open spec fn obeys_from_spec() -> bool {
        true
    }

    open spec fn from_spec(e: DirectoryError) -> ConnectError {
        ConnectError::Directory(e)
    }
}

/// The message of a connect error.
pub open spec fn connect_message(e: ConnectErrorView) -> Seq<char> {
    match e {
        ConnectErrorView::PinnedExhausted { port, count } => "all "@ + decimal(count as nat)
            + " pinned peer(s) for :"@ + decimal(port as nat) + " are offline or unresolvable"@,
        ConnectErrorView::DiscoveryExhausted { port, attempts } => "no peer matched the filters for :"@
            + decimal(port as nat) + " after "@ + decimal(attempts as nat) + " attempts"@,
        ConnectErrorView::Shutdown => "shutdown requested"@,
        ConnectErrorView::Directory(d) => directory_message(d),
    }
}

impl ConnectError {
    /// The error's message.
    pub fn message(&self) -> (m: String)
        ensures
            m@ == connect_message(self@),
    {
        match self {
            ConnectError::PinnedExhausted { port, count } => {
                let c = decimal_string(*count as u128);
                let p = decimal_string(*port as u128);
                let s1 = concat("all ", c.as_str());
                let s2 = concat(s1.as_str(), " pinned peer(s) for :");
                let s3 = concat(s2.as_str(), p.as_str());
                concat(s3.as_str(), " are offline or unresolvable")
            },
            ConnectError::DiscoveryExhausted { port, attempts } => {
                let p = decimal_string(*port as u128);
                let a = decimal_string(*attempts as u128);
                let s1 = concat("no peer matched the filters for :", p.as_str());
                let s2 = concat(s1.as_str(), " after ");
                let s3 = concat(s2.as_str(), a.as_str());
                concat(s3.as_str(), " attempts")
            },
            ConnectError::Shutdown => "shutdown requested".to_owned(),
            ConnectError::Directory(d) => d.message(),
        }
    }
}

/// Failures of the authentication port.
#[derive(Debug, Clone)]
pub enum AuthError {
    EmptyToken,
    MalformedToken(String),
    Transport(String),
    Signing(String),
}

impl AuthError {
    /// The error's message.
    pub fn message(&self) -> (m: String)
        ensures
            m@ == (match self {
                AuthError::EmptyToken => "auth service returned an empty federated token"@,
                AuthError::MalformedToken(s) => "federated token is malformed: "@ + s@,
                AuthError::Transport(s) => "auth transport error: "@ + s@,
                AuthError::Signing(s) => "failed to sign auth request: "@ + s@,
            }),
    {
        match self {
            AuthError::EmptyToken => "auth service returned an empty federated token".to_owned(),
            AuthError::MalformedToken(s) => concat("federated token is malformed: ", s.as_str()),
            AuthError::Transport(s) => concat("auth transport error: ", s.as_str()),
            AuthError::Signing(s) => concat("failed to sign auth request: ", s.as_str()),
        }
    }
}

/// Failures opening a stream to a peer. An I/O failure carries its
/// message.
#[derive(Debug, Clone)]
pub enum StreamError {
    UnsupportedProtocol { peer: PeerKey, protocol: String },
    Io { peer: PeerKey, message: String },
    OpenTimeout { peer: PeerKey },
}

impl StreamError {
    /// The error's message.
    pub fn message(&self) -> (m: String)
        ensures
            m@ == (match self {
                StreamError::UnsupportedProtocol { peer, protocol } => "remote peer "@ + peer@ + " does not support "@
                    + protocol@,
                StreamError::Io { peer, message } => "io error opening stream to "@ + peer@ + ": "@ + message@,
                StreamError::OpenTimeout { peer } => "timeout opening stream to "@ + peer@,
            }),
    {
        match self {
            StreamError::UnsupportedProtocol { peer, protocol } => {
                let a = concat("remote peer ", peer.id.as_str());
                let b = concat(a.as_str(), " does not support ");
                concat(b.as_str(), protocol.as_str())
            },
            StreamError::Io { peer, message } => {
                let a = concat("io error opening stream to ", peer.id.as_str());
                let b = concat(a.as_str(), ": ");
                concat(b.as_str(), message.as_str())
            },
            StreamError::OpenTimeout { peer } => concat("timeout opening stream to ", peer.id.as_str()),
        }
    }

    /// Whether the peer is fundamentally unable to serve us, so the caller
    /// should evict and rediscover rather than retry the same peer.
    pub fn is_terminal_for_peer(&self) -> (b: bool)
        ensures
            b == (self is UnsupportedProtocol),
    {
        match self {
            StreamError::UnsupportedProtocol { .. } => true,
            _ => false,
        }
    }
}

} // verus!
