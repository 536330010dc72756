//! Events the proxy surfaces to its user interface.
use vstd::prelude::*;

use crate::route::{routes_view, PeerKey, Route, RouteView};

verus! {

/// How a server's active destination was selected.
#[derive(Debug, Clone, Copy, PartialEq, Eq, Structural)]
pub enum DestinationSource {
    /// From the `destination_peers` list; `rank` 0 is the most preferred.
    Pinned { rank: usize },
    /// Remembered exit peer reused from the sticky store.
    Sticky,
    /// Fresh attribute-filtered discovery.
    Discovered,
}

/// One candidate in a server's discovery pool: the peer plus the dial
/// routes the hub resolved for it this pass.
#[derive(Debug, Clone)]
pub struct PoolPeer {
    pub peer_id: PeerKey,
    pub addresses: Vec<Route>,
}

impl View for PoolPeer {
    type V = (Seq<char>, Seq<RouteView>);

    open spec fn view(&self) -> (Seq<char>, Seq<RouteView>) {
        (self.peer_id@, routes_view(self.addresses@))
    }
}

pub open spec fn pool_peers_view(v: Seq<PoolPeer>) -> Seq<(Seq<char>, Seq<RouteView>)> {
    v.map_values(|p: PoolPeer| p@)
}

/// Whether a pinned peer currently has a dialable route.
#[derive(Debug, Clone)]
pub struct PinnedPeerStatus {
    pub peer_id: PeerKey,
    pub rank: usize,
    /// `true` when the peer has a dialable route (hub-resolved or verbatim);
    /// `false` means stale.
    pub resolvable: bool,
}

impl View for PinnedPeerStatus {
    type V = (Seq<char>, usize, bool);

    open spec fn view(&self) -> (Seq<char>, usize, bool) {
        (self.peer_id@, self.rank, self.resolvable)
    }
}

pub open spec fn statuses_view(v: Seq<PinnedPeerStatus>) -> Seq<(Seq<char>, usize, bool)> {
    v.map_values(|s: PinnedPeerStatus| s@)
}

#[derive(Debug, Clone)]
pub enum ConnectionEvents {
    Connecting,
    Connected(PeerKey),
    /// A specific peer's connection closed.
    Disconnected(PeerKey),
}

/// A session, by its 128-bit id.
#[derive(Debug, Clone)]
pub enum SessionEvents {
    /// A session opened to `target` through a peer.
    New(u128, String, PeerKey),
    End(u128),
}

#[derive(Debug, Clone)]
pub enum BandwidthEvents {
    Upload(u128, u64),
    Download(u128, u64),
}

#[derive(Debug, Clone)]
pub enum Events {
    LocalPeerId(PeerKey),
    Connection(ConnectionEvents),
    Session(SessionEvents),
    Bandwidth(BandwidthEvents),
    /// Non-fatal error surface for the user interface.
    Error(String),
    /// The hub's latest candidate set for a server.
    ServerPool { port: u16, peers: Vec<PoolPeer> },
    /// A peer's current connection endpoint.
    PeerRoute { peer_id: PeerKey, address: Route, relayed: bool },
    /// The active destination peer for a server changed.
    ActiveDestination { port: u16, peer: Option<PeerKey>, source: Option<DestinationSource> },
    /// Per-rank resolvability of a server's pinned list.
    PinnedPeerStatuses { port: u16, statuses: Vec<PinnedPeerStatus> },
    /// The remembered sticky standby pool for a server.
    StickyPool { port: u16, peers: Vec<PoolPeer> },
}

} // verus!
