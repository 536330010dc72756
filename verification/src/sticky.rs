//! In-memory exit-peer affinity: per listen port, a pool of proven-good
//! exits, most-recently-active first. Pure: persistence wraps it.
use std::collections::HashMap;
use vstd::prelude::*;

use crate::route::{keys_view, lemma_keys_view_push, PeerKey, Route, RouteView};
use crate::time::now_unix_micros;
use crate::events::{pool_peers_view, PoolPeer};
use vstd::std_specs::iter::IteratorSpec;

verus! {

broadcast use vstd::std_specs::hash::group_hash_axioms;

/// One remembered exit peer.
#[derive(Debug, Clone)]
pub struct StickyPeer {
    pub peer_id: PeerKey,
    /// Last-known direct (non-circuit) address this peer was reached on.
    pub address: Option<Route>,
    /// When the peer was last adopted, in microseconds since the Unix epoch.
    pub updated_at: i64,
}

/// A server's remembered exits and the filter fingerprint they were
/// chosen under.
#[derive(Debug, Clone)]
pub struct StickyPool {
    pub fingerprint: String,
    pub peers: Vec<StickyPeer>,
}

pub struct StickyPeerView {
    pub peer: Seq<char>,
    pub address: Option<RouteView>,
    pub updated_at: i64,
}

pub struct PoolView {
    pub fingerprint: Seq<char>,
    pub peers: Seq<StickyPeerView>,
}

pub open spec fn opt_route_view(a: Option<Route>) -> Option<RouteView> {
    match a {
        Some(r) => Some(r@),
        None => None,
    }
}

impl View for StickyPeer {
    type V = StickyPeerView;

    open spec fn view(&self) -> StickyPeerView {
        StickyPeerView { peer: self.peer_id@, address: opt_route_view(self.address), updated_at: self.updated_at }
    }
}

pub open spec fn peers_view(v: Seq<StickyPeer>) -> Seq<StickyPeerView> {
    v.map_values(|p: StickyPeer| p@)
}

impl View for StickyPool {
    type V = PoolView;

    open spec fn view(&self) -> PoolView {
        PoolView { fingerprint: self.fingerprint@, peers: peers_view(self.peers@) }
    }
}

/// The peer ids of a pool, in order.
pub open spec fn pool_ids(peers: Seq<StickyPeerView>) -> Seq<Seq<char>> {
    peers.map_values(|p: StickyPeerView| p.peer)
}

/// The first position of `peer` in `peers`.
pub open spec fn spec_find(peers: Seq<StickyPeerView>, peer: Seq<char>) -> Option<int> {
    if exists|i: int| 0 <= i < peers.len() && peers[i].peer == peer && (forall|j: int| 0 <= j < i ==> peers[j].peer != peer) {
        Some(choose|i: int| 0 <= i < peers.len() && peers[i].peer == peer && (forall|j: int| 0 <= j < i ==> peers[j].peer != peer))
    } else {
        None
    }
}

/// `s` cut to at most `n` elements.
pub open spec fn truncate<A>(s: Seq<A>, n: nat) -> Seq<A> {
    if s.len() <= n { s } else { s.take(n as int) }
}

/// The pool size bound: `max`, but at least one.
pub open spec fn cap(max: nat) -> nat {
    if max == 0 { 1 } else { max }
}

/// The members of `port`'s pool that still count under `fingerprint`: all
/// of them when it matches, none when it changed or there is no pool.
pub open spec fn pool_base(m: Map<u16, PoolView>, port: u16, fingerprint: Seq<char>) -> Seq<StickyPeerView> {
    if m.contains_key(port) && m[port].fingerprint == fingerprint {
        m[port].peers
    } else {
        Seq::empty()
    }
}

/// The state after reading `port`'s pool under `fingerprint`: a pool
/// remembered under another fingerprint is dropped.
pub open spec fn pool_effect(m: Map<u16, PoolView>, port: u16, fingerprint: Seq<char>) -> Map<u16, PoolView> {
    if m.contains_key(port) && m[port].fingerprint != fingerprint {
        m.remove(port)
    } else {
        m
    }
}

/// The state after forgetting `peer` on `port`: its entries leave the
/// pool, and a pool left empty is removed.
pub open spec fn forget_effect(m: Map<u16, PoolView>, port: u16, peer: Seq<char>) -> Map<u16, PoolView> {
    if !m.contains_key(port) {
        m
    } else if without_peer(m[port].peers, peer).len() == 0 {
        m.remove(port)
    } else {
        m.insert(port, PoolView { fingerprint: m[port].fingerprint, peers: without_peer(m[port].peers, peer) })
    }
}

/// The remembered direct address of `peer` in `port`'s pool.
pub open spec fn direct_of(m: Map<u16, PoolView>, port: u16, peer: Seq<char>) -> Option<RouteView> {
    if m.contains_key(port) && spec_find(m[port].peers, peer) is Some {
        m[port].peers[spec_find(m[port].peers, peer)->0].address
    } else {
        None
    }
}

/// `after` is `before` with `peer` remembered on `port` under
/// `fingerprint`, at some instant.
pub open spec fn remembered_into(
    before: Map<u16, PoolView>,
    after: Map<u16, PoolView>,
    port: u16,
    fingerprint: Seq<char>,
    peer: Seq<char>,
    max: nat,
) -> bool {
    exists|t: i64|
        after == before.insert(
            port,
            PoolView { fingerprint, peers: remembered_peers(pool_base(before, port, fingerprint), peer, t, max) },
        )
}

/// `peer` promoted to the front (keeping a known address), the rest in
/// order, cut to the bound.
pub open spec fn remembered_peers(base: Seq<StickyPeerView>, peer: Seq<char>, now: i64, max: nat) -> Seq<StickyPeerView> {
    match spec_find(base, peer) {
        Some(i) => truncate(
            seq![StickyPeerView { peer, address: base[i].address, updated_at: now }] + base.remove(i),
            cap(max),
        ),
        None => truncate(
            seq![StickyPeerView { peer, address: None, updated_at: now }] + base,
            cap(max),
        ),
    }
}

/// The pool without any member `peer`.
pub open spec fn without_peer(peers: Seq<StickyPeerView>, peer: Seq<char>) -> Seq<StickyPeerView> {
    peers.filter(|p: StickyPeerView| p.peer != peer)
}

/// `peer`'s first entry, if any, with its address set to `address`.
pub open spec fn noted_peers(peers: Seq<StickyPeerView>, peer: Seq<char>, address: RouteView) -> Seq<StickyPeerView> {
    match spec_find(peers, peer) {
        Some(i) => peers.update(i, StickyPeerView { peer: peers[i].peer, address: Some(address), updated_at: peers[i].updated_at }),
        None => peers,
    }
}

/// The first standby (never the front) that has no direct address.
pub open spec fn spec_first_relay_only(peers: Seq<StickyPeerView>) -> Option<int> {
    if exists|i: int| 1 <= i < peers.len() && peers[i].address is None && (forall|j: int| 1 <= j < i ==> peers[j].address is Some) {
        Some(choose|i: int| 1 <= i < peers.len() && peers[i].address is None && (forall|j: int| 1 <= j < i ==> peers[j].address is Some))
    } else {
        None
    }
}

/// A directly-connected `peer` joins the pool with its real `address`: a
/// member has its address refreshed; otherwise it is appended, first
/// evicting the earliest relay-only standby (never the front) when the
/// pool is full; when every standby has an address, the full pool is kept.
/// The flag says whether the pool changed.
pub open spec fn promoted_peers(
    base: Seq<StickyPeerView>,
    peer: Seq<char>,
    address: RouteView,
    now: i64,
    max: nat,
) -> (Seq<StickyPeerView>, bool) {
    let fresh = StickyPeerView { peer, address: Some(address), updated_at: now };
    match spec_find(base, peer) {
        Some(i) => if base[i].address == Some(address) {
            (base, false)
        } else {
            (base.update(i, StickyPeerView { peer: base[i].peer, address: Some(address), updated_at: base[i].updated_at }), true)
        },
        None => if base.len() >= cap(max) {
            match spec_first_relay_only(base) {
                None => (base, false),
                Some(j) => (base.remove(j).push(fresh), true),
            }
        } else {
            (base.push(fresh), true)
        },
    }
}

/// The members of `peers` no peer id of which occurs twice.
pub open spec fn ids_unique(peers: Seq<StickyPeerView>) -> bool {
    forall|i: int, j: int| 0 <= i < peers.len() && 0 <= j < peers.len() && i != j ==> peers[i].peer != peers[j].peer
}

proof fn lemma_find_first(peers: Seq<StickyPeerView>, peer: Seq<char>, i: int)
    requires
        0 <= i < peers.len(),
        peers[i].peer == peer,
        forall|j: int| 0 <= j < i ==> peers[j].peer != peer,
    ensures
        spec_find(peers, peer) == Some(i),
{
    let k = choose|k: int| 0 <= k < peers.len() && peers[k].peer == peer && (forall|j: int| 0 <= j < k ==> peers[j].peer != peer);
    if k < i {
        assert(peers[k].peer != peer);
    } else if k > i {
        assert(peers[i].peer != peer);
    }
}

proof fn lemma_find_none(peers: Seq<StickyPeerView>, peer: Seq<char>)
    requires
        forall|j: int| 0 <= j < peers.len() ==> peers[j].peer != peer,
    ensures
        spec_find(peers, peer) is None,
{
}

proof fn lemma_find_some(peers: Seq<StickyPeerView>, peer: Seq<char>)
    requires
        spec_find(peers, peer) is Some,
    ensures
        0 <= spec_find(peers, peer)->0 < peers.len(),
        peers[spec_find(peers, peer)->0].peer == peer,
        forall|j: int| 0 <= j < spec_find(peers, peer)->0 ==> peers[j].peer != peer,
{
}

proof fn lemma_first_relay_only(peers: Seq<StickyPeerView>, i: int)
    requires
        1 <= i < peers.len(),
        peers[i].address is None,
        forall|j: int| 1 <= j < i ==> peers[j].address is Some,
    ensures
        spec_first_relay_only(peers) == Some(i),
{
    let k = choose|k: int| 1 <= k < peers.len() && peers[k].address is None && (forall|j: int| 1 <= j < k ==> peers[j].address is Some);
    if k < i {
        assert(peers[k].address is Some);
    } else if k > i {
        assert(peers[i].address is Some);
    }
}

/// The ports of `pools`, each once.
fn ports_of(pools: &HashMap<u16, StickyPool>) -> (v: Vec<u16>)
    ensures
        v@.no_duplicates(),
        v@.to_set() == pools@.dom(),
{
    let ghost all = IteratorSpec::remaining(&vstd::std_specs::hash::spec_keys_iter(pools));
    let mut ports: Vec<u16> = Vec::new();
    for k in it: pools.keys()
        invariant
            it.seq() == all,
            ports@.len() == it.index(),
            forall|j: int| 0 <= j < it.index() ==> ports@[j] == *all[j],
    {
        ports.push(*k);
    }
    proof {
        assert(ports@ =~= all.unref());
    }
    ports
}

/// In-memory exit-peer affinity: per listen port, a pool of proven-good
/// exits (most-recently-active first).
#[derive(Debug, Clone)]
pub struct StickyState {
    pools: HashMap<u16, StickyPool>,
}

impl View for StickyState {
    type V = Map<u16, PoolView>;

    closed spec fn view(&self) -> Map<u16, PoolView> {
        self.pools@.map_values(|p: StickyPool| p@)
    }
}

impl Default for StickyState {
    fn default() -> (s: StickyState)
        ensures
            s@ == Map::<u16, PoolView>::empty(),
            s.wf(),
    {
        StickyState::new()
    }
}

impl StickyState {
    /// No pool repeats a peer.
    pub open spec fn wf(&self) -> bool {
        forall|port: u16| #[trigger] self@.contains_key(port) ==> ids_unique(self@[port].peers)
    }

    /// No remembered pools.
    pub fn new() -> (s: StickyState)
        ensures
            s@ == Map::<u16, PoolView>::empty(),
            s.wf(),
    {
        let s = StickyState { pools: HashMap::new() };
        assert(s@ =~= Map::<u16, PoolView>::empty());
        s
    }

    /// The state holding exactly `pools`.
    pub fn from_pools(pools: HashMap<u16, StickyPool>) -> (s: StickyState)
        ensures
            s@ == pools@.map_values(|p: StickyPool| p@),
    {
        StickyState { pools }
    }

    /// The remembered pools.
    pub fn pools(&self) -> (p: &HashMap<u16, StickyPool>)
        ensures
            p@.map_values(|p: StickyPool| p@) == self@,
    {
        &self.pools
    }

    proof fn lemma_view_insert(&self, other: &StickyState, port: u16, pool: StickyPool)
        requires
            other.pools@ == self.pools@.insert(port, pool),
        ensures
            other@ == self@.insert(port, pool@),
    {
        assert(other@ =~= self@.insert(port, pool@));
    }

    proof fn lemma_view_remove(&self, other: &StickyState, port: u16)
        requires
            other.pools@ == self.pools@.remove(port),
        ensures
            other@ == self@.remove(port),
    {
        assert(other@ =~= self@.remove(port));
    }

    /// Take `port`'s pool out, or a fresh one, reset when its fingerprint
    /// differs: what every promotion starts from.
    fn take_base(&mut self, port: u16, fingerprint: &str) -> (pool: StickyPool)
        ensures
            pool@.fingerprint == fingerprint@,
            pool@.peers == pool_base(old(self)@, port, fingerprint@),
            final(self)@ == old(self)@.remove(port),
    {
        let ghost before = *self;
        let taken = self.pools.remove(&port);
        proof { before.lemma_view_remove(self, port); }
        let fp = fingerprint.to_owned();
        match taken {
            Some(p) => {
                if p.fingerprint == fp {
                    p
                } else {
                    let pool = StickyPool { fingerprint: fp, peers: Vec::new() };
                    assert(peers_view(pool.peers@) =~= Seq::<StickyPeerView>::empty());
                    pool
                }
            },
            None => {
                let pool = StickyPool { fingerprint: fp, peers: Vec::new() };
                assert(peers_view(pool.peers@) =~= Seq::<StickyPeerView>::empty());
                pool
            },
        }
    }

    /// The remembered exit pool for `port` (most-recently-active first),
    /// provided the server's filters have not changed since the peers were
    /// chosen. A fingerprint mismatch drops the whole pool.
    pub fn pool(&mut self, port: u16, fingerprint: &str) -> (peers: Vec<PeerKey>)
        ensures
            keys_view(peers@) == pool_ids(pool_base(old(self)@, port, fingerprint@)),
            final(self)@ == pool_effect(old(self)@, port, fingerprint@),
    {
        let fp = fingerprint.to_owned();
        let matches = match self.pools.get(&port) {
            None => None,
            Some(pool) => Some(pool.fingerprint == fp),
        };
        match matches {
            None => {
                let v: Vec<PeerKey> = Vec::new();
                assert(keys_view(v@) =~= pool_ids(pool_base(self@, port, fingerprint@)));
                v
            },
            Some(true) => {
                let pool = self.pools.get(&port).unwrap();
                let mut v: Vec<PeerKey> = Vec::new();
                let mut i: usize = 0;
                while i < pool.peers.len()
                    invariant
                        i <= pool.peers.len(),
                        keys_view(v@) == pool_ids(peers_view(pool.peers@)).subrange(0, i as int),
                    decreases pool.peers.len() - i,
                {
                    let k = pool.peers[i].peer_id.duplicate();
                    proof { lemma_keys_view_push(v@, k); }
                    v.push(k);
                    i = i + 1;
                    assert(keys_view(v@) =~= pool_ids(peers_view(pool.peers@)).subrange(0, i as int));
                }
                assert(pool_ids(peers_view(pool.peers@)).subrange(0, pool.peers@.len() as int) =~= pool_ids(peers_view(pool.peers@)));
                v
            },
            Some(false) => {
                let ghost before = *self;
                self.pools.remove(&port);
                proof { before.lemma_view_remove(self, port); }
                let v: Vec<PeerKey> = Vec::new();
                assert(keys_view(v@) =~= pool_ids(pool_base(before@, port, fingerprint@)));
                v
            },
        }
    }

    /// The first position of `peer` in `peers`.
    fn find_peer(peers: &Vec<StickyPeer>, peer: &PeerKey) -> (idx: Option<usize>)
        ensures
            match idx {
                Some(i) => spec_find(peers_view(peers@), peer@) == Some(i as int),
                None => spec_find(peers_view(peers@), peer@) is None,
            },
    {
        let mut i: usize = 0;
        while i < peers.len()
            invariant
                i <= peers.len(),
                forall|j: int| 0 <= j < i ==> peers_view(peers@)[j].peer != peer@,
            decreases peers.len() - i,
        {
            if peers[i].peer_id.same(peer) {
                proof { lemma_find_first(peers_view(peers@), peer@, i as int); }
                return Some(i);
            }
            i = i + 1;
        }
        proof { lemma_find_none(peers_view(peers@), peer@); }
        None
    }

    /// The remembered direct address for a pool member, if one was observed.
    pub fn direct_address(&self, port: u16, peer: &PeerKey) -> (a: Option<Route>)
        ensures
            opt_route_view(a) == direct_of(self@, port, peer@),
    {
        match self.pools.get(&port) {
            None => None,
            Some(pool) => {
                match Self::find_peer(&pool.peers, peer) {
                    None => None,
                    Some(i) => match &pool.peers[i].address {
                        Some(r) => Some(r.duplicate()),
                        None => None,
                    },
                }
            },
        }
    }

    /// Promote `peer` to the front of `port`'s pool (most-recently-active),
    /// capping the pool at `max` (at least one). A fingerprint change resets
    /// the pool; an existing member keeps its remembered address. Returns
    /// `true` when this changed which peer is at the front.
    pub fn remember(&mut self, port: u16, fingerprint: &str, peer: PeerKey, max: usize) -> (changed: bool)
        ensures
            final(self)@ == old(self)@.insert(port, (PoolView {
                fingerprint: fingerprint@,
                peers: remembered_peers(
                    pool_base(old(self)@, port, fingerprint@),
                    peer@,
                    final(self)@[port].peers[0].updated_at,
                    max as nat,
                ),
            })),
            changed == !(pool_base(old(self)@, port, fingerprint@).len() > 0
                && pool_base(old(self)@, port, fingerprint@)[0].peer == peer@),
    {
        let limit = if max == 0 { 1 } else { max };
        let ghost before = *self;
        let mut pool = self.take_base(port, fingerprint);
        let ghost base = pool@.peers;
        let was_front = pool.peers.len() > 0 && pool.peers[0].peer_id.same(&peer);
        let now = now_unix_micros();
        let idx = Self::find_peer(&pool.peers, &peer);
        let entry = match idx {
            Some(i) => {
                let mut e = pool.peers.remove(i);
                e.updated_at = now;
                e
            },
            None => StickyPeer { peer_id: peer, address: None, updated_at: now },
        };
        let ghost rest = pool.peers@;
        pool.peers.insert(0, entry);
        pool.peers.truncate(limit);
        proof {
            let front = entry@;
            assert(peers_view(rest.insert(0, entry)) =~= seq![front] + peers_view(rest));
            match spec_find(base, peer@) {
                Some(i) => {
                    assert(peers_view(rest) =~= base.remove(i));
                },
                None => {
                    assert(peers_view(rest) =~= base);
                },
            }
            assert(peers_view(pool.peers@) =~= remembered_peers(base, peer@, now, max as nat));
        }
        let ghost mid = *self;
        self.pools.insert(port, pool);
        proof {
            mid.lemma_view_insert(self, port, pool);
            assert(before@.remove(port).insert(port, pool@) =~= before@.insert(port, pool@));
        }
        !was_front
    }

    /// The earliest standby (never the front) without a direct address.
    fn first_relay_only(peers: &Vec<StickyPeer>) -> (idx: Option<usize>)
        ensures
            match idx {
                Some(i) => spec_first_relay_only(peers_view(peers@)) == Some(i as int),
                None => spec_first_relay_only(peers_view(peers@)) is None,
            },
    {
        let mut i: usize = 1;
        while i < peers.len()
            invariant
                1 <= i,
                i <= peers.len() || peers.len() == 0,
                forall|j: int| 1 <= j < i && j < peers.len() ==> peers_view(peers@)[j].address is Some,
            decreases peers.len() - i,
        {
            if peers[i].address.is_none() {
                proof { lemma_first_relay_only(peers_view(peers@), i as int); }
                return Some(i);
            }
            i = i + 1;
        }
        None
    }

    /// The pool-level step of `promote_connected`.
    #[verifier::spinoff_prover]
    #[verifier::rlimit(40)]
    fn promote_in(peers: &mut Vec<StickyPeer>, peer: PeerKey, address: Route, max: usize) -> (changed: bool)
        ensures
            peers_view(final(peers)@) == promoted_peers(
                peers_view(old(peers)@),
                peer@,
                address@,
                peers_view(final(peers)@).last().updated_at,
                max as nat,
            ).0,
            changed == promoted_peers(
                peers_view(old(peers)@),
                peer@,
                address@,
                peers_view(final(peers)@).last().updated_at,
                max as nat,
            ).1,
    {
        let limit = if max == 0 { 1 } else { max };
        let ghost base = peers_view(peers@);
        match Self::find_peer(peers, &peer) {
            Some(i) => {
                let same = match &peers[i].address {
                    Some(a) => a.same(&address),
                    None => false,
                };
                if same {
                    false
                } else {
                    let mut e = peers.remove(i);
                    e.address = Some(address);
                    peers.insert(i, e);
                    proof {
                        assert(peers_view(peers@) =~= base.update(i as int, StickyPeerView {
                            peer: base[i as int].peer,
                            address: Some(address@),
                            updated_at: base[i as int].updated_at,
                        }));
                    }
                    true
                }
            },
            None => {
                if peers.len() >= limit {
                    match Self::first_relay_only(peers) {
                        None => {
                            return false;
                        },
                        Some(j) => {
                            peers.remove(j);
                            proof { assert(peers_view(peers@) =~= base.remove(j as int)); }
                        },
                    }
                }
                let now = now_unix_micros();
                let ghost pre = peers@;
                let e = StickyPeer { peer_id: peer, address: Some(address), updated_at: now };
                peers.push(e);
                proof { assert(peers_view(peers@) =~= peers_view(pre).push(e@)); }
                true
            },
        }
    }

    /// Promote a directly-connected `peer` into `port`'s pool with its real
    /// `address`, so the pool fills with proven, directly-reachable exits
    /// rather than relay-only candidates. When the pool is full a relay-only
    /// standby is evicted to make room, never the front (active) peer; a
    /// pool full of address-having members is left as it is. A fingerprint
    /// change resets the pool first. Returns `true` when the pool changed.
    pub fn promote_connected(&mut self, port: u16, fingerprint: &str, peer: PeerKey, address: Route, max: usize) -> (changed: bool)
        ensures
            final(self)@ == old(self)@.insert(port, (PoolView {
                fingerprint: fingerprint@,
                peers: promoted_peers(
                    pool_base(old(self)@, port, fingerprint@),
                    peer@,
                    address@,
                    final(self)@[port].peers.last().updated_at,
                    max as nat,
                ).0,
            })),
            changed == promoted_peers(
                pool_base(old(self)@, port, fingerprint@),
                peer@,
                address@,
                final(self)@[port].peers.last().updated_at,
                max as nat,
            ).1,
    {
        let ghost before = *self;
        let mut pool = self.take_base(port, fingerprint);
        let changed = Self::promote_in(&mut pool.peers, peer, address, max);
        let ghost mid = *self;
        self.pools.insert(port, pool);
        proof {
            mid.lemma_view_insert(self, port, pool);
            assert(before@.remove(port).insert(port, pool@) =~= before@.insert(port, pool@));
        }
        changed
    }

    /// Record the direct address observed for `peer` in whichever pools it
    /// already belongs to. Never adds a peer: a directly-connected peer that
    /// was never adopted as an exit (such as a hub) does not enter a pool.
    pub fn note_direct_address(&mut self, peer: &PeerKey, address: &Route)
        ensures
            final(self)@.dom() == old(self)@.dom(),
            forall|port: u16| #[trigger] old(self)@.contains_key(port) ==> final(self)@[port] == (PoolView {
                fingerprint: old(self)@[port].fingerprint,
                peers: noted_peers(old(self)@[port].peers, peer@, address@),
            }),
    {
        let ghost start = self@;
        let ports = ports_of(&self.pools);
        proof {
            assert(ports@.to_set() =~= start.dom());
        }
        let mut i: usize = 0;
        while i < ports.len()
            invariant
                i <= ports.len(),
                ports@.no_duplicates(),
                ports@.to_set() == start.dom(),
                self@.dom() == start.dom(),
                forall|port: u16| #[trigger] start.contains_key(port) ==> self@[port] == (
                    if ports@.subrange(0, i as int).contains(port) {
                        PoolView { fingerprint: start[port].fingerprint, peers: noted_peers(start[port].peers, peer@, address@) }
                    } else {
                        start[port]
                    }),
            decreases ports.len() - i,
        {
            let port = ports[i];
            let ghost before = *self;
            assert(start.contains_key(port)) by { assert(ports@.to_set().contains(port)); }
            assert(!ports@.subrange(0, i as int).contains(port));
            let mut pool = self.pools.remove(&port).unwrap();
            proof { before.lemma_view_remove(self, port); }
            assert(pool@ == start[port]);
            match Self::find_peer(&pool.peers, peer) {
                Some(j) => {
                    let ghost old_peers = pool.peers@;
                    let mut e = pool.peers.remove(j);
                    e.address = Some(address.duplicate());
                    pool.peers.insert(j, e);
                    proof {
                        assert(peers_view(pool.peers@) =~= noted_peers(peers_view(old_peers), peer@, address@));
                    }
                },
                None => {},
            }
            assert(pool@ == (PoolView { fingerprint: start[port].fingerprint, peers: noted_peers(start[port].peers, peer@, address@) }));
            let ghost mid = *self;
            self.pools.insert(port, pool);
            proof {
                mid.lemma_view_insert(self, port, pool);
                assert(ports@.subrange(0, i + 1) =~= ports@.subrange(0, i as int).push(port));
                assert forall|p: u16| #[trigger] start.contains_key(p) implies self@[p] == (
                    if ports@.subrange(0, i + 1).contains(p) {
                        PoolView { fingerprint: start[p].fingerprint, peers: noted_peers(start[p].peers, peer@, address@) }
                    } else {
                        start[p]
                    }) by {
                    if p != port {
                        assert(ports@.subrange(0, i + 1).contains(p) == ports@.subrange(0, i as int).contains(p));
                    } else {
                        assert(ports@.subrange(0, i + 1)[i as int] == port);
                    }
                }
                assert(self@.dom() =~= start.dom());
            }
            i = i + 1;
        }
        proof {
            assert forall|port: u16| #[trigger] start.contains_key(port) implies ports@.subrange(0, ports@.len() as int).contains(port) by {
                assert(ports@.to_set().contains(port));
                assert(ports@.subrange(0, ports@.len() as int) =~= ports@);
            }
        }
    }

    /// The remembered pool for display: every member with its remembered
    /// direct address, if any. Read-only: unlike `pool`, a fingerprint
    /// mismatch shows nothing but drops nothing.
    pub fn snapshot(&self, port: u16, fingerprint: &str) -> (v: Vec<PoolPeer>)
        ensures
            pool_peers_view(v@) == pool_base(self@, port, fingerprint@).map_values(
                |p: StickyPeerView| (p.peer, match p.address {
                    Some(a) => seq![a],
                    None => Seq::<RouteView>::empty(),
                }),
            ),
    {
        let fp = fingerprint.to_owned();
        let ghost base = pool_base(self@, port, fingerprint@);
        let mut out: Vec<PoolPeer> = Vec::new();
        match self.pools.get(&port) {
            Some(pool) => {
                if pool.fingerprint == fp {
                    let mut i: usize = 0;
                    while i < pool.peers.len()
                        invariant
                            i <= pool.peers.len(),
                            base == peers_view(pool.peers@),
                            pool_peers_view(out@) == base.subrange(0, i as int).map_values(
                                |p: StickyPeerView| (p.peer, match p.address {
                                    Some(a) => seq![a],
                                    None => Seq::<RouteView>::empty(),
                                }),
                            ),
                        decreases pool.peers.len() - i,
                    {
                        let mut addresses: Vec<Route> = Vec::new();
                        match &pool.peers[i].address {
                            Some(a) => {
                                addresses.push(a.duplicate());
                            },
                            None => {},
                        }
                        let e = PoolPeer { peer_id: pool.peers[i].peer_id.duplicate(), addresses };
                        assert(e@.1 =~= match base[i as int].address {
                            Some(a) => seq![a],
                            None => Seq::<RouteView>::empty(),
                        });
                        let ghost b = out@;
                        out.push(e);
                        assert(pool_peers_view(out@) =~= pool_peers_view(b).push(e@));
                        i = i + 1;
                        assert(pool_peers_view(out@) =~= base.subrange(0, i as int).map_values(
                            |p: StickyPeerView| (p.peer, match p.address {
                                Some(a) => seq![a],
                                None => Seq::<RouteView>::empty(),
                            }),
                        ));
                    }
                    assert(base.subrange(0, base.len() as int) =~= base);
                } else {
                    assert(pool_peers_view(out@) =~= Seq::<(Seq<char>, Seq<RouteView>)>::empty());
                }
            },
            None => {
                assert(pool_peers_view(out@) =~= Seq::<(Seq<char>, Seq<RouteView>)>::empty());
            },
        }
        proof {
            assert(pool_peers_view(out@) =~= pool_base(self@, port, fingerprint@).map_values(
                |p: StickyPeerView| (p.peer, match p.address {
                    Some(a) => seq![a],
                    None => Seq::<RouteView>::empty(),
                }),
            ));
        }
        out
    }

    /// Drop every entry of `peer` from `port`'s pool; a pool left empty is
    /// removed.
    pub fn forget_peer(&mut self, port: u16, peer: &PeerKey)
        ensures
            final(self)@ == forget_effect(old(self)@, port, peer@),
    {
        let ghost before = *self;
        match self.pools.remove(&port) {
            None => {
                proof { before.lemma_view_remove(self, port); assert(self@ =~= before@); }
            },
            Some(pool) => {
                proof { before.lemma_view_remove(self, port); }
                let ghost old_peers = peers_view(pool.peers@);
                let mut kept: Vec<StickyPeer> = Vec::new();
                let mut i: usize = 0;
                let StickyPool { fingerprint, peers } = pool;
                while i < peers.len()
                    invariant
                        i <= peers.len(),
                        old_peers == peers_view(peers@),
                        peers_view(kept@) == old_peers.subrange(0, i as int).filter(|p: StickyPeerView| p.peer != peer@),
                    decreases peers.len() - i,
                {
                    let ghost pre = old_peers.subrange(0, i + 1);
                    assert(pre.drop_last() =~= old_peers.subrange(0, i as int));
                    reveal_with_fuel(Seq::filter, 1);
                    if !peers[i].peer_id.same(peer) {
                        let e = StickyPeer {
                            peer_id: peers[i].peer_id.duplicate(),
                            address: match &peers[i].address { Some(r) => Some(r.duplicate()), None => None },
                            updated_at: peers[i].updated_at,
                        };
                        let ghost kb = kept@;
                        kept.push(e);
                        assert(peers_view(kept@) =~= peers_view(kb).push(old_peers[i as int]));
                    }
                    i = i + 1;
                }
                assert(old_peers.subrange(0, peers@.len() as int) =~= old_peers);
                if kept.len() == 0 {
                    proof {
                        assert(self@ =~= before@.remove(port));
                    }
                } else {
                    let np = StickyPool { fingerprint, peers: kept };
                    let ghost mid = *self;
                    self.pools.insert(port, np);
                    proof {
                        mid.lemma_view_insert(self, port, np);
                        assert(before@.remove(port).insert(port, np@) =~= before@.insert(port, np@));
                    }
                }
            },
        }
    }
}

} // verus!

verus! {

/// The test "is not `x`".
pub open spec fn other_than<A>(x: A) -> spec_fn(A) -> bool {
    |y: A| y != x
}

/// Filtering out an element that occurs exactly once, at `i`, removes
/// position `i`.
proof fn lemma_filter_single<A>(s: Seq<A>, x: A, i: int)
    requires
        0 <= i < s.len(),
        s[i] == x,
        forall|j: int| 0 <= j < s.len() && j != i ==> s[j] != x,
    ensures
        s.filter(other_than(x)) == s.remove(i),
    decreases s.len(),
{
    reveal_with_fuel(Seq::filter, 1);
    if i == s.len() - 1 {
        lemma_filter_none(s.drop_last(), x);
        assert(s.remove(i) =~= s.drop_last());
    } else {
        lemma_filter_single(s.drop_last(), x, i);
        assert(s.remove(i) =~= s.drop_last().remove(i).push(s.last()));
    }
}

/// Filtering out an element that does not occur changes nothing.
proof fn lemma_filter_none<A>(s: Seq<A>, x: A)
    requires
        forall|j: int| 0 <= j < s.len() ==> s[j] != x,
    ensures
        s.filter(other_than(x)) == s,
    decreases s.len(),
{
    reveal_with_fuel(Seq::filter, 1);
    if s.len() > 0 {
        lemma_filter_none(s.drop_last(), x);
        assert(s =~= s.drop_last().push(s.last()));
    }
}

proof fn lemma_pool_ids_take(s: Seq<StickyPeerView>, n: nat)
    ensures
        pool_ids(truncate(s, n)) == truncate(pool_ids(s), n),
{
    assert(pool_ids(truncate(s, n)) =~= truncate(pool_ids(s), n));
}

/// Remembering a peer makes it the most-recently-used member: it leads
/// the pool, every other member keeps its relative order, no peer appears
/// twice, and the pool never exceeds its bound (`max`, at least one).
pub proof fn law_remember_is_mru(base: Seq<StickyPeerView>, peer: Seq<char>, now: i64, max: nat)
    requires
        ids_unique(base),
    ensures
        pool_ids(remembered_peers(base, peer, now, max)) == truncate(
            seq![peer] + pool_ids(base).filter(other_than(peer)),
            cap(max),
        ),
        ids_unique(remembered_peers(base, peer, now, max)),
        remembered_peers(base, peer, now, max).len() >= 1,
        remembered_peers(base, peer, now, max).len() <= cap(max),
        remembered_peers(base, peer, now, max)[0].peer == peer,
        remembered_peers(base, peer, now, max)[0].updated_at == now,
{
    let ids = pool_ids(base);
    match spec_find(base, peer) {
        Some(i) => {
            lemma_find_some(base, peer);
            assert forall|j: int| 0 <= j < ids.len() && j != i implies ids[j] != peer by {
                assert(base[i].peer == peer);
            }
            lemma_filter_single(ids, peer, i);
            let front = StickyPeerView { peer, address: base[i].address, updated_at: now };
            let full = seq![front] + base.remove(i);
            assert(pool_ids(full) =~= seq![peer] + ids.remove(i));
            lemma_pool_ids_take(full, cap(max));
            assert(remembered_peers(base, peer, now, max) == truncate(full, cap(max)));
            assert(ids.filter(other_than(peer)) == ids.remove(i));
            assert(ids_unique(full)) by {
                assert forall|a: int, b: int| 0 <= a < full.len() && 0 <= b < full.len() && a != b implies full[a].peer != full[b].peer by {
                    if a > 0 && b > 0 {
                        let a1 = if a - 1 < i { a - 1 } else { a };
                        let b1 = if b - 1 < i { b - 1 } else { b };
                        assert(full[a] == base[a1]);
                        assert(full[b] == base[b1]);
                    } else if a == 0 {
                        let b1 = if b - 1 < i { b - 1 } else { b };
                        assert(full[b] == base[b1]);
                    } else {
                        let a1 = if a - 1 < i { a - 1 } else { a };
                        assert(full[a] == base[a1]);
                    }
                }
            }
        },
        None => {
            assert forall|j: int| 0 <= j < ids.len() implies ids[j] != peer by {
                if base[j].peer == peer {
                    let k = choose|k: int| 0 <= k < base.len() && base[k].peer == peer;
                    // the first occurrence of `peer` would be found
                    lemma_first_occurrence(base, peer, j);
                }
            }
            lemma_filter_none(ids, peer);
            let front = StickyPeerView { peer, address: None, updated_at: now };
            let full = seq![front] + base;
            assert(pool_ids(full) =~= seq![peer] + ids);
            lemma_pool_ids_take(full, cap(max));
            assert(remembered_peers(base, peer, now, max) == truncate(full, cap(max)));
            assert(ids.filter(other_than(peer)) == ids);
            assert(ids_unique(full)) by {
                assert forall|a: int, b: int| 0 <= a < full.len() && 0 <= b < full.len() && a != b implies full[a].peer != full[b].peer by {
                    if a > 0 && b > 0 {
                        assert(full[a] == base[a - 1]);
                        assert(full[b] == base[b - 1]);
                    } else if a == 0 {
                        assert(full[b] == base[b - 1]);
                        assert(ids[b - 1] != peer);
                    } else {
                        assert(full[a] == base[a - 1]);
                        assert(ids[a - 1] != peer);
                    }
                }
            }
        },
    }
}

/// Remembering never loses what is known of a member: a peer already in
/// the pool keeps its remembered direct address as it moves to the front
/// (only its time changes), a newcomer starts with none, and every other
/// member that stays is carried over whole.
pub proof fn law_remember_keeps_address(base: Seq<StickyPeerView>, peer: Seq<char>, now: i64, max: nat)
    requires
        ids_unique(base),
    ensures
        forall|j: int| 0 <= j < base.len() && (#[trigger] base[j]).peer == peer
            ==> remembered_peers(base, peer, now, max)[0].address == base[j].address,
        (forall|j: int| 0 <= j < base.len() ==> (#[trigger] base[j]).peer != peer)
            ==> remembered_peers(base, peer, now, max)[0].address is None,
        forall|k: int| 1 <= k < remembered_peers(base, peer, now, max).len()
            ==> base.contains(#[trigger] remembered_peers(base, peer, now, max)[k])
            && remembered_peers(base, peer, now, max)[k].peer != peer,
{
    law_remember_is_mru(base, peer, now, max);
    let r = remembered_peers(base, peer, now, max);
    match spec_find(base, peer) {
        Some(i) => {
            lemma_find_some(base, peer);
            assert forall|j: int| 0 <= j < base.len() && (#[trigger] base[j]).peer == peer implies r[0].address == base[j].address by {
                if j != i {
                    assert(base[i].peer == base[j].peer);
                }
            }
            let full = seq![StickyPeerView { peer, address: base[i].address, updated_at: now }] + base.remove(i);
            assert forall|k: int| 1 <= k < r.len() implies base.contains(#[trigger] r[k]) && r[k].peer != peer by {
                assert(r[k] == full[k]);
                let k1 = if k - 1 < i { k - 1 } else { k };
                assert(full[k] == base[k1]);
                assert(k1 != i);
            }
        },
        None => {
            assert forall|j: int| 0 <= j < base.len() implies (#[trigger] base[j]).peer != peer by {
                if base[j].peer == peer {
                    lemma_first_occurrence(base, peer, j);
                }
            }
            let full = seq![StickyPeerView { peer, address: None, updated_at: now }] + base;
            assert forall|k: int| 1 <= k < r.len() implies base.contains(#[trigger] r[k]) && r[k].peer != peer by {
                assert(r[k] == full[k]);
                assert(full[k] == base[k - 1]);
            }
        },
    }
}

/// Some position holding `peer` means `spec_find` finds one.
proof fn lemma_first_occurrence(peers: Seq<StickyPeerView>, peer: Seq<char>, j: int)
    requires
        0 <= j < peers.len(),
        peers[j].peer == peer,
    ensures
        spec_find(peers, peer) is Some,
    decreases j,
{
    if exists|k: int| 0 <= k < j && peers[k].peer == peer {
        let k = choose|k: int| 0 <= k < j && peers[k].peer == peer;
        lemma_first_occurrence(peers, peer, k);
    } else {
        lemma_find_first(peers, peer, j);
    }
}

/// Forgetting a peer removes exactly its entries and keeps every other
/// member in order.
pub proof fn law_forget_keeps_rest(peers: Seq<StickyPeerView>, peer: Seq<char>)
    requires
        ids_unique(peers),
    ensures
        pool_ids(without_peer(peers, peer)) == pool_ids(peers).filter(other_than(peer)),
        ids_unique(without_peer(peers, peer)),
    decreases peers.len(),
{
    reveal_with_fuel(Seq::filter, 1);
    if peers.len() > 0 {
        let init = peers.drop_last();
        assert(ids_unique(init)) by {
            assert forall|a: int, b: int| 0 <= a < init.len() && 0 <= b < init.len() && a != b implies init[a].peer != init[b].peer by {
                assert(init[a] == peers[a] && init[b] == peers[b]);
            }
        }
        law_forget_keeps_rest(init, peer);
        assert(pool_ids(peers).drop_last() =~= pool_ids(init));
        let w = without_peer(init, peer);
        if peers.last().peer != peer {
            assert(without_peer(peers, peer) == w.push(peers.last()));
            assert(pool_ids(w.push(peers.last())) =~= pool_ids(w).push(peers.last().peer));
            // the last member occurs nowhere earlier
            lemma_filter_members(init, peer);
            assert forall|a: int, b: int| 0 <= a < w.len() + 1 && 0 <= b < w.len() + 1 && a != b implies
                w.push(peers.last())[a].peer != w.push(peers.last())[b].peer by {
                if a == w.len() {
                    if init.to_set().contains(w[b]) {
                        let k = choose|k: int| 0 <= k < init.len() && init[k] == w[b];
                        assert(peers[k].peer != peers[peers.len() - 1].peer);
                    }
                } else if b == w.len() {
                    if init.to_set().contains(w[a]) {
                        let k = choose|k: int| 0 <= k < init.len() && init[k] == w[a];
                        assert(peers[k].peer != peers[peers.len() - 1].peer);
                    }
                }
            }
        } else {
            assert(without_peer(peers, peer) == w);
        }
    } else {
        assert(pool_ids(without_peer(peers, peer)) =~= pool_ids(peers).filter(other_than(peer)));
    }
}

/// Every member of a filtered pool is a member of the pool.
proof fn lemma_filter_members(peers: Seq<StickyPeerView>, peer: Seq<char>)
    ensures
        forall|i: int| 0 <= i < without_peer(peers, peer).len() ==> peers.to_set().contains(#[trigger] without_peer(peers, peer)[i]),
{
    let w = without_peer(peers, peer);
    assert forall|i: int| 0 <= i < w.len() implies peers.to_set().contains(#[trigger] w[i]) by {
        peers.lemma_filter_contains_rev(|p: StickyPeerView| p.peer != peer, w[i]);
        assert(w.contains(w[i]));
    }
}

/// Recording a direct address never adds or removes a member.
pub proof fn law_note_never_adds(peers: Seq<StickyPeerView>, peer: Seq<char>, address: RouteView)
    ensures
        pool_ids(noted_peers(peers, peer, address)) == pool_ids(peers),
        spec_find(peers, peer) is Some ==> noted_peers(peers, peer, address)[spec_find(peers, peer)->0].address == Some(address),
{
    assert(pool_ids(noted_peers(peers, peer, address)) =~= pool_ids(peers));
}

/// A filter change is remembered as a dropped pool: once `pool` has seen a
/// different fingerprint, the port has no pool left under any fingerprint.
pub proof fn law_invalidation_is_sticky(m: Map<u16, PoolView>, port: u16, fp: Seq<char>, later: Seq<char>)
    requires
        m.contains_key(port),
        m[port].fingerprint != fp,
    ensures
        pool_base(m.remove(port), port, later) == Seq::<StickyPeerView>::empty(),
{
}

/// Promoting a connected peer never evicts or replaces the front (active)
/// member, never repeats a peer, keeps a pool within its bound, and leaves
/// the peer a member whenever it was one or the pool changed.
pub proof fn law_promote_keeps_front(base: Seq<StickyPeerView>, peer: Seq<char>, address: RouteView, now: i64, max: nat)
    requires
        ids_unique(base),
        base.len() <= cap(max),
    ensures
        base.len() > 0 ==> promoted_peers(base, peer, address, now, max).0[0].peer == base[0].peer,
        ids_unique(promoted_peers(base, peer, address, now, max).0),
        promoted_peers(base, peer, address, now, max).0.len() <= cap(max),
        spec_find(base, peer) is Some || promoted_peers(base, peer, address, now, max).1
            ==> pool_ids(promoted_peers(base, peer, address, now, max).0).contains(peer),
{
    match spec_find(base, peer) {
        Some(i) => {
            lemma_find_some(base, peer);
            let r = promoted_peers(base, peer, address, now, max).0;
            assert(r[i].peer == peer);
            assert(pool_ids(r)[i] == peer);
        },
        None => {
            assert forall|j: int| 0 <= j < base.len() implies base[j].peer != peer by {
                if base[j].peer == peer {
                    lemma_first_occurrence(base, peer, j);
                }
            }
            let fresh = StickyPeerView { peer, address: Some(address), updated_at: now };
            if base.len() >= cap(max) {
                match spec_first_relay_only(base) {
                    None => {},
                    Some(j) => {
                        let r = base.remove(j).push(fresh);
                        assert(r[0] == base[0]);
                        assert(pool_ids(r)[r.len() - 1] == peer);
                        assert forall|a: int, b: int| 0 <= a < r.len() && 0 <= b < r.len() && a != b implies r[a].peer != r[b].peer by {
                            if a < r.len() - 1 && b < r.len() - 1 {
                                let a1 = if a < j { a } else { a + 1 };
                                let b1 = if b < j { b } else { b + 1 };
                                assert(r[a] == base[a1] && r[b] == base[b1]);
                            } else if a < r.len() - 1 {
                                let a1 = if a < j { a } else { a + 1 };
                                assert(r[a] == base[a1]);
                            } else if b < r.len() - 1 {
                                let b1 = if b < j { b } else { b + 1 };
                                assert(r[b] == base[b1]);
                            }
                        }
                    },
                }
            } else {
                let r = base.push(fresh);
                assert(pool_ids(r)[r.len() - 1] == peer);
                assert forall|a: int, b: int| 0 <= a < r.len() && 0 <= b < r.len() && a != b implies r[a].peer != r[b].peer by {
                    if a < base.len() && b < base.len() {
                        assert(r[a] == base[a] && r[b] == base[b]);
                    } else if a < base.len() {
                        assert(r[a] == base[a]);
                    } else if b < base.len() {
                        assert(r[b] == base[b]);
                    }
                }
            }
        },
    }
}

proof fn lemma_earliest_relay_only(peers: Seq<StickyPeerView>, i: int)
    requires
        1 <= i < peers.len(),
        peers[i].address is None,
    ensures
        spec_first_relay_only(peers) is Some,
    decreases i,
{
    if forall|j: int| 1 <= j < i ==> peers[j].address is Some {
        lemma_first_relay_only(peers, i);
    } else {
        let j = choose|j: int| 1 <= j < i && !(peers[j].address is Some);
        lemma_earliest_relay_only(peers, j);
    }
}

/// What promoting a directly-connected peer does, case by case: the pool
/// is left as it was (and `false` returned) exactly when the peer is a
/// member already holding that address, or is a newcomer to a full pool
/// whose every standby has a direct address; a member has only its
/// address changed; a newcomer is appended with its address, after the
/// earliest address-less standby (never the front) is dropped when the
/// pool is full.
pub proof fn law_promote_outcome(base: Seq<StickyPeerView>, peer: Seq<char>, address: RouteView, now: i64, max: nat)
    ensures
        !promoted_peers(base, peer, address, now, max).1 <==> (
            (spec_find(base, peer) matches Some(i) && base[i].address == Some(address))
            || (spec_find(base, peer) is None && base.len() >= cap(max)
                && forall|i: int| 1 <= i < base.len() ==> (#[trigger] base[i]).address is Some)),
        !promoted_peers(base, peer, address, now, max).1 ==> promoted_peers(base, peer, address, now, max).0 == base,
        spec_find(base, peer) matches Some(i) ==> {
            let r = promoted_peers(base, peer, address, now, max).0;
            &&& r.len() == base.len()
            &&& forall|j: int| 0 <= j < base.len() && j != i ==> #[trigger] r[j] == base[j]
            &&& r[i] == (StickyPeerView { peer, address: Some(address), updated_at: base[i].updated_at })
        },
        spec_find(base, peer) is None && promoted_peers(base, peer, address, now, max).1 ==> {
            let r = promoted_peers(base, peer, address, now, max).0;
            &&& r.len() > 0
            &&& r.last() == (StickyPeerView { peer, address: Some(address), updated_at: now })
            &&& base.len() < cap(max) ==> r.drop_last() == base
            &&& base.len() >= cap(max) ==> exists|i: int| 1 <= i < base.len() && base[i].address is None
                && (forall|j: int| 1 <= j < i ==> (#[trigger] base[j]).address is Some)
                && r.drop_last() == base.remove(i)
        },
{
    match spec_find(base, peer) {
        Some(i) => {
            lemma_find_some(base, peer);
        },
        None => {
            let fresh = StickyPeerView { peer, address: Some(address), updated_at: now };
            if base.len() >= cap(max) {
                if exists|i: int| 1 <= i < base.len() && !((#[trigger] base[i]).address is Some) {
                    let i = choose|i: int| 1 <= i < base.len() && !((#[trigger] base[i]).address is Some);
                    lemma_earliest_relay_only(base, i);
                    let j = spec_first_relay_only(base)->0;
                    let r = base.remove(j).push(fresh);
                    assert(r.drop_last() =~= base.remove(j));
                } else {
                    if spec_first_relay_only(base) is Some {
                        let j = spec_first_relay_only(base)->0;
                        assert(base[j].address is Some);
                    }
                }
            } else {
                assert(base.push(fresh).drop_last() =~= base);
            }
        },
    }
}

} // verus!

verus! {

/// The store file's current format version.
pub const STORE_VERSION: u32 = 2;

/// How a store file is read, by the version it declares.
#[derive(Debug, Clone, Copy, PartialEq, Eq, Structural)]
pub enum StoreFormat {
    /// The current pool format.
    Current,
    /// The single-peer format, migrated to one-member pools.
    V1,
    /// Anything else: the store starts empty.
    Unknown(u32),
}

/// The format of a file declaring `version`; a file whose version cannot be
/// read counts as version 0.
pub fn store_format(version: Option<u32>) -> (f: StoreFormat)
    ensures
        f == (match version {
            Some(v) => if v == STORE_VERSION {
                StoreFormat::Current
            } else if v == 1 {
                StoreFormat::V1
            } else {
                StoreFormat::Unknown(v)
            },
            None => StoreFormat::Unknown(0),
        }),
{
    match version {
        Some(v) => if v == STORE_VERSION {
            StoreFormat::Current
        } else if v == 1 {
            StoreFormat::V1
        } else {
            StoreFormat::Unknown(v)
        },
        None => StoreFormat::Unknown(0),
    }
}

/// One server's entry in a version-1 store: a single remembered peer.
#[derive(Debug, Clone)]
pub struct StickyEntryV1 {
    pub port: u16,
    pub peer_id: PeerKey,
    pub fingerprint: String,
    /// Microseconds since the Unix epoch.
    pub updated_at: i64,
}

/// The one-member pool a version-1 entry becomes.
pub open spec fn migrated(e: StickyEntryV1) -> PoolView {
    PoolView {
        fingerprint: e.fingerprint@,
        peers: seq![StickyPeerView { peer: e.peer_id@, address: None, updated_at: e.updated_at }],
    }
}

/// Migrate a version-1 store (one entry per port) so existing affinity
/// survives the upgrade: each entry becomes a one-member pool with no
/// remembered address.
pub fn migrate_v1(entries: Vec<StickyEntryV1>) -> (pools: HashMap<u16, StickyPool>)
    requires
        entries@.map_values(|e: StickyEntryV1| e.port).no_duplicates(),
    ensures
        pools@.dom() == entries@.map_values(|e: StickyEntryV1| e.port).to_set(),
        forall|i: int| 0 <= i < entries@.len() ==> pools@[#[trigger] entries@[i].port]@ == migrated(entries@[i]),
{
    let ghost ports = entries@.map_values(|e: StickyEntryV1| e.port);
    let mut pools: HashMap<u16, StickyPool> = HashMap::new();
    let mut i: usize = 0;
    while i < entries.len()
        invariant
            i <= entries.len(),
            ports == entries@.map_values(|e: StickyEntryV1| e.port),
            ports.no_duplicates(),
            pools@.dom() == ports.subrange(0, i as int).to_set(),
            forall|j: int| 0 <= j < i ==> pools@[#[trigger] entries@[j].port]@ == migrated(entries@[j]),
        decreases entries.len() - i,
    {
        let e = &entries[i];
        let peer = StickyPeer { peer_id: e.peer_id.duplicate(), address: None, updated_at: e.updated_at };
        let mut peers: Vec<StickyPeer> = Vec::new();
        peers.push(peer);
        let pool = StickyPool { fingerprint: e.fingerprint.clone(), peers };
        assert(peers_view(pool.peers@) =~= seq![peer@]);
        assert(pool@ == migrated(entries@[i as int]));
        proof { crate::route::lemma_prefix_set_step(ports, i as int); }
        pools.insert(e.port, pool);
        proof {
            assert forall|j: int| 0 <= j < i + 1 implies pools@[#[trigger] entries@[j].port]@ == migrated(entries@[j]) by {
                if j < i {
                    assert(ports[j] != ports[i as int]);
                }
            }
        }
        i = i + 1;
    }
    assert(ports.subrange(0, entries@.len() as int) =~= ports);
    pools
}

/// A store file as read and decoded by the version it declares.
pub enum StoreContents {
    /// No file, or one that could not be read.
    Missing,
    /// A current-format file: its pools, or `None` when its body is malformed.
    Current(Option<HashMap<u16, StickyPool>>),
    /// A version-1 file: its entries (one per port), or `None` when its body
    /// is malformed.
    V1(Option<Vec<StickyEntryV1>>),
    /// A file of another version, or one that is not a store at all.
    Unknown(u32),
}

/// The pools a store starts with: loading never fails. A missing,
/// malformed or unknown file gives an empty store; a current file gives
/// its pools; a version-1 file gives one one-member pool per entry.
pub fn loaded_pools(contents: StoreContents) -> (pools: HashMap<u16, StickyPool>)
    requires
        contents matches StoreContents::V1(Some(es)) ==> es@.map_values(|e: StickyEntryV1| e.port).no_duplicates(),
    ensures
        contents matches StoreContents::Current(Some(p)) ==> pools@ == p@,
        contents matches StoreContents::V1(Some(es)) ==> {
            &&& pools@.dom() == es@.map_values(|e: StickyEntryV1| e.port).to_set()
            &&& forall|i: int| 0 <= i < es@.len() ==> pools@[#[trigger] es@[i].port]@ == migrated(es@[i])
        },
        (contents is Missing || contents is Unknown || contents matches StoreContents::Current(None)
            || contents matches StoreContents::V1(None)) ==> pools@ == Map::<u16, StickyPool>::empty(),
{
    match contents {
        StoreContents::Current(Some(p)) => p,
        StoreContents::V1(Some(es)) => migrate_v1(es),
        _ => HashMap::new(),
    }
}

} // verus!
