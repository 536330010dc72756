//! The decisions of the network actor, the sole owner of the swarm: which
//! pending dials a new connection answers or a deadline expires, when the
//! bootstrap hub is redialed, and when repeated ping failures tear a
//! connection down. The swarm itself, and every reply channel, stay with
//! the driver; dials are named by the driver's ids.
use vstd::prelude::*;

use crate::route::{keys_view, PeerKey, Route, RouteView};
use crate::selection::{contains_key, destination_peer_ids, spec_destination_peers};
use crate::route::routes_view;
use crate::errors::{DirectoryError, DirectoryErrorView};
use crate::events::{pool_peers_view, PoolPeer};
use crate::selection::{ResolvedEntry, ResolvedRoutes};
use crate::text::{concat, decimal, decimal_string};
use crate::route::{Component, ComponentView};
use crate::route::spec_with_p2p;

verus! {

/// Consecutive ping failures tolerated before tearing a connection down.
pub const MAX_PING_STRIKES: u32 = 3;

/// Dial deadline, in milliseconds.
pub const DIAL_TIMEOUT_MS: u64 = 10_000;

/// When a dial made at `now` gives up: `DIAL_TIMEOUT_MS` later, or at the
/// end of the clock.
pub open spec fn dial_deadline(now: u64) -> u64 {
    if now + DIAL_TIMEOUT_MS <= u64::MAX { (now + DIAL_TIMEOUT_MS) as u64 } else { u64::MAX }
}

/// A dial waiting for any of its candidate peers to connect.
#[derive(Debug, Clone)]
pub struct PendingDial {
    /// The driver's name for the dial's reply.
    pub id: u64,
    pub candidates: Vec<PeerKey>,
    /// When the dial gives up, in the driver's milliseconds.
    pub deadline: u64,
}

pub struct PendingView {
    pub id: u64,
    pub candidates: Seq<Seq<char>>,
    pub deadline: u64,
}

impl View for PendingDial {
    type V = PendingView;

    open spec fn view(&self) -> PendingView {
        PendingView { id: self.id, candidates: keys_view(self.candidates@), deadline: self.deadline }
    }
}

pub open spec fn pending_view(v: Seq<PendingDial>) -> Seq<PendingView> {
    v.map_values(|d: PendingDial| d@)
}

pub open spec fn ids_of(v: Seq<PendingView>) -> Seq<u64> {
    v.map_values(|d: PendingView| d.id)
}

/// The dials `peer` connecting answers.
pub open spec fn answered_by(peer: Seq<char>) -> spec_fn(PendingView) -> bool {
    |d: PendingView| d.candidates.contains(peer)
}

/// The dials whose deadline has passed at `now`.
pub open spec fn expired_at(now: u64) -> spec_fn(PendingView) -> bool {
    |d: PendingView| d.deadline <= now
}

pub open spec fn not<A>(p: spec_fn(A) -> bool) -> spec_fn(A) -> bool {
    |a: A| !p(a)
}

/// The recorded consecutive ping failures of `peer`: its first entry, or 0.
pub open spec fn strikes_of(s: Seq<(Seq<char>, u32)>, peer: Seq<char>) -> nat
    decreases s.len(),
{
    if s.len() == 0 {
        0
    } else if s[0].0 == peer {
        s[0].1 as nat
    } else {
        strikes_of(s.drop_first(), peer)
    }
}

pub struct NetworkView {
    pub pending: Seq<PendingView>,
    pub bootstrap_connected: bool,
    pub bootstrap_dialing: bool,
    pub strikes: Seq<(Seq<char>, u32)>,
}

/// The state the network actor keeps beside its swarm.
pub struct NetworkState {
    pending_dials: Vec<PendingDial>,
    bootstrap_connected: bool,
    bootstrap_dialing: bool,
    ping_strikes: Vec<(PeerKey, u32)>,
}

pub open spec fn strikes_view(v: Seq<(PeerKey, u32)>) -> Seq<(Seq<char>, u32)> {
    v.map_values(|e: (PeerKey, u32)| (e.0@, e.1))
}

impl View for NetworkState {
    type V = NetworkView;

    closed spec fn view(&self) -> NetworkView {
        NetworkView {
            pending: pending_view(self.pending_dials@),
            bootstrap_connected: self.bootstrap_connected,
            bootstrap_dialing: self.bootstrap_dialing,
            strikes: strikes_view(self.ping_strikes@),
        }
    }
}

/// A failure count is never stored at or beyond the strike limit.
pub open spec fn strikes_wf(s: Seq<(Seq<char>, u32)>) -> bool {
    forall|i: int| 0 <= i < s.len() ==> 1 <= #[trigger] s[i].1 < MAX_PING_STRIKES
}

proof fn lemma_strikes_bound(s: Seq<(Seq<char>, u32)>, peer: Seq<char>)
    requires
        strikes_wf(s),
    ensures
        strikes_of(s, peer) < MAX_PING_STRIKES,
    decreases s.len(),
{
    if s.len() > 0 && s[0].0 != peer {
        assert(strikes_wf(s.drop_first())) by {
            assert forall|i: int| 0 <= i < s.drop_first().len() implies 1 <= #[trigger] s.drop_first()[i].1 < MAX_PING_STRIKES by {
                assert(s.drop_first()[i] == s[i + 1]);
            }
        }
        lemma_strikes_bound(s.drop_first(), peer);
    }
}

impl NetworkState {
    pub open spec fn wf(&self) -> bool {
        strikes_wf(self@.strikes)
    }

    /// No dial in flight, no failures recorded; the bootstrap link is
    /// presumed up until it is seen to close.
    pub fn new() -> (s: NetworkState)
        ensures
            s.wf(),
            s@.pending == Seq::<PendingView>::empty(),
            s@.bootstrap_connected,
            !s@.bootstrap_dialing,
            s@.strikes == Seq::<(Seq<char>, u32)>::empty(),
    {
        let s = NetworkState {
            pending_dials: Vec::new(),
            bootstrap_connected: true,
            bootstrap_dialing: false,
            ping_strikes: Vec::new(),
        };
        assert(s@.pending =~= Seq::<PendingView>::empty());
        assert(s@.strikes =~= Seq::<(Seq<char>, u32)>::empty());
        s
    }

    /// Register a dial of `addresses` as `id`, made at `now`: it gives up
    /// `DIAL_TIMEOUT_MS` later (at the clock's end if that is sooner). Its
    /// candidates are the peers the addresses reach; with none, nothing is
    /// registered and the dial is answered at once with no peer (`false`).
    pub fn start_dial(&mut self, id: u64, addresses: &Vec<Route>, now: u64) -> (pending: bool)
        requires
            old(self).wf(),
        ensures
            final(self).wf(),
            pending == (spec_destination_peers(routes_view(addresses@).to_set()) != Set::<Seq<char>>::empty()),
            final(self)@.bootstrap_connected == old(self)@.bootstrap_connected,
            final(self)@.bootstrap_dialing == old(self)@.bootstrap_dialing,
            final(self)@.strikes == old(self)@.strikes,
            !pending ==> final(self)@.pending == old(self)@.pending,
            pending ==> final(self)@.pending.len() == old(self)@.pending.len() + 1
                && final(self)@.pending.drop_last() == old(self)@.pending
                && final(self)@.pending.last().id == id
                && final(self)@.pending.last().deadline == dial_deadline(now)
                && final(self)@.pending.last().candidates.to_set() == spec_destination_peers(routes_view(addresses@).to_set())
                && final(self)@.pending.last().candidates.no_duplicates(),
    {
        let candidates = destination_peer_ids(addresses);
        if candidates.len() == 0 {
            assert(keys_view(candidates@).to_set() =~= Set::<Seq<char>>::empty());
            return false;
        }
        assert(keys_view(candidates@).to_set().contains(keys_view(candidates@)[0]));
        let ghost before = self.pending_dials@;
        let deadline = now.saturating_add(DIAL_TIMEOUT_MS);
        let d = PendingDial { id, candidates, deadline };
        self.pending_dials.push(d);
        assert(pending_view(self.pending_dials@) =~= pending_view(before).push(d@));
        true
    }

    /// Answer, with `peer`, every pending dial that lists it; they leave
    /// the pending set. Returns their ids, in registration order.
    pub fn complete_pending_dials(&mut self, peer: &PeerKey) -> (answered: Vec<u64>)
        requires
            old(self).wf(),
        ensures
            final(self).wf(),
            answered@ == ids_of(old(self)@.pending.filter(answered_by(peer@))),
            final(self)@.pending == old(self)@.pending.filter(not(answered_by(peer@))),
            final(self)@.pending == dial_step(old(self)@.pending, DialEvent::Connected(peer@)),
            final(self)@.bootstrap_connected == old(self)@.bootstrap_connected,
            final(self)@.bootstrap_dialing == old(self)@.bootstrap_dialing,
            final(self)@.strikes == old(self)@.strikes,
    {
        let ghost all = pending_view(self.pending_dials@);
        let mut kept: Vec<PendingDial> = Vec::new();
        let mut answered: Vec<u64> = Vec::new();
        let mut rest: Vec<PendingDial> = Vec::new();
        std::mem::swap(&mut rest, &mut self.pending_dials);
        let mut i: usize = 0;
        while i < rest.len()
            invariant
                i <= rest.len(),
                all == pending_view(rest@),
                answered@ == ids_of(all.subrange(0, i as int).filter(answered_by(peer@))),
                pending_view(kept@) == all.subrange(0, i as int).filter(not(answered_by(peer@))),
            decreases rest.len() - i,
        {
            let ghost pre = all.subrange(0, i + 1);
            assert(pre.drop_last() =~= all.subrange(0, i as int));
            reveal_with_fuel(Seq::filter, 1);
            let hit = contains_key(&rest[i].candidates, peer);
            if hit {
                let ghost b = answered@;
                answered.push(rest[i].id);
                assert(ids_of(pre.filter(answered_by(peer@))) =~= ids_of(all.subrange(0, i as int).filter(answered_by(peer@))).push(rest@[i as int].id));
            } else {
                let d = PendingDial {
                    id: rest[i].id,
                    candidates: clone_keys(&rest[i].candidates),
                    deadline: rest[i].deadline,
                };
                let ghost b = kept@;
                kept.push(d);
                assert(pending_view(kept@) =~= pending_view(b).push(d@));
            }
            i = i + 1;
        }
        assert(all.subrange(0, rest@.len() as int) =~= all);
        self.pending_dials = kept;
        answered
    }

    /// Give up, with no peer, on every dial due at or before `now`; they
    /// leave the pending set. Returns their ids, in registration order.
    pub fn expire_dials(&mut self, now: u64) -> (expired: Vec<u64>)
        requires
            old(self).wf(),
        ensures
            final(self).wf(),
            expired@ == ids_of(old(self)@.pending.filter(expired_at(now))),
            final(self)@.pending == old(self)@.pending.filter(not(expired_at(now))),
            final(self)@.pending == dial_step(old(self)@.pending, DialEvent::Tick(now)),
            final(self)@.bootstrap_connected == old(self)@.bootstrap_connected,
            final(self)@.bootstrap_dialing == old(self)@.bootstrap_dialing,
            final(self)@.strikes == old(self)@.strikes,
    {
        let ghost all = pending_view(self.pending_dials@);
        let mut kept: Vec<PendingDial> = Vec::new();
        let mut expired: Vec<u64> = Vec::new();
        let mut rest: Vec<PendingDial> = Vec::new();
        std::mem::swap(&mut rest, &mut self.pending_dials);
        let mut i: usize = 0;
        while i < rest.len()
            invariant
                i <= rest.len(),
                all == pending_view(rest@),
                expired@ == ids_of(all.subrange(0, i as int).filter(expired_at(now))),
                pending_view(kept@) == all.subrange(0, i as int).filter(not(expired_at(now))),
            decreases rest.len() - i,
        {
            let ghost pre = all.subrange(0, i + 1);
            assert(pre.drop_last() =~= all.subrange(0, i as int));
            reveal_with_fuel(Seq::filter, 1);
            if rest[i].deadline <= now {
                expired.push(rest[i].id);
                assert(ids_of(pre.filter(expired_at(now))) =~= ids_of(all.subrange(0, i as int).filter(expired_at(now))).push(rest@[i as int].id));
            } else {
                let d = PendingDial {
                    id: rest[i].id,
                    candidates: clone_keys(&rest[i].candidates),
                    deadline: rest[i].deadline,
                };
                let ghost b = kept@;
                kept.push(d);
                assert(pending_view(kept@) =~= pending_view(b).push(d@));
            }
            i = i + 1;
        }
        assert(all.subrange(0, rest@.len() as int) =~= all);
        self.pending_dials = kept;
        expired
    }

    /// A connection to `peer` came up: it answers the dials that listed it,
    /// and one to the bootstrap hub marks the link up. Returns the answered
    /// dial ids, and whether a direct link to a non-hub peer should be
    /// reported for sticky promotion.
    pub fn on_connection_established(&mut self, peer: &PeerKey, relayed: bool, is_bootstrap: bool) -> (r: (Vec<u64>, bool))
        requires
            old(self).wf(),
        ensures
            final(self).wf(),
            r.0@ == ids_of(old(self)@.pending.filter(answered_by(peer@))),
            final(self)@.pending == old(self)@.pending.filter(not(answered_by(peer@))),
            final(self)@.bootstrap_connected == (old(self)@.bootstrap_connected || is_bootstrap),
            final(self)@.bootstrap_dialing == (old(self)@.bootstrap_dialing && !is_bootstrap),
            final(self)@.strikes == old(self)@.strikes,
            r.1 == (!relayed && !is_bootstrap),
    {
        let answered = self.complete_pending_dials(peer);
        if is_bootstrap {
            self.bootstrap_connected = true;
            self.bootstrap_dialing = false;
        }
        (answered, !relayed && !is_bootstrap)
    }

    /// A connection to `peer` closed: its failure count is forgotten, and
    /// the bootstrap link, if it was that one, is marked down.
    pub fn on_connection_closed(&mut self, peer: &PeerKey, is_bootstrap: bool)
        requires
            old(self).wf(),
        ensures
            final(self).wf(),
            final(self)@.pending == old(self)@.pending,
            final(self)@.bootstrap_connected == (old(self)@.bootstrap_connected && !is_bootstrap),
            final(self)@.bootstrap_dialing == (old(self)@.bootstrap_dialing && !is_bootstrap),
            strikes_of(final(self)@.strikes, peer@) == 0,
            forall|q: Seq<char>| q != peer@ ==> strikes_of(final(self)@.strikes, q) == strikes_of(old(self)@.strikes, q),
    {
        self.clear_strikes(peer);
        if is_bootstrap {
            self.bootstrap_connected = false;
            self.bootstrap_dialing = false;
        }
    }

    /// An outgoing connection failed; a failed dial of the bootstrap hub
    /// may be retried.
    pub fn on_outgoing_error(&mut self, is_bootstrap: bool)
        ensures
            final(self)@.pending == old(self)@.pending,
            final(self)@.bootstrap_connected == old(self)@.bootstrap_connected,
            final(self)@.bootstrap_dialing == (old(self)@.bootstrap_dialing && !is_bootstrap),
            final(self)@.strikes == old(self)@.strikes,
    {
        if is_bootstrap {
            self.bootstrap_dialing = false;
        }
    }

    /// A ping to `peer` succeeded: its failure count is forgotten.
    pub fn on_ping_success(&mut self, peer: &PeerKey)
        requires
            old(self).wf(),
        ensures
            final(self).wf(),
            final(self)@.pending == old(self)@.pending,
            final(self)@.bootstrap_connected == old(self)@.bootstrap_connected,
            final(self)@.bootstrap_dialing == old(self)@.bootstrap_dialing,
            strikes_of(final(self)@.strikes, peer@) == 0,
            forall|q: Seq<char>| q != peer@ ==> strikes_of(final(self)@.strikes, q) == strikes_of(old(self)@.strikes, q),
    {
        self.clear_strikes(peer);
    }

    /// A ping to `peer` failed. One missed ping is a transient blip; only
    /// the third consecutive failure tears the connection down (`true`),
    /// and then the count starts over.
    pub fn on_ping_failure(&mut self, peer: &PeerKey) -> (disconnect: bool)
        requires
            old(self).wf(),
        ensures
            final(self).wf(),
            disconnect == (strikes_of(old(self)@.strikes, peer@) + 1 >= MAX_PING_STRIKES),
            strikes_of(final(self)@.strikes, peer@) == (if disconnect { 0 } else { strikes_of(old(self)@.strikes, peer@) + 1 }),
            forall|q: Seq<char>| q != peer@ ==> strikes_of(final(self)@.strikes, q) == strikes_of(old(self)@.strikes, q),
            final(self)@.pending == old(self)@.pending,
            final(self)@.bootstrap_connected == old(self)@.bootstrap_connected,
            final(self)@.bootstrap_dialing == old(self)@.bootstrap_dialing,
    {
        proof { lemma_strikes_bound(self@.strikes, peer@); }
        let n = self.strikes_for(peer);
        let next = n + 1;
        if next >= MAX_PING_STRIKES {
            self.clear_strikes(peer);
            true
        } else {
            self.clear_strikes(peer);
            let ghost before = self.ping_strikes@;
            self.ping_strikes.insert(0, (peer.duplicate(), next));
            proof {
                let s = strikes_view(self.ping_strikes@);
                assert(s.drop_first() =~= strikes_view(before));
                assert forall|i: int| 0 <= i < s.len() implies 1 <= #[trigger] s[i].1 < MAX_PING_STRIKES by {
                    if i > 0 {
                        assert(s[i] == strikes_view(before)[i - 1]);
                    }
                }
            }
            false
        }
    }

    fn strikes_for(&self, peer: &PeerKey) -> (n: u32)
        ensures
            n == strikes_of(self@.strikes, peer@),
    {
        let mut i: usize = 0;
        assert(self@.strikes.subrange(0, self@.strikes.len() as int) =~= self@.strikes);
        while i < self.ping_strikes.len()
            invariant
                i <= self.ping_strikes.len(),
                strikes_of(self@.strikes, peer@) == strikes_of(self@.strikes.subrange(i as int, self@.strikes.len() as int), peer@),
            decreases self.ping_strikes.len() - i,
        {
            let ghost rest = self@.strikes.subrange(i as int, self@.strikes.len() as int);
            assert(rest.drop_first() =~= self@.strikes.subrange(i + 1, self@.strikes.len() as int));
            if self.ping_strikes[i].0.same(peer) {
                return self.ping_strikes[i].1;
            }
            i = i + 1;
        }
        0
    }

    fn clear_strikes(&mut self, peer: &PeerKey)
        requires
            old(self).wf(),
        ensures
            final(self).wf(),
            final(self)@.pending == old(self)@.pending,
            final(self)@.bootstrap_connected == old(self)@.bootstrap_connected,
            final(self)@.bootstrap_dialing == old(self)@.bootstrap_dialing,
            strikes_of(final(self)@.strikes, peer@) == 0,
            forall|q: Seq<char>| q != peer@ ==> strikes_of(final(self)@.strikes, q) == strikes_of(old(self)@.strikes, q),
    {
        let ghost all = strikes_view(self.ping_strikes@);
        let mut rest: Vec<(PeerKey, u32)> = Vec::new();
        std::mem::swap(&mut rest, &mut self.ping_strikes);
        let mut kept: Vec<(PeerKey, u32)> = Vec::new();
        let mut i: usize = rest.len();
        while i > 0
            invariant
                i <= rest.len(),
                all == strikes_view(rest@),
                strikes_wf(all),
                strikes_wf(strikes_view(kept@)),
                strikes_of(strikes_view(kept@), peer@) == 0,
                forall|q: Seq<char>| q != peer@ ==> strikes_of(strikes_view(kept@), q) == strikes_of(
                    all.subrange(i as int, all.len() as int),
                    q,
                ),
            decreases i,
        {
            i = i - 1;
            let ghost tail = all.subrange(i as int, all.len() as int);
            let ghost next = all.subrange(i + 1, all.len() as int);
            assert(tail.drop_first() =~= next);
            assert(tail[0] == all[i as int]);
            let ghost before = kept@;
            if !rest[i].0.same(peer) {
                let e = (rest[i].0.duplicate(), rest[i].1);
                kept.insert(0, e);
                proof {
                    let s = strikes_view(kept@);
                    assert(s.drop_first() =~= strikes_view(before));
                    assert(s[0] == all[i as int]);
                    assert forall|j: int| 0 <= j < s.len() implies 1 <= #[trigger] s[j].1 < MAX_PING_STRIKES by {
                        if j > 0 {
                            assert(s[j] == strikes_view(before)[j - 1]);
                        }
                    }
                    assert forall|q: Seq<char>| q != peer@ implies strikes_of(s, q) == strikes_of(tail, q) by {
                        assert(strikes_of(s, q) == if s[0].0 == q { s[0].1 as nat } else { strikes_of(s.drop_first(), q) });
                        assert(strikes_of(tail, q) == if tail[0].0 == q { tail[0].1 as nat } else { strikes_of(next, q) });
                    }
                    assert(strikes_of(s, peer@) == strikes_of(s.drop_first(), peer@));
                }
            } else {
                proof {
                    assert forall|q: Seq<char>| q != peer@ implies strikes_of(strikes_view(kept@), q) == strikes_of(tail, q) by {
                        assert(strikes_of(tail, q) == strikes_of(next, q));
                    }
                }
            }
        }
        assert(all.subrange(0, all.len() as int) =~= all);
        self.ping_strikes = kept;
    }

    /// Whether the bootstrap hub should be dialed now: only when the link
    /// is neither up nor already being dialed.
    pub fn try_dial_bootstrap(&self) -> (dial: bool)
        ensures
            dial == (!self@.bootstrap_connected && !self@.bootstrap_dialing),
    {
        !self.bootstrap_connected && !self.bootstrap_dialing
    }

    /// The bootstrap dial was initiated.
    pub fn bootstrap_dial_started(&mut self)
        ensures
            final(self)@.bootstrap_dialing,
            final(self)@.bootstrap_connected == old(self)@.bootstrap_connected,
            final(self)@.pending == old(self)@.pending,
            final(self)@.strikes == old(self)@.strikes,
    {
        self.bootstrap_dialing = true;
    }
}

fn clone_keys(v: &Vec<PeerKey>) -> (r: Vec<PeerKey>)
    ensures
        keys_view(r@) == keys_view(v@),
{
    let mut r: Vec<PeerKey> = Vec::new();
    let mut i: usize = 0;
    while i < v.len()
        invariant
            i <= v.len(),
            keys_view(r@) == keys_view(v@).subrange(0, i as int),
        decreases v.len() - i,
    {
        let k = v[i].duplicate();
        let ghost b = r@;
        r.push(k);
        i = i + 1;
        assert(keys_view(r@) =~= keys_view(b).push(k@));
        assert(keys_view(r@) =~= keys_view(v@).subrange(0, i as int));
    }
    assert(keys_view(v@).subrange(0, v@.len() as int) =~= keys_view(v@));
    r
}

/// The addresses the node listens on for `port`: TCP and QUIC, on every
/// IPv4 and every IPv6 interface.
pub open spec fn spec_listen_addresses(port: u16) -> Seq<RouteView> {
    let p = decimal(port as nat);
    seq![
        seq![ComponentView::Other("/ip4/0.0.0.0"@), ComponentView::Other("/tcp/"@ + p)],
        seq![ComponentView::Other("/ip4/0.0.0.0"@), ComponentView::Other("/udp/"@ + p), ComponentView::Other("/quic-v1"@)],
        seq![ComponentView::Other("/ip6/::"@), ComponentView::Other("/tcp/"@ + p)],
        seq![ComponentView::Other("/ip6/::"@), ComponentView::Other("/udp/"@ + p), ComponentView::Other("/quic-v1"@)],
    ]
}

/// The listen addresses for `port` (see `spec_listen_addresses`).
pub fn listen_addresses(port: u16) -> (v: Vec<Route>)
    ensures
        routes_view(v@) == spec_listen_addresses(port),
{
    let p = decimal_string(port as u128);
    let tcp = concat("/tcp/", p.as_str());
    let udp = concat("/udp/", p.as_str());
    let ghost spec = spec_listen_addresses(port);
    let r0 = Route { components: vec![Component::Other("/ip4/0.0.0.0".to_owned()), Component::Other(tcp.clone())] };
    assert(r0@ =~= spec[0]);
    let r1 = Route {
        components: vec![
            Component::Other("/ip4/0.0.0.0".to_owned()),
            Component::Other(udp.clone()),
            Component::Other("/quic-v1".to_owned()),
        ],
    };
    assert(r1@ =~= spec[1]);
    let r2 = Route { components: vec![Component::Other("/ip6/::".to_owned()), Component::Other(tcp)] };
    assert(r2@ =~= spec[2]);
    let r3 = Route {
        components: vec![
            Component::Other("/ip6/::".to_owned()),
            Component::Other(udp),
            Component::Other("/quic-v1".to_owned()),
        ],
    };
    assert(r3@ =~= spec[3]);
    let v = vec![r0, r1, r2, r3];
    assert(routes_view(v@) =~= spec_listen_addresses(port));
    v
}

/// A dial gives up exactly `DIAL_TIMEOUT_MS` after it was made: the dial
/// registered at `now` is among those `expire_dials(t)` answers just when
/// `t` is at least ten seconds later (or at the clock's end).
pub proof fn law_dial_expires_after_timeout(now: u64, t: u64, d: PendingView)
    requires
        d.deadline == dial_deadline(now),
    ensures
        now + DIAL_TIMEOUT_MS <= u64::MAX ==> ((expired_at(t))(d) <==> t >= now + DIAL_TIMEOUT_MS),
        now + DIAL_TIMEOUT_MS > u64::MAX ==> ((expired_at(t))(d) <==> t == u64::MAX),
{
}

/// What the dial table sees between registering a dial and answering it:
/// a connection to a peer, or the clock reaching a time.
pub enum DialEvent {
    Connected(Seq<char>),
    Tick(u64),
}

/// The pending dials after one event: what `complete_pending_dials` and
/// `expire_dials` leave.
pub open spec fn dial_step(pending: Seq<PendingView>, e: DialEvent) -> Seq<PendingView> {
    match e {
        DialEvent::Connected(peer) => pending.filter(not(answered_by(peer))),
        DialEvent::Tick(now) => pending.filter(not(expired_at(now))),
    }
}

/// Whether the event answers dial `d`: a connection to one of its
/// candidates (answered with that peer), or a time at or past its deadline
/// (answered with none).
pub open spec fn settles(d: PendingView, e: DialEvent) -> bool {
    match e {
        DialEvent::Connected(peer) => d.candidates.contains(peer),
        DialEvent::Tick(now) => d.deadline <= now,
    }
}

/// The pending dials after a run of events.
pub open spec fn dial_run(pending: Seq<PendingView>, events: Seq<DialEvent>) -> Seq<PendingView>
    decreases events.len(),
{
    if events.len() == 0 {
        pending
    } else {
        dial_run(dial_step(pending, events[0]), events.drop_first())
    }
}

proof fn lemma_filter_keeps(s: Seq<PendingView>, p: spec_fn(PendingView) -> bool, d: PendingView)
    ensures
        s.filter(p).contains(d) <==> (s.contains(d) && p(d)),
{
    broadcast use Seq::lemma_filter_contains_rev, Seq::lemma_filter_pred, Seq::lemma_filter_contains;
    if s.filter(p).contains(d) {
        let i = choose|i: int| 0 <= i < s.filter(p).len() && s.filter(p)[i] == d;
        assert(p(s.filter(p)[i]));
    }
    if s.contains(d) && p(d) {
        let i = choose|i: int| 0 <= i < s.len() && s[i] == d;
        assert(s.filter(p).contains(s[i]));
    }
}

proof fn lemma_dial_run_keeps(pending: Seq<PendingView>, events: Seq<DialEvent>, d: PendingView)
    ensures
        dial_run(pending, events).contains(d) <==> (pending.contains(d) && forall|j: int|
            0 <= j < events.len() ==> !settles(d, #[trigger] events[j])),
    decreases events.len(),
{
    if events.len() > 0 {
        let e = events[0];
        let rest = events.drop_first();
        lemma_dial_run_keeps(dial_step(pending, e), rest, d);
        match e {
            DialEvent::Connected(peer) => lemma_filter_keeps(pending, not(answered_by(peer)), d),
            DialEvent::Tick(now) => lemma_filter_keeps(pending, not(expired_at(now)), d),
        }
        if dial_run(pending, events).contains(d) {
            assert forall|j: int| 0 <= j < events.len() implies !settles(d, #[trigger] events[j]) by {
                if j > 0 { assert(events[j] == rest[j - 1]); }
            }
        }
        if pending.contains(d) && forall|j: int| 0 <= j < events.len() ==> !settles(d, #[trigger] events[j]) {
            assert(!settles(d, events[0]));
            assert forall|j: int| 0 <= j < rest.len() implies !settles(d, #[trigger] rest[j]) by {
                assert(rest[j] == events[j + 1]);
            }
        }
    }
}

/// A dial stays pending through a whole run of connections and clock
/// ticks until the first event that answers it, and leaves at that event:
/// it is answered only with one of its candidate peers (for a dial from
/// `start_dial`, a destination its addresses name), or with none once its
/// deadline has passed; a connection to any other peer, the hub among
/// them, leaves it waiting.
pub proof fn law_dial_run(pending: Seq<PendingView>, events: Seq<DialEvent>, d: PendingView)
    ensures
        dial_run(pending, events).contains(d) <==> (pending.contains(d) && forall|j: int|
            0 <= j < events.len() ==> !settles(d, #[trigger] events[j])),
        forall|j: int| 0 <= j < events.len() && dial_run(pending, events.take(j)).contains(d) && settles(d, events[j])
            ==> !#[trigger] dial_run(pending, events.take(j + 1)).contains(d) && pending.contains(d) && (forall|i: int|
            0 <= i < j ==> !settles(d, #[trigger] events[i])),
{
    lemma_dial_run_keeps(pending, events, d);
    assert forall|j: int| 0 <= j < events.len() && dial_run(pending, events.take(j)).contains(d) && settles(d, events[j])
        implies !#[trigger] dial_run(pending, events.take(j + 1)).contains(d) && pending.contains(d) && (forall|i: int|
        0 <= i < j ==> !settles(d, #[trigger] events[i])) by {
        lemma_dial_run_keeps(pending, events.take(j), d);
        lemma_dial_run_keeps(pending, events.take(j + 1), d);
        assert(events.take(j + 1)[j] == events[j]);
        assert forall|i: int| 0 <= i < j implies !settles(d, #[trigger] events[i]) by {
            assert(events.take(j)[i] == events[i]);
        }
    }
}

/// How many times a failed dial of the bootstrap hub is retried at startup.
pub const MAX_BOOTSTRAP_RETRIES: u32 = 10;

/// The pause before the next bootstrap attempt, in milliseconds.
pub const BOOTSTRAP_RETRY_MS: u64 = 2_000;

/// After a failed bootstrap attempt (the dial refused, or no identify
/// answer within the dial timeout), with `retries` failures before it: the
/// new failure count, when the node should pause `BOOTSTRAP_RETRY_MS` and
/// dial again; `None` once the retries are spent and startup fails.
pub fn bootstrap_retry(retries: u32) -> (next: Option<u32>)
    requires
        retries <= MAX_BOOTSTRAP_RETRIES,
    ensures
        next == (if retries + 1 > MAX_BOOTSTRAP_RETRIES { None } else { Some((retries + 1) as u32) }),
{
    let n = retries + 1;
    if n > MAX_BOOTSTRAP_RETRIES {
        None
    } else {
        Some(n)
    }
}

/// The relay-circuit address to listen on for one address the hub
/// announced: the address with the hub's id, `/p2p-circuit`, and this
/// node's id; `None` when the address already names another peer last.
pub open spec fn spec_circuit_listen(addr: RouteView, hub: Seq<char>, local: Seq<char>) -> Option<RouteView> {
    match spec_with_p2p(addr, hub) {
        Ok(r) => match spec_with_p2p(r.push(ComponentView::P2pCircuit), local) {
            Ok(c) => Some(c),
            Err(_) => None,
        },
        Err(_) => None,
    }
}

/// The circuit listen addresses for the hub's announced addresses, in
/// order, skipping those that name another peer.
pub open spec fn spec_circuit_listens(addrs: Seq<RouteView>, hub: Seq<char>, local: Seq<char>) -> Seq<RouteView>
    decreases addrs.len(),
{
    if addrs.len() == 0 {
        Seq::empty()
    } else {
        let rest = spec_circuit_listens(addrs.drop_last(), hub, local);
        match spec_circuit_listen(addrs.last(), hub, local) {
            Some(c) => rest.push(c),
            None => rest,
        }
    }
}

/// What the node listens on once the hub `hub` has identified itself with
/// `listen_addrs`: for each, a relay circuit through the hub to `local`.
pub fn circuit_listen_addresses(listen_addrs: &Vec<Route>, hub: &PeerKey, local: &PeerKey) -> (v: Vec<Route>)
    ensures
        routes_view(v@) == spec_circuit_listens(routes_view(listen_addrs@), hub@, local@),
{
    let mut v: Vec<Route> = Vec::new();
    let mut i: usize = 0;
    while i < listen_addrs.len()
        invariant
            i <= listen_addrs.len(),
            routes_view(v@) == spec_circuit_listens(routes_view(listen_addrs@).subrange(0, i as int), hub@, local@),
        decreases listen_addrs.len() - i,
    {
        let ghost pre = routes_view(listen_addrs@).subrange(0, i + 1);
        assert(pre.drop_last() =~= routes_view(listen_addrs@).subrange(0, i as int));
        assert(pre.last() == listen_addrs@[i as int]@);
        match listen_addrs[i].duplicate().with_p2p(hub) {
            Ok(with_hub) => {
                match with_hub.with(Component::P2pCircuit).with_p2p(local) {
                    Ok(c) => {
                        let ghost b = v@;
                        v.push(c);
                        assert(routes_view(v@) =~= routes_view(b).push(c@));
                    },
                    Err(_) => {},
                }
            },
            Err(_) => {},
        }
        i = i + 1;
    }
    assert(routes_view(listen_addrs@).subrange(0, listen_addrs@.len() as int) =~= routes_view(listen_addrs@));
    v
}

/// The hub caps a `FindNodes` limit at what its wire field holds.
pub fn find_nodes_limit(limit: usize) -> (l: u16)
    ensures
        l as nat == (if limit <= 65535 { limit as nat } else { 65535 }),
{
    if limit <= 65535 {
        limit as u16
    } else {
        65535
    }
}

/// A connection failure count stays below the limit at every step, so a
/// peer is torn down exactly on its third consecutive failed ping.
pub proof fn law_third_strike_disconnects(n: nat)
    requires
        n < MAX_PING_STRIKES,
    ensures
        (n + 1 >= MAX_PING_STRIKES) == (n == 2),
{
}

/// The count a peer holds after `k` consecutive failed pings from a clean
/// start, each applied as `on_ping_failure` does.
pub open spec fn strikes_after_failures(k: nat) -> nat
    decreases k,
{
    if k == 0 {
        0
    } else if strikes_after_failures((k - 1) as nat) + 1 >= MAX_PING_STRIKES {
        0
    } else {
        strikes_after_failures((k - 1) as nat) + 1
    }
}

/// Over a run of consecutive failed pings from a clean count (after a
/// success or a closed connection), the `k`-th failure disconnects exactly
/// when `k` is a multiple of three: one or two misses never do, the third
/// does, and the count then starts over.
pub proof fn law_every_third_failure_disconnects(k: nat)
    requires
        k >= 1,
    ensures
        (strikes_after_failures((k - 1) as nat) + 1 >= MAX_PING_STRIKES) == (k % 3 == 0),
        strikes_after_failures(k) == k % 3,
    decreases k,
{
    if k > 1 {
        law_every_third_failure_disconnects((k - 1) as nat);
    }
}

/// The bootstrap link of the network: the relay hub, the federated token,
/// and whether the hub is connected or being dialed.
pub struct ProxyNetwork {
    pub relay_address: Route,
    pub relay_peer_id: PeerKey,
    pub token: String,
    pub headless: bool,
    pub bootstrap_address: Route,
    pub bootstrap_connected: bool,
    pub bootstrap_dialing: bool,
}

/// The handles the discovery path borrows from a bootstrapped network.
pub struct DiscoveryEngine<'a> {
    pub relay_address: &'a Route,
    pub relay_peer_id: &'a PeerKey,
    pub token: &'a str,
    /// When set, discovery failures end the process instead of looping
    /// with error events.
    pub headless: bool,
}

impl ProxyNetwork {
    /// A network bootstrapped against `bootstrap_address`, not yet linked.
    pub fn new(relay_address: Route, relay_peer_id: PeerKey, token: String, headless: bool, bootstrap_address: Route) -> (n:
        ProxyNetwork)
        ensures
            n.relay_address == relay_address,
            n.relay_peer_id == relay_peer_id,
            n.token == token,
            n.headless == headless,
            n.bootstrap_address == bootstrap_address,
            !n.bootstrap_connected,
            !n.bootstrap_dialing,
    {
        ProxyNetwork {
            relay_address,
            relay_peer_id,
            token,
            headless,
            bootstrap_address,
            bootstrap_connected: false,
            bootstrap_dialing: false,
        }
    }

    /// The handles discovery needs.
    pub fn discovery_engine(&self) -> (e: DiscoveryEngine<'_>)
        ensures
            *e.relay_address == self.relay_address,
            *e.relay_peer_id == self.relay_peer_id,
            e.token@ == self.token@,
            e.headless == self.headless,
    {
        DiscoveryEngine {
            relay_address: &self.relay_address,
            relay_peer_id: &self.relay_peer_id,
            token: self.token.as_str(),
            headless: self.headless,
        }
    }

    /// The bootstrap address to dial now, if the hub is neither connected
    /// nor already being dialed.
    pub fn try_dial_bootstrap(&self) -> (a: Option<&Route>)
        ensures
            a is Some <==> (!self.bootstrap_connected && !self.bootstrap_dialing),
            a is Some ==> *a->0 == self.bootstrap_address,
    {
        if !self.bootstrap_connected && !self.bootstrap_dialing {
            Some(&self.bootstrap_address)
        } else {
            None
        }
    }

    /// Record the outcome of a bootstrap dial attempt: a started dial
    /// marks the link as dialing.
    pub fn bootstrap_dial_result(&mut self, started: bool)
        ensures
            final(self).bootstrap_dialing == (old(self).bootstrap_dialing || started),
            final(self).bootstrap_connected == old(self).bootstrap_connected,
            final(self).relay_address == old(self).relay_address,
            final(self).bootstrap_address == old(self).bootstrap_address,
    {
        if started {
            self.bootstrap_dialing = true;
        }
    }

    /// The bootstrap link came up or went down.
    pub fn bootstrap_link(&mut self, connected: bool)
        ensures
            final(self).bootstrap_connected == connected,
            !final(self).bootstrap_dialing,
            final(self).relay_address == old(self).relay_address,
            final(self).bootstrap_address == old(self).bootstrap_address,
    {
        self.bootstrap_connected = connected;
        self.bootstrap_dialing = false;
    }
}

/// How the hub answered a query, as the network actor sees it.
#[derive(Debug)]
pub enum HubAnswer {
    /// A node set: each node with its dial routes.
    Nodes(Vec<PoolPeer>),
    /// The hub's error reply.
    Error(String),
    /// A single-node reply where a set was asked for.
    SingleNode,
    /// The query never completed (timeout or transport failure), with its
    /// message.
    Failed(String),
    /// The request could not be signed, with the signer's message.
    SigningFailed(String),
}

/// A `ResolvePeers` query's outcome: a node set becomes the peers' routes;
/// every failure reads as a hub that cannot resolve (so the connect flow
/// falls back to relay circuits), except a single-node reply, which is a
/// rejected query.
pub fn resolve_answer(a: HubAnswer) -> (r: Result<ResolvedRoutes, DirectoryError>)
    ensures
        match a {
            HubAnswer::Nodes(v) => r matches Ok(rr) && rr@ == pool_peers_view(v@),
            HubAnswer::Error(e) => r matches Err(d) && d@ == DirectoryErrorView::Unsupported(e@),
            HubAnswer::SingleNode => r matches Err(d) && d@ == DirectoryErrorView::Rejected("expected FindNodes"@),
            HubAnswer::Failed(e) => r matches Err(d) && d@ == DirectoryErrorView::Unsupported(e@),
            HubAnswer::SigningFailed(e) => r matches Err(d) && d@ == DirectoryErrorView::Unsupported(
                "failed to sign request: "@ + e@,
            ),
        },
{
    match a {
        HubAnswer::Nodes(v) => {
            let mut entries: Vec<ResolvedEntry> = Vec::new();
            let mut rest = v;
            let ghost all = pool_peers_view(rest@);
            let mut i: usize = 0;
            let n = rest.len();
            while i < n
                invariant
                    n == rest@.len(),
                    i <= n,
                    all == pool_peers_view(rest@),
                    (ResolvedRoutes { entries })@ == all.subrange(0, i as int),
                decreases n - i,
            {
                let p = &rest[i];
                let e = ResolvedEntry { peer: p.peer_id.duplicate(), routes: clone_routes(&p.addresses) };
                let ghost before = (ResolvedRoutes { entries })@;
                entries.push(e);
                assert((ResolvedRoutes { entries })@ =~= before.push((e.peer@, routes_view(e.routes@))));
                i = i + 1;
                assert((ResolvedRoutes { entries })@ =~= all.subrange(0, i as int));
            }
            assert(all.subrange(0, n as int) =~= all);
            Ok(ResolvedRoutes { entries })
        },
        HubAnswer::Error(e) => Err(DirectoryError::Unsupported(e)),
        HubAnswer::SingleNode => Err(DirectoryError::Rejected("expected FindNodes".to_owned())),
        HubAnswer::Failed(e) => Err(DirectoryError::Unsupported(e)),
        HubAnswer::SigningFailed(e) => Err(DirectoryError::Unsupported(concat("failed to sign request: ", e.as_str()))),
    }
}

/// A `FindNodes` query's outcome: a node set is the candidate pool; the
/// hub's error or a single-node reply is a rejected query; a query that
/// never completed timed out.
pub fn find_answer(a: HubAnswer) -> (r: Result<Vec<PoolPeer>, DirectoryError>)
    ensures
        match a {
            HubAnswer::Nodes(v) => r matches Ok(c) && pool_peers_view(c@) == pool_peers_view(v@),
            HubAnswer::Error(e) => r matches Err(d) && d@ == DirectoryErrorView::Rejected(e@),
            HubAnswer::SingleNode => r matches Err(d) && d@ == DirectoryErrorView::Rejected("expected FindNodes"@),
            HubAnswer::Failed(_) => r matches Err(d) && d@ == DirectoryErrorView::Timeout,
            HubAnswer::SigningFailed(e) => r matches Err(d) && d@ == DirectoryErrorView::Rejected(
                "failed to sign request: "@ + e@,
            ),
        },
{
    match a {
        HubAnswer::Nodes(v) => Ok(v),
        HubAnswer::Error(e) => Err(DirectoryError::Rejected(e)),
        HubAnswer::SingleNode => Err(DirectoryError::Rejected("expected FindNodes".to_owned())),
        HubAnswer::Failed(_) => Err(DirectoryError::Timeout),
        HubAnswer::SigningFailed(e) => Err(DirectoryError::Rejected(concat("failed to sign request: ", e.as_str()))),
    }
}

fn clone_routes(v: &Vec<Route>) -> (r: Vec<Route>)
    ensures
        routes_view(r@) == routes_view(v@),
{
    let mut r: Vec<Route> = Vec::new();
    let mut i: usize = 0;
    while i < v.len()
        invariant
            i <= v.len(),
            routes_view(r@) == routes_view(v@).subrange(0, i as int),
        decreases v.len() - i,
    {
        let x = v[i].duplicate();
        let ghost b = r@;
        r.push(x);
        i = i + 1;
        assert(routes_view(r@) =~= routes_view(b).push(x@));
        assert(routes_view(r@) =~= routes_view(v@).subrange(0, i as int));
    }
    assert(routes_view(v@).subrange(0, v@.len() as int) =~= routes_view(v@));
    r
}

/// The network before authentication.
pub struct AuthStep;

/// The network after authentication, holding its federated token.
pub struct NetworkConnect {
    pub token: String,
}

} // verus!
