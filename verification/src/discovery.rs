//! The decisions of the discovery actor: which ports an exit's disconnect
//! leaves dark and whether each is rediscovered now or after the
//! rediscovery cooldown, and which ports are stuck on a relay-only exit
//! when a direct peer appears. Times are the driver's monotonic
//! milliseconds.
use vstd::prelude::*;

use crate::events::Events;
use crate::route::{keys_view, PeerKey};

verus! {

/// Minimum gap between eager rediscoveries of one port, in milliseconds.
pub const REDISCOVERY_COOLDOWN_MS: u64 = 30_000;

/// What an exit's disconnect asks for one port it was serving.
#[derive(Debug, Clone, Copy, PartialEq, Eq, Structural)]
pub enum ClosedAction {
    /// Rediscover now, avoiding the peer that dropped.
    Rediscover { port: u16 },
    /// The port was rediscovered within the cooldown: its destination is
    /// cleared, and, unless one is already scheduled, a rediscovery is
    /// scheduled after the remaining milliseconds.
    Throttle { port: u16, retry_after_ms: Option<u64> },
}

pub struct DiscoveryView {
    /// The active exit of each configured port.
    pub destinations: Seq<(u16, Option<Seq<char>>)>,
    /// When each port was last rediscovered.
    pub last: Seq<(u16, u64)>,
    /// Ports with a rediscovery scheduled.
    pub pending: Seq<u16>,
    /// Peers currently connected directly (not through a relay).
    pub direct: Seq<Seq<char>>,
}

/// The per-port state of the discovery actor.
pub struct DiscoveryState {
    destinations: Vec<(u16, Option<PeerKey>)>,
    last_rediscovery: Vec<(u16, u64)>,
    pending_rediscovery: Vec<u16>,
    direct_peers: Vec<PeerKey>,
}

pub open spec fn dest_view(v: Seq<(u16, Option<PeerKey>)>) -> Seq<(u16, Option<Seq<char>>)> {
    v.map_values(|e: (u16, Option<PeerKey>)| (e.0, match e.1 {
        Some(k) => Some(k@),
        None => None,
    }))
}

impl View for DiscoveryState {
    type V = DiscoveryView;

    closed spec fn view(&self) -> DiscoveryView {
        DiscoveryView {
            destinations: dest_view(self.destinations@),
            last: self.last_rediscovery@,
            pending: self.pending_rediscovery@,
            direct: keys_view(self.direct_peers@),
        }
    }
}

/// When `port` was last rediscovered: its first record.
pub open spec fn last_of(s: Seq<(u16, u64)>, port: u16) -> Option<u64>
    decreases s.len(),
{
    if s.len() == 0 {
        None
    } else if s[0].0 == port {
        Some(s[0].1)
    } else {
        last_of(s.drop_first(), port)
    }
}

/// Milliseconds from `at` to `now`, zero if `now` is earlier.
pub open spec fn elapsed(at: u64, now: u64) -> nat {
    if now >= at { (now - at) as nat } else { 0 }
}

/// Whether a port last rediscovered at `last` is still cooling down.
pub open spec fn cooling(last: Option<u64>, now: u64) -> bool {
    match last {
        Some(at) => elapsed(at, now) < REDISCOVERY_COOLDOWN_MS,
        None => false,
    }
}

/// What a disconnect asks for `port`.
pub open spec fn action_for(last: Option<u64>, scheduled: bool, port: u16, now: u64) -> ClosedAction {
    if cooling(last, now) {
        ClosedAction::Throttle {
            port,
            retry_after_ms: if scheduled {
                None
            } else {
                Some((REDISCOVERY_COOLDOWN_MS - elapsed(last->0, now)) as u64)
            },
        }
    } else {
        ClosedAction::Rediscover { port }
    }
}

/// The ports whose active exit is `peer`, in order.
pub open spec fn served_by(dest: Seq<(u16, Option<Seq<char>>)>, peer: Seq<char>) -> Seq<u16> {
    dest.filter(|e: (u16, Option<Seq<char>>)| e.1 == Some(peer)).map_values(|e: (u16, Option<Seq<char>>)| e.0)
}

pub open spec fn ports_of(dest: Seq<(u16, Option<Seq<char>>)>) -> Seq<u16> {
    dest.map_values(|e: (u16, Option<Seq<char>>)| e.0)
}

/// The ports stuck on a relay-only exit other than `candidate`.
pub open spec fn relay_stuck(d: DiscoveryView, candidate: Seq<char>) -> Seq<u16> {
    d.destinations.filter(
        |e: (u16, Option<Seq<char>>)| e.1 is Some && e.1->0 != candidate && !d.direct.contains(e.1->0),
    ).map_values(|e: (u16, Option<Seq<char>>)| e.0)
}

/// What a disconnect at `now` asks for `q`, in state `d`.
pub open spec fn action_at(d: DiscoveryView, q: u16, now: u64) -> ClosedAction {
    action_for(last_of(d.last, q), d.pending.contains(q), q, now)
}

/// Whether `q` is among `served` and a disconnect at `now` throttles it.
pub open spec fn throttles(d: DiscoveryView, served: Seq<u16>, q: u16, now: u64) -> bool {
    served.contains(q) && action_at(d, q, now) is Throttle
}

/// Whether `q` is among `served` and a disconnect at `now` rediscovers it.
pub open spec fn rediscovers(d: DiscoveryView, served: Seq<u16>, q: u16, now: u64) -> bool {
    served.contains(q) && action_at(d, q, now) is Rediscover
}

impl DiscoveryState {
    /// Each configured port appears once.
    pub open spec fn wf(&self) -> bool {
        ports_of(self@.destinations).no_duplicates()
    }

    /// No active exits yet for `ports` (each listed once).
    pub fn new(ports: &Vec<u16>) -> (s: DiscoveryState)
        requires
            ports@.no_duplicates(),
        ensures
            s.wf(),
            ports_of(s@.destinations) == ports@,
            forall|i: int| 0 <= i < s@.destinations.len() ==> (#[trigger] s@.destinations[i]).1 is None,
            s@.last == Seq::<(u16, u64)>::empty(),
            s@.pending == Seq::<u16>::empty(),
            s@.direct == Seq::<Seq<char>>::empty(),
    {
        let mut destinations: Vec<(u16, Option<PeerKey>)> = Vec::new();
        let mut i: usize = 0;
        while i < ports.len()
            invariant
                i <= ports.len(),
                ports_of(dest_view(destinations@)) == ports@.subrange(0, i as int),
                forall|j: int| 0 <= j < destinations@.len() ==> (#[trigger] destinations@[j]).1 is None,
            decreases ports.len() - i,
        {
            let ghost b = destinations@;
            destinations.push((ports[i], None));
            assert(dest_view(destinations@) =~= dest_view(b).push((ports@[i as int], None::<Seq<char>>)));
            assert(ports_of(dest_view(destinations@)) =~= ports_of(dest_view(b)).push(ports@[i as int]));
            assert(ports_of(dest_view(destinations@)) =~= ports@.subrange(0, i + 1));
            i = i + 1;
        }
        assert(ports@.subrange(0, ports@.len() as int) =~= ports@);
        let s = DiscoveryState {
            destinations,
            last_rediscovery: Vec::new(),
            pending_rediscovery: Vec::new(),
            direct_peers: Vec::new(),
        };
        assert(s@.direct =~= Seq::<Seq<char>>::empty());
        s
    }

    /// The active exit of `port`, if any.
    pub fn active(&self, port: u16) -> (a: Option<PeerKey>)
        ensures
            match a {
                Some(k) => exists|i: int| 0 <= i < self@.destinations.len() && self@.destinations[i] == (port, Some(k@)),
                None => forall|i: int| 0 <= i < self@.destinations.len() && #[trigger] self@.destinations[i].0 == port
                    ==> self@.destinations[i].1 is None,
            },
    {
        let mut i: usize = 0;
        while i < self.destinations.len()
            invariant
                i <= self.destinations.len(),
                forall|j: int| 0 <= j < i && #[trigger] self@.destinations[j].0 == port ==> self@.destinations[j].1 is None,
            decreases self.destinations.len() - i,
        {
            if self.destinations[i].0 == port {
                match &self.destinations[i].1 {
                    Some(k) => {
                        assert(self@.destinations[i as int] == (port, Some(k@)));
                        return Some(k.duplicate());
                    },
                    None => {},
                }
            }
            i = i + 1;
        }
        None
    }

    /// Make `peer` the active exit of `port` (or clear it with `None`).
    pub fn set_destination(&mut self, port: u16, peer: Option<PeerKey>)
        requires
            old(self).wf(),
        ensures
            final(self).wf(),
            final(self)@.destinations.len() == old(self)@.destinations.len(),
            forall|i: int| 0 <= i < old(self)@.destinations.len() ==> #[trigger] final(self)@.destinations[i] == (
                if old(self)@.destinations[i].0 == port {
                    (port, match peer {
                        Some(k) => Some(k@),
                        None => None,
                    })
                } else {
                    old(self)@.destinations[i]
                }),
            final(self)@.last == old(self)@.last,
            final(self)@.pending == old(self)@.pending,
            final(self)@.direct == old(self)@.direct,
    {
        let ghost pv = match &peer {
            Some(k) => Some(k@),
            None => None::<Seq<char>>,
        };
        let ghost before = dest_view(self.destinations@);
        let ghost other = (self.last_rediscovery@, self.pending_rediscovery@, self.direct_peers@);
        let mut i: usize = 0;
        while i < self.destinations.len()
            invariant
                i <= self.destinations.len(),
                self.destinations@.len() == before.len(),
                other == (self.last_rediscovery@, self.pending_rediscovery@, self.direct_peers@),
                pv == (match peer {
                    Some(k) => Some(k@),
                    None => None::<Seq<char>>,
                }),
                dest_view(self.destinations@).len() == before.len(),
                forall|j: int| 0 <= j < before.len() ==> #[trigger] dest_view(self.destinations@)[j] == (
                    if j < i && before[j].0 == port { (port, pv) } else { before[j] }),
            decreases self.destinations.len() - i,
        {
            assert(dest_view(self.destinations@)[i as int] == before[i as int]);
            assert(dest_view(self.destinations@)[i as int].0 == self.destinations@[i as int].0);
            if self.destinations[i].0 == port {
                let p = match &peer {
                    Some(k) => Some(k.duplicate()),
                    None => None,
                };
                let ghost b = self.destinations@;
                assert((match p {
                    Some(k) => Some(k@),
                    None => None::<Seq<char>>,
                }) == pv);
                self.destinations.set(i, (port, p));
                assert(dest_view(self.destinations@) =~= dest_view(b).update(i as int, (port, pv)));
            }
            proof {
                assert forall|j: int| 0 <= j < before.len() implies #[trigger] dest_view(self.destinations@)[j] == (
                    if j < i + 1 && before[j].0 == port { (port, pv) } else { before[j] }) by {
                    if j != i {
                        assert(dest_view(self.destinations@)[j] == (if j < i && before[j].0 == port { (port, pv) } else { before[j] }));
                    }
                }
            }
            i = i + 1;
        }
        assert(ports_of(dest_view(self.destinations@)) =~= ports_of(before));
    }

    /// A discovery run for `port` has begun: any scheduled one is spent.
    pub fn discovery_started(&mut self, port: u16)
        ensures
            final(self)@.pending == old(self)@.pending.filter(|p: u16| p != port),
            final(self)@.destinations == old(self)@.destinations,
            final(self)@.last == old(self)@.last,
            final(self)@.direct == old(self)@.direct,
    {
        let ghost all = self.pending_rediscovery@;
        let mut kept: Vec<u16> = Vec::new();
        let mut i: usize = 0;
        while i < self.pending_rediscovery.len()
            invariant
                i <= self.pending_rediscovery.len(),
                all == self.pending_rediscovery@,
                kept@ == all.subrange(0, i as int).filter(|p: u16| p != port),
            decreases self.pending_rediscovery.len() - i,
        {
            assert(all.subrange(0, i + 1).drop_last() =~= all.subrange(0, i as int));
            reveal_with_fuel(Seq::filter, 1);
            if self.pending_rediscovery[i] != port {
                kept.push(self.pending_rediscovery[i]);
            }
            i = i + 1;
        }
        assert(all.subrange(0, all.len() as int) =~= all);
        self.pending_rediscovery = kept;
    }

    /// A connection to `peer` came up, relayed or direct. Returns whether
    /// it is direct, in which case its address is worth recording and
    /// relay-stuck ports may rotate to it.
    pub fn peer_connected(&mut self, peer: &PeerKey, relayed: bool) -> (direct: bool)
        ensures
            direct == !relayed,
            relayed ==> final(self)@.direct.to_set() == old(self)@.direct.to_set().remove(peer@),
            !relayed ==> final(self)@.direct.to_set() == old(self)@.direct.to_set().insert(peer@),
            final(self)@.destinations == old(self)@.destinations,
            final(self)@.last == old(self)@.last,
            final(self)@.pending == old(self)@.pending,
    {
        self.drop_direct(peer);
        if !relayed {
            let ghost b = keys_view(self.direct_peers@);
            self.direct_peers.push(peer.duplicate());
            assert(keys_view(self.direct_peers@) =~= b.push(peer@));
            proof { b.lemma_push_to_set_commute(peer@); }
        }
        !relayed
    }

    fn drop_direct(&mut self, peer: &PeerKey)
        ensures
            final(self)@.direct.to_set() == old(self)@.direct.to_set().remove(peer@),
            final(self)@.destinations == old(self)@.destinations,
            final(self)@.last == old(self)@.last,
            final(self)@.pending == old(self)@.pending,
    {
        let ghost all = keys_view(self.direct_peers@);
        let mut kept: Vec<PeerKey> = Vec::new();
        let mut i: usize = 0;
        while i < self.direct_peers.len()
            invariant
                i <= self.direct_peers.len(),
                all == keys_view(self.direct_peers@),
                keys_view(kept@).to_set() == all.subrange(0, i as int).to_set().remove(peer@),
            decreases self.direct_peers.len() - i,
        {
            let ghost pre = all.subrange(0, i + 1);
            proof { crate::route::lemma_prefix_set_step(all, i as int); }
            if !self.direct_peers[i].same(peer) {
                let k = self.direct_peers[i].duplicate();
                let ghost b = keys_view(kept@);
                kept.push(k);
                assert(keys_view(kept@) =~= b.push(k@));
                proof { b.lemma_push_to_set_commute(k@); }
                assert(keys_view(kept@).to_set() =~= pre.to_set().remove(peer@));
            } else {
                assert(keys_view(kept@).to_set() =~= pre.to_set().remove(peer@));
            }
            i = i + 1;
        }
        assert(all.subrange(0, all.len() as int) =~= all);
        self.direct_peers = kept;
    }

    fn is_direct(&self, k: &PeerKey) -> (b: bool)
        ensures
            b == self@.direct.contains(k@),
    {
        let mut i: usize = 0;
        while i < self.direct_peers.len()
            invariant
                i <= self.direct_peers.len(),
                forall|j: int| 0 <= j < i ==> self@.direct[j] != k@,
            decreases self.direct_peers.len() - i,
        {
            if self.direct_peers[i].same(k) {
                assert(self@.direct[i as int] == k@);
                return true;
            }
            i = i + 1;
        }
        false
    }

    /// The ports whose active exit is relay-only and not `candidate`: a
    /// directly-connected pool member should replace it.
    pub fn relay_stuck_ports(&self, candidate: &PeerKey) -> (ports: Vec<u16>)
        ensures
            ports@ == relay_stuck(self@, candidate@),
    {
        let ghost all = self@.destinations;
        let ghost pred = |e: (u16, Option<Seq<char>>)| e.1 is Some && e.1->0 != candidate@ && !self@.direct.contains(e.1->0);
        let mut ports: Vec<u16> = Vec::new();
        let mut i: usize = 0;
        while i < self.destinations.len()
            invariant
                i <= self.destinations.len(),
                all == self@.destinations,
                pred == (|e: (u16, Option<Seq<char>>)| e.1 is Some && e.1->0 != candidate@ && !self@.direct.contains(e.1->0)),
                ports@ == all.subrange(0, i as int).filter(pred).map_values(|e: (u16, Option<Seq<char>>)| e.0),
            decreases self.destinations.len() - i,
        {
            let ghost pre = all.subrange(0, i + 1);
            assert(pre.drop_last() =~= all.subrange(0, i as int));
            reveal_with_fuel(Seq::filter, 1);
            let stuck = match &self.destinations[i].1 {
                Some(a) => !a.same(candidate) && !self.is_direct(a),
                None => false,
            };
            assert(stuck == pred(all[i as int]));
            if stuck {
                let ghost b = ports@;
                ports.push(self.destinations[i].0);
                assert(ports@ =~= pre.filter(pred).map_values(|e: (u16, Option<Seq<char>>)| e.0));
            } else {
                assert(pre.filter(pred) == all.subrange(0, i as int).filter(pred));
            }
            i = i + 1;
        }
        assert(all.subrange(0, all.len() as int) =~= all);
        ports
    }

    /// The ports whose active exit is `peer`, in order.
    pub fn ports_served_by(&self, peer: &PeerKey) -> (ports: Vec<u16>)
        ensures
            ports@ == served_by(self@.destinations, peer@),
    {
        let ghost all = self@.destinations;
        let mut ports: Vec<u16> = Vec::new();
        let mut i: usize = 0;
        while i < self.destinations.len()
            invariant
                i <= self.destinations.len(),
                all == self@.destinations,
                ports@ == served_by(all.subrange(0, i as int), peer@),
            decreases self.destinations.len() - i,
        {
            let ghost pre = all.subrange(0, i + 1);
            assert(pre.drop_last() =~= all.subrange(0, i as int));
            reveal_with_fuel(Seq::filter, 1);
            let hit = match &self.destinations[i].1 {
                Some(a) => a.same(peer),
                None => false,
            };
            if hit {
                ports.push(self.destinations[i].0);
                assert(ports@ =~= served_by(pre, peer@));
            } else {
                assert(served_by(pre, peer@) =~= served_by(all.subrange(0, i as int), peer@));
            }
            i = i + 1;
        }
        assert(all.subrange(0, all.len() as int) =~= all);
        ports
    }

    fn last_for(&self, port: u16) -> (l: Option<u64>)
        ensures
            l == last_of(self@.last, port),
    {
        let mut i: usize = 0;
        assert(self@.last.subrange(0, self@.last.len() as int) =~= self@.last);
        while i < self.last_rediscovery.len()
            invariant
                i <= self.last_rediscovery.len(),
                last_of(self@.last, port) == last_of(self@.last.subrange(i as int, self@.last.len() as int), port),
            decreases self.last_rediscovery.len() - i,
        {
            let ghost rest = self@.last.subrange(i as int, self@.last.len() as int);
            assert(rest.drop_first() =~= self@.last.subrange(i + 1, self@.last.len() as int));
            if self.last_rediscovery[i].0 == port {
                return Some(self.last_rediscovery[i].1);
            }
            i = i + 1;
        }
        None
    }

    fn is_pending(&self, port: u16) -> (b: bool)
        ensures
            b == self@.pending.contains(port),
    {
        let mut i: usize = 0;
        while i < self.pending_rediscovery.len()
            invariant
                i <= self.pending_rediscovery.len(),
                forall|j: int| 0 <= j < i ==> self@.pending[j] != port,
            decreases self.pending_rediscovery.len() - i,
        {
            if self.pending_rediscovery[i] == port {
                assert(self@.pending[i as int] == port);
                return true;
            }
            i = i + 1;
        }
        false
    }

    /// What `peer` dropping asks of one port it served, at `now`: a
    /// rediscovery (recorded as the port's latest), or, inside the
    /// cooldown, a cleared destination and at most one scheduled retry.
    pub fn port_closed(&mut self, port: u16, now: u64) -> (a: ClosedAction)
        requires
            old(self).wf(),
        ensures
            final(self).wf(),
            a == action_for(last_of(old(self)@.last, port), old(self)@.pending.contains(port), port, now),
            last_of(final(self)@.last, port) == (if a is Rediscover { Some(now) } else { last_of(old(self)@.last, port) }),
            forall|q: u16| q != port ==> last_of(final(self)@.last, q) == last_of(old(self)@.last, q),
            final(self)@.pending.to_set() == (if a is Throttle { old(self)@.pending.to_set().insert(port) } else {
                old(self)@.pending.to_set()
            }),
            a is Rediscover ==> final(self)@.destinations == old(self)@.destinations,
            final(self)@.destinations.len() == old(self)@.destinations.len(),
            a is Throttle ==> forall|i: int| 0 <= i < old(self)@.destinations.len() ==> #[trigger] final(self)@.destinations[i] == (
                if old(self)@.destinations[i].0 == port { (port, None::<Seq<char>>) } else { old(self)@.destinations[i] }),
            final(self)@.direct == old(self)@.direct,
    {
        let last = self.last_for(port);
        let scheduled = self.is_pending(port);
        let cool = match last {
            Some(at) => {
                let e = if now >= at { now - at } else { 0 };
                e < REDISCOVERY_COOLDOWN_MS
            },
            None => false,
        };
        if cool {
            let at = last.unwrap();
            let e = if now >= at { now - at } else { 0 };
            self.set_destination(port, None);
            if scheduled {
                ClosedAction::Throttle { port, retry_after_ms: None }
            } else {
                let ghost b = self.pending_rediscovery@;
                self.pending_rediscovery.push(port);
                proof { b.lemma_push_to_set_commute(port); }
                ClosedAction::Throttle { port, retry_after_ms: Some(REDISCOVERY_COOLDOWN_MS - e) }
            }
        } else {
            let ghost b = self.last_rediscovery@;
            self.last_rediscovery.insert(0, (port, now));
            assert(self.last_rediscovery@.drop_first() =~= b);
            proof {
                assert forall|q: u16| q != port implies last_of(self@.last, q) == last_of(b, q) by {
                    assert(self@.last[0].0 == port);
                }
            }
            assert(self.pending_rediscovery@.to_set() =~= self.pending_rediscovery@.to_set());
            ClosedAction::Rediscover { port }
        }
    }

    /// The exit `peer` disconnected at `now`: it is no longer a direct
    /// peer, and each port it served is rediscovered or throttled (see
    /// `port_closed`). Returns one action per served port, in order.
    pub fn peer_closed(&mut self, peer: &PeerKey, now: u64) -> (actions: Vec<ClosedAction>)
        requires
            old(self).wf(),
        ensures
            final(self).wf(),
            actions@.len() == served_by(old(self)@.destinations, peer@).len(),
            forall|i: int| 0 <= i < actions@.len() ==> #[trigger] actions@[i] == action_for(
                last_of(old(self)@.last, served_by(old(self)@.destinations, peer@)[i]),
                old(self)@.pending.contains(served_by(old(self)@.destinations, peer@)[i]),
                served_by(old(self)@.destinations, peer@)[i],
                now,
            ),
            final(self)@.direct.to_set() == old(self)@.direct.to_set().remove(peer@),
            forall|q: u16| #[trigger] last_of(final(self)@.last, q) == (if rediscovers(
                old(self)@,
                served_by(old(self)@.destinations, peer@),
                q,
                now,
            ) {
                Some(now)
            } else {
                last_of(old(self)@.last, q)
            }),
            forall|q: u16| #[trigger] final(self)@.pending.contains(q) == (old(self)@.pending.contains(q) || throttles(
                old(self)@,
                served_by(old(self)@.destinations, peer@),
                q,
                now,
            )),
            final(self)@.destinations.len() == old(self)@.destinations.len(),
            forall|k: int| 0 <= k < old(self)@.destinations.len() ==> #[trigger] final(self)@.destinations[k] == (if throttles(
                old(self)@,
                served_by(old(self)@.destinations, peer@),
                old(self)@.destinations[k].0,
                now,
            ) {
                (old(self)@.destinations[k].0, None::<Seq<char>>)
            } else {
                old(self)@.destinations[k]
            }),
    {
        self.drop_direct(peer);
        let ports = self.ports_served_by(peer);
        let ghost start = self@;
        proof { lemma_served_unique(start.destinations, peer@); }
        let mut actions: Vec<ClosedAction> = Vec::new();
        let mut i: usize = 0;
        while i < ports.len()
            invariant
                i <= ports.len(),
                self.wf(),
                ports@ == served_by(start.destinations, peer@),
                ports@.no_duplicates(),
                actions@.len() == i,
                self@.direct == start.direct,
                forall|j: int| i <= j < ports@.len() ==> last_of(self@.last, #[trigger] ports@[j]) == last_of(start.last, ports@[j])
                    && self@.pending.contains(ports@[j]) == start.pending.contains(ports@[j]),
                forall|j: int| 0 <= j < i ==> #[trigger] actions@[j] == action_for(
                    last_of(start.last, ports@[j]),
                    start.pending.contains(ports@[j]),
                    ports@[j],
                    now,
                ),
                forall|q: u16| #[trigger] last_of(self@.last, q) == (if rediscovers(start, ports@.subrange(0, i as int), q, now) {
                    Some(now)
                } else {
                    last_of(start.last, q)
                }),
                forall|q: u16| #[trigger] self@.pending.contains(q) == (start.pending.contains(q) || throttles(
                    start,
                    ports@.subrange(0, i as int),
                    q,
                    now,
                )),
                self@.destinations.len() == start.destinations.len(),
                forall|k: int| 0 <= k < start.destinations.len() ==> #[trigger] self@.destinations[k] == (if throttles(
                    start,
                    ports@.subrange(0, i as int),
                    start.destinations[k].0,
                    now,
                ) {
                    (start.destinations[k].0, None::<Seq<char>>)
                } else {
                    start.destinations[k]
                }),
            decreases ports.len() - i,
        {
            let port = ports[i];
            let ghost before = self@;
            let ghost pre = ports@.subrange(0, i as int);
            let ghost post = ports@.subrange(0, i + 1);
            assert(post =~= pre.push(port));
            assert(!pre.contains(port)) by {
                if pre.contains(port) {
                    let j = choose|j: int| 0 <= j < pre.len() && pre[j] == port;
                    assert(ports@[j] == ports@[i as int]);
                }
            }
            assert(forall|q: u16| #[trigger] post.contains(q) == (pre.contains(q) || q == port)) by {
                assert forall|q: u16| #[trigger] post.contains(q) == (pre.contains(q) || q == port) by {
                    if post.contains(q) {
                        let j = choose|j: int| 0 <= j < post.len() && post[j] == q;
                        if j < pre.len() {
                            assert(pre[j] == q);
                        }
                    }
                    if pre.contains(q) {
                        let j = choose|j: int| 0 <= j < pre.len() && pre[j] == q;
                        assert(post[j] == q);
                    }
                    if q == port {
                        assert(post[i as int] == q);
                    }
                }
            }
            assert(last_of(before.last, port) == last_of(start.last, port));
            assert(before.pending.contains(port) == start.pending.contains(port));
            let a = self.port_closed(port, now);
            assert(a == action_at(start, port, now));
            proof {
                assert forall|j: int| i + 1 <= j < ports@.len() implies last_of(self@.last, #[trigger] ports@[j]) == last_of(start.last, ports@[j])
                    && self@.pending.contains(ports@[j]) == start.pending.contains(ports@[j]) by {
                    assert(ports@[j] != port);
                    assert(self@.pending.to_set().contains(ports@[j]) == self@.pending.contains(ports@[j]));
                    assert(before.pending.to_set().contains(ports@[j]) == before.pending.contains(ports@[j]));
                }
                assert forall|q: u16| #[trigger] last_of(self@.last, q) == (if rediscovers(start, post, q, now) {
                    Some(now)
                } else {
                    last_of(start.last, q)
                }) by {
                    if q != port {
                        assert(last_of(self@.last, q) == last_of(before.last, q));
                    }
                }
                assert forall|q: u16| #[trigger] self@.pending.contains(q) == (start.pending.contains(q) || throttles(
                    start,
                    post,
                    q,
                    now,
                )) by {
                    assert(self@.pending.to_set().contains(q) == self@.pending.contains(q));
                    assert(before.pending.to_set().contains(q) == before.pending.contains(q));
                }
                assert forall|k: int| 0 <= k < start.destinations.len() implies #[trigger] self@.destinations[k] == (if throttles(
                    start,
                    post,
                    start.destinations[k].0,
                    now,
                ) {
                    (start.destinations[k].0, None::<Seq<char>>)
                } else {
                    start.destinations[k]
                }) by {
                    assert(before.destinations[k].0 == start.destinations[k].0);
                }
            }
            actions.push(a);
            i = i + 1;
        }
        assert(ports@.subrange(0, ports@.len() as int) =~= ports@);
        actions
    }
}

proof fn lemma_served_unique(dest: Seq<(u16, Option<Seq<char>>)>, peer: Seq<char>)
    requires
        ports_of(dest).no_duplicates(),
    ensures
        served_by(dest, peer).no_duplicates(),
    decreases dest.len(),
{
    reveal_with_fuel(Seq::filter, 1);
    if dest.len() > 0 {
        let init = dest.drop_last();
        assert(ports_of(init) =~= ports_of(dest).drop_last());
        lemma_served_unique(init, peer);
        let f = |e: (u16, Option<Seq<char>>)| e.1 == Some(peer);
        if f(dest.last()) {
            let s = served_by(init, peer);
            assert(served_by(dest, peer) =~= s.push(dest.last().0));
            assert forall|j: int| 0 <= j < s.len() implies s[j] != dest.last().0 by {
                let fi = init.filter(f);
                assert(s[j] == fi[j].0);
                init.lemma_filter_contains_rev(f, fi[j]);
                assert(fi.contains(fi[j]));
                let k = choose|k: int| 0 <= k < init.len() && init[k] == fi[j];
                assert(ports_of(dest)[k] == init[k].0);
                assert(ports_of(dest)[dest.len() - 1] == dest.last().0);
            }
        } else {
            assert(served_by(dest, peer) =~= served_by(init, peer));
        }
    }
}

/// Inside the cooldown a port is never eagerly rediscovered twice: right
/// after a rediscovery at `at`, a disconnect at any `now` less than the
/// cooldown later throttles it, scheduling the retry for when the
/// cooldown lapses.
pub proof fn law_cooldown_throttles(port: u16, at: u64, now: u64, scheduled: bool)
    requires
        at <= now,
        now - at < REDISCOVERY_COOLDOWN_MS,
    ensures
        action_for(Some(at), scheduled, port, now) == (ClosedAction::Throttle {
            port,
            retry_after_ms: if scheduled { None } else { Some((REDISCOVERY_COOLDOWN_MS - (now - at)) as u64) },
        }),
{
}

/// A rediscovery starts the port's cooldown: once a disconnect has
/// recorded a rediscovery of `q` at `now`, any further disconnect before
/// the cooldown lapses is throttled.
pub proof fn law_rediscovery_starts_cooldown(d: DiscoveryView, q: u16, now: u64, later: u64)
    requires
        last_of(d.last, q) == Some(now),
        now <= later,
        later - now < REDISCOVERY_COOLDOWN_MS,
    ensures
        action_at(d, q, later) is Throttle,
{
}

/// Once the cooldown has lapsed, or with no earlier rediscovery, a
/// disconnect rediscovers at once.
pub proof fn law_rediscovers_after_cooldown(port: u16, last: Option<u64>, now: u64, scheduled: bool)
    requires
        last matches Some(at) ==> at <= now && now - at >= REDISCOVERY_COOLDOWN_MS,
    ensures
        action_for(last, scheduled, port, now) == (ClosedAction::Rediscover { port }),
{
}

/// What a server does when the peer that may have been its exit drops.
#[derive(Debug, Clone, Copy, PartialEq, Eq, Structural)]
pub enum DisconnectPlan {
    /// The peer was not the server's exit: nothing to do.
    Ignore,
    /// Inside the cooldown: only clear the exit; the next session
    /// rediscovers on demand.
    Clear,
    /// Rediscover now.
    Rediscover,
}

/// The plan for a server whose exit is `active` when `old_peer` drops at
/// `now`, its last rediscovery at `last`.
pub fn plan_disconnect(active: &Option<PeerKey>, old_peer: &PeerKey, last: Option<u64>, now: u64) -> (p: DisconnectPlan)
    ensures
        p == (if !(active matches Some(a) && a@ == old_peer@) {
            DisconnectPlan::Ignore
        } else if cooling(last, now) {
            DisconnectPlan::Clear
        } else {
            DisconnectPlan::Rediscover
        }),
{
    let is_exit = match active {
        Some(a) => a.same(old_peer),
        None => false,
    };
    if !is_exit {
        return DisconnectPlan::Ignore;
    }
    let cool = match last {
        Some(at) => {
            let e = if now >= at { now - at } else { 0 };
            e < REDISCOVERY_COOLDOWN_MS
        },
        None => false,
    };
    if cool {
        DisconnectPlan::Clear
    } else {
        DisconnectPlan::Rediscover
    }
}

/// The events announcing a disconnect plan for the server on `port`:
/// clearing the exit announces, once, that the server has no active
/// destination (no peer, no source); ignoring says nothing, and a
/// rediscovery announces its own outcome when it ends.
pub fn disconnect_events(port: u16, plan: DisconnectPlan) -> (v: Vec<Events>)
    ensures
        plan == DisconnectPlan::Clear ==> v@.len() == 1 && (v@[0] matches Events::ActiveDestination {
            port: q,
            peer: None,
            source: None,
        } && q == port),
        plan != DisconnectPlan::Clear ==> v@.len() == 0,
{
    let mut v: Vec<Events> = Vec::new();
    if plan == DisconnectPlan::Clear {
        v.push(Events::ActiveDestination { port, peer: None, source: None });
    }
    v
}

} // verus!
