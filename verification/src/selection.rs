//! Route selection: which peer a route reaches, which routes a pinned
//! entry offers, and direct-before-circuit ordering.
use vstd::prelude::*;

use crate::config::DestinationPeerEntry;
use crate::route::{lemma_keys_view_push, lemma_prefix_set_step, lemma_routes_view_push, keys_view, routes_view, spec_is_relayed, spec_last_p2p, PeerKey, Route, RouteView};

verus! {

/// The hub's answer to a route query for one peer.
#[derive(Debug, Clone)]
pub struct ResolvedEntry {
    pub peer: PeerKey,
    pub routes: Vec<Route>,
}

/// Peer-to-routes answers of the hub (a map keyed by peer).
#[derive(Debug, Clone)]
pub struct ResolvedRoutes {
    pub entries: Vec<ResolvedEntry>,
}

pub type ResolvedView = Seq<(Seq<char>, Seq<RouteView>)>;

impl View for ResolvedRoutes {
    type V = ResolvedView;

    open spec fn view(&self) -> ResolvedView {
        self.entries@.map_values(|e: ResolvedEntry| (e.peer@, routes_view(e.routes@)))
    }
}

/// The routes answered for `peer`: those of its first entry.
pub open spec fn spec_lookup(v: ResolvedView, peer: Seq<char>) -> Option<Seq<RouteView>>
    decreases v.len(),
{
    if v.len() == 0 {
        None
    } else if v[0].0 == peer {
        Some(v[0].1)
    } else {
        spec_lookup(v.drop_first(), peer)
    }
}

/// Every route of every answer, in order.
pub open spec fn spec_all_routes(v: ResolvedView) -> Seq<RouteView>
    decreases v.len(),
{
    if v.len() == 0 {
        Seq::empty()
    } else {
        v[0].1 + spec_all_routes(v.drop_first())
    }
}

/// The routes of an optional route.
pub open spec fn opt_routes(a: Option<RouteView>) -> Set<RouteView> {
    match a {
        Some(r) => set![r],
        None => Set::empty(),
    }
}

/// The dialable routes of a pinned entry: the hub's routes for its peer
/// plus the operator's verbatim multiaddress.
pub open spec fn spec_candidate_routes(
    entry: (Seq<char>, Option<RouteView>),
    resolved: ResolvedView,
) -> Set<RouteView> {
    let hub = match spec_lookup(resolved, entry.0) {
        Some(rs) => rs.to_set(),
        None => Set::empty(),
    };
    hub.union(opt_routes(entry.1))
}

/// The peers a set of routes reaches: the last `/p2p/` of each.
pub open spec fn spec_destination_peers(addrs: Set<RouteView>) -> Set<Seq<char>> {
    Set::new(|k: Seq<char>| exists|a: RouteView| addrs.contains(a) && spec_last_p2p(a) == Some(k))
}

impl ResolvedRoutes {
    /// No answers.
    pub fn empty() -> (r: ResolvedRoutes)
        ensures
            r@ == Seq::<(Seq<char>, Seq<RouteView>)>::empty(),
    {
        let r = ResolvedRoutes { entries: Vec::new() };
        assert(r@ =~= Seq::<(Seq<char>, Seq<RouteView>)>::empty());
        r
    }

    /// The routes answered for `peer`.
    pub fn get(&self, peer: &PeerKey) -> (r: Option<&Vec<Route>>)
        ensures
            match r {
                Some(rs) => spec_lookup(self@, peer@) == Some(routes_view(rs@)),
                None => spec_lookup(self@, peer@) is None,
            },
    {
        let mut i: usize = 0;
        assert(self@.subrange(0, self@.len() as int) =~= self@);
        while i < self.entries.len()
            invariant
                i <= self.entries.len(),
                spec_lookup(self@, peer@) == spec_lookup(self@.subrange(i as int, self@.len() as int), peer@),
            decreases self.entries.len() - i,
        {
            let ghost rest = self@.subrange(i as int, self@.len() as int);
            assert(rest.drop_first() =~= self@.subrange(i + 1, self@.len() as int));
            if self.entries[i].peer.same(peer) {
                return Some(&self.entries[i].routes);
            }
            i = i + 1;
        }
        None
    }

    /// Every answered route, in order.
    pub fn all_routes(&self) -> (v: Vec<Route>)
        ensures
            routes_view(v@) == spec_all_routes(self@),
    {
        let mut out: Vec<Route> = Vec::new();
        let mut i: usize = self.entries.len();
        assert(self@.subrange(i as int, self@.len() as int) =~= Seq::<(Seq<char>, Seq<RouteView>)>::empty());
        while i > 0
            invariant
                i <= self.entries.len(),
                routes_view(out@) == spec_all_routes(self@.subrange(i as int, self@.len() as int)),
            decreases i,
        {
            i = i - 1;
            let ghost rest = self@.subrange(i as int, self@.len() as int);
            assert(rest.drop_first() =~= self@.subrange(i + 1, self@.len() as int));
            let mut next: Vec<Route> = Vec::new();
            let routes = &self.entries[i].routes;
            let mut j: usize = 0;
            while j < routes.len()
                invariant
                    j <= routes.len(),
                    routes_view(next@) == routes_view(routes@).subrange(0, j as int),
                decreases routes.len() - j,
            {
                let r = routes[j].duplicate();
                proof { lemma_routes_view_push(next@, r); }
                next.push(r);
                j = j + 1;
                assert(routes_view(next@) =~= routes_view(routes@).subrange(0, j as int));
            }
            assert(routes_view(routes@).subrange(0, routes@.len() as int) =~= routes_view(routes@));
            let ghost before = out@;
            next.append(&mut out);
            assert(routes_view(next@) =~= self@[i as int].1 + routes_view(before));
            out = next;
        }
        assert(self@.subrange(0, self@.len() as int) =~= self@);
        out
    }
}

/// Whether `routes` holds a route equal to `r`.
pub fn contains_route(routes: &Vec<Route>, r: &Route) -> (b: bool)
    ensures
        b == routes_view(routes@).contains(r@),
{
    let mut i: usize = 0;
    while i < routes.len()
        invariant
            i <= routes.len(),
            forall|j: int| 0 <= j < i ==> routes@[j]@ != r@,
        decreases routes.len() - i,
    {
        if routes[i].same(r) {
            assert(routes_view(routes@)[i as int] == r@);
            return true;
        }
        i = i + 1;
    }
    false
}

/// Add `r` to the route set `routes` unless an equal route is there.
pub fn insert_route(routes: &mut Vec<Route>, r: Route)
    requires
        routes_view(old(routes)@).no_duplicates(),
    ensures
        routes_view(final(routes)@).no_duplicates(),
        routes_view(final(routes)@).to_set() == routes_view(old(routes)@).to_set().insert(r@),
        routes_view(old(routes)@).contains(r@) ==> final(routes)@ == old(routes)@,
        !routes_view(old(routes)@).contains(r@) ==> routes_view(final(routes)@) == routes_view(old(routes)@).push(r@),
{
    if !contains_route(routes, &r) {
        let ghost before = routes@;
        proof {
            lemma_routes_view_push(before, r);
            routes_view(before).lemma_push_to_set_commute(r@);
        }
        routes.push(r);
    } else {
        assert(routes_view(routes@).to_set() =~= routes_view(routes@).to_set().insert(r@));
    }
}

/// Add every route of `more` to the route set `routes`.
pub fn extend_routes(routes: &mut Vec<Route>, more: &Vec<Route>)
    requires
        routes_view(old(routes)@).no_duplicates(),
    ensures
        routes_view(final(routes)@).no_duplicates(),
        routes_view(final(routes)@).to_set() == routes_view(old(routes)@).to_set().union(routes_view(more@).to_set()),
{
    let mut i: usize = 0;
    while i < more.len()
        invariant
            i <= more.len(),
            routes_view(routes@).no_duplicates(),
            routes_view(routes@).to_set() == routes_view(old(routes)@).to_set().union(
                routes_view(more@).subrange(0, i as int).to_set(),
            ),
        decreases more.len() - i,
    {
        insert_route(routes, more[i].duplicate());
        proof { lemma_prefix_set_step(routes_view(more@), i as int); }
        i = i + 1;
        assert(routes_view(routes@).to_set() =~= routes_view(old(routes)@).to_set().union(
            routes_view(more@).subrange(0, i as int).to_set()));
    }
    assert(routes_view(more@).subrange(0, more@.len() as int) =~= routes_view(more@));
}

/// Whether `keys` holds a key equal to `k`.
pub fn contains_key(keys: &Vec<PeerKey>, k: &PeerKey) -> (b: bool)
    ensures
        b == keys_view(keys@).contains(k@),
{
    let mut i: usize = 0;
    while i < keys.len()
        invariant
            i <= keys.len(),
            forall|j: int| 0 <= j < i ==> keys@[j]@ != k@,
        decreases keys.len() - i,
    {
        if keys[i].same(k) {
            assert(keys_view(keys@)[i as int] == k@);
            return true;
        }
        i = i + 1;
    }
    false
}

/// Whether the route passes through a relay circuit.
pub fn is_relayed(addr: &Route) -> (b: bool)
    ensures
        b == spec_is_relayed(addr@),
{
    addr.is_relayed()
}

/// The destination peer of a route: its last `/p2p/` component.
pub fn last_p2p(addr: &Route) -> (p: Option<PeerKey>)
    ensures
        match p {
            Some(k) => spec_last_p2p(addr@) == Some(k@),
            None => spec_last_p2p(addr@) is None,
        },
{
    addr.last_p2p()
}

/// The destination peers of a route set, each once. A relay named
/// earlier in a circuit route never enters it.
pub fn destination_peer_ids(addresses: &Vec<Route>) -> (ids: Vec<PeerKey>)
    ensures
        keys_view(ids@).no_duplicates(),
        keys_view(ids@).to_set() == spec_destination_peers(routes_view(addresses@).to_set()),
{
    let mut ids: Vec<PeerKey> = Vec::new();
    let mut i: usize = 0;
    while i < addresses.len()
        invariant
            i <= addresses.len(),
            keys_view(ids@).no_duplicates(),
            keys_view(ids@).to_set() == spec_destination_peers(routes_view(addresses@).subrange(0, i as int).to_set()),
        decreases addresses.len() - i,
    {
        let ghost prefix = routes_view(addresses@).subrange(0, i + 1);
        proof { lemma_prefix_set_step(routes_view(addresses@), i as int); }
        match addresses[i].last_p2p() {
            Some(k) => {
                if !contains_key(&ids, &k) {
                    let ghost before = ids@;
                    proof {
                        lemma_keys_view_push(before, k);
                        keys_view(before).lemma_push_to_set_commute(k@);
                    }
                    ids.push(k);
                } else {
                    assert(keys_view(ids@).to_set() =~= keys_view(ids@).to_set().insert(k@));
                }
                assert(keys_view(ids@).to_set() =~= spec_destination_peers(prefix.to_set()));
            },
            None => {
                assert(keys_view(ids@).to_set() =~= spec_destination_peers(prefix.to_set()));
            },
        }
        i = i + 1;
    }
    assert(routes_view(addresses@).subrange(0, addresses@.len() as int) =~= routes_view(addresses@));
    ids
}

/// A pinned entry's dialable routes this pass: whatever the hub resolved
/// for its peer plus the operator-supplied verbatim multiaddress.
pub fn candidate_routes(entry: &DestinationPeerEntry, resolved: &ResolvedRoutes) -> (addrs: Vec<Route>)
    ensures
        routes_view(addrs@).no_duplicates(),
        routes_view(addrs@).to_set() == spec_candidate_routes(entry@, resolved@),
{
    let mut addrs: Vec<Route> = Vec::new();
    assert(routes_view(addrs@) =~= Seq::<RouteView>::empty());
    match resolved.get(&entry.peer_id) {
        Some(rs) => extend_routes(&mut addrs, rs),
        None => {},
    }
    match &entry.address {
        Some(a) => insert_route(&mut addrs, a.duplicate()),
        None => {},
    }
    assert(routes_view(addrs@).to_set() =~= spec_candidate_routes(entry@, resolved@));
    addrs
}

/// Split routes into (direct, relay-circuit), each in the given order, so
/// direct addresses are dialed before circuits.
pub fn partition_direct_first(addrs: Vec<Route>) -> (parts: (Vec<Route>, Vec<Route>))
    ensures
        routes_view(parts.0@) == routes_view(addrs@).filter(|r: RouteView| !spec_is_relayed(r)),
        routes_view(parts.1@) == routes_view(addrs@).filter(|r: RouteView| spec_is_relayed(r)),
{
    let mut direct: Vec<Route> = Vec::new();
    let mut circuit: Vec<Route> = Vec::new();
    let ghost all = routes_view(addrs@);
    let mut i: usize = 0;
    while i < addrs.len()
        invariant
            i <= addrs.len(),
            all == routes_view(addrs@),
            routes_view(direct@) == all.subrange(0, i as int).filter(|r: RouteView| !spec_is_relayed(r)),
            routes_view(circuit@) == all.subrange(0, i as int).filter(|r: RouteView| spec_is_relayed(r)),
        decreases addrs.len() - i,
    {
        let ghost p = all.subrange(0, i + 1);
        assert(p.drop_last() =~= all.subrange(0, i as int));
        reveal_with_fuel(Seq::filter, 1);
        let r = addrs[i].duplicate();
        if r.is_relayed() {
            let ghost before = circuit@;
            circuit.push(r);
            assert(routes_view(circuit@) =~= routes_view(before).push(all[i as int]));
        } else {
            let ghost before = direct@;
            direct.push(r);
            assert(routes_view(direct@) =~= routes_view(before).push(all[i as int]));
        }
        i = i + 1;
    }
    assert(all.subrange(0, addrs@.len() as int) =~= all);
    (direct, circuit)
}

} // verus!
