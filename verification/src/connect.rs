//! The connect flow: how a server picks and reaches its destination peer.
//!
//! Pinned servers try their preference list, rank 0 first, in bounded
//! passes; discovery-driven servers first fight to reconnect a dropped
//! sticky exit, then try remembered exits, then ask the hub for fresh
//! candidates. The flow never performs I/O itself: each step names one
//! request (resolve, find, dial, probe, sleep) for its driver, and the
//! driver hands the outcome back.
use vstd::prelude::*;

use crate::config::{entries_view, DestinationPeerEntry};
use crate::errors::{DirectoryError, DirectoryErrorView};
use crate::events::{pool_peers_view, statuses_view, PinnedPeerStatus, PoolPeer};
use crate::route::{
    keys_view, lemma_routes_view_push, routes_view, spec_circuit, spec_last_p2p, synthesize_circuit, ComponentView, PeerKey,
    Route, RouteView,
};
use crate::selection::{
    candidate_routes, extend_routes, insert_route, spec_all_routes, spec_candidate_routes, ResolvedEntry, ResolvedRoutes,
    ResolvedView,
};
use crate::text::{concat, decimal, decimal_string};

verus! {

/// Candidates asked of the hub per discovery attempt.
pub const FINDNODES_DISCOVERY_LIMIT: usize = 25;

/// Discovery attempts per connect effort.
pub const MAX_DISCOVERY_ATTEMPTS: usize = 20;

/// Passes over a pinned list per connect effort.
pub const MAX_PINNED_PASSES: usize = 20;

/// Reconnect attempts for a dropped sticky exit.
pub const STICKY_RECONNECT_ATTEMPTS: usize = 3;

/// The answer "reach `p` through a relay circuit".
pub open spec fn circuit_answer(relay: RouteView) -> spec_fn(Seq<char>) -> (Seq<char>, Seq<RouteView>) {
    |p: Seq<char>| (p, seq![spec_circuit(relay, p)])
}

/// What a resolve query leaves the flow with: the hub's answer; for a hub
/// that does not support the query, a relay circuit per peer; for any
/// other failure, nothing (retried next pass).
pub open spec fn spec_resolve_outcome(
    peers: Seq<Seq<char>>,
    reply: Result<ResolvedView, DirectoryErrorView>,
    relay: RouteView,
) -> ResolvedView {
    match reply {
        Ok(r) => r,
        Err(DirectoryErrorView::Unsupported(_)) => peers.map_values(circuit_answer(relay)),
        Err(_) => Seq::empty(),
    }
}

/// Circuits are synthesized only when the hub does not support the resolve
/// query: then each peer, in order, gets the one route
/// `<relay>/p2p-circuit/p2p/<peer>`. Any other failure (a timeout, a
/// rejection, a failed task) leaves nothing to dial, so the pass is retried;
/// a hub answer is taken as it is.
pub proof fn law_only_unsupported_synthesizes(
    peers: Seq<Seq<char>>,
    reply: Result<ResolvedView, DirectoryErrorView>,
    relay: RouteView,
)
    ensures
        reply matches Ok(r) ==> spec_resolve_outcome(peers, reply, relay) == r,
        (reply matches Err(e) && !(e is Unsupported)) ==> spec_resolve_outcome(peers, reply, relay).len() == 0,
        reply matches Err(DirectoryErrorView::Unsupported(_)) ==> {
            let out = spec_resolve_outcome(peers, reply, relay);
            &&& out.len() == peers.len()
            &&& forall|i: int| 0 <= i < peers.len() ==> #[trigger] out[i] == (
                peers[i],
                seq![relay.push(ComponentView::P2pCircuit).push(ComponentView::P2p(peers[i]))],
            )
        },
{
}

/// The routes of one reconnect attempt: the remembered direct route and
/// every hub route, raced together; a relay circuit when there is none.
pub open spec fn spec_reach_routes(
    tagged: Seq<RouteView>,
    resolved: ResolvedView,
    peer: Seq<char>,
    relay: RouteView,
) -> Set<RouteView> {
    let all = tagged.to_set().union(spec_all_routes(resolved).to_set());
    if all == Set::<RouteView>::empty() {
        set![spec_circuit(relay, peer)]
    } else {
        all
    }
}

/// Whether route `a` leads to the avoided peer.
pub open spec fn leads_to_avoided(a: RouteView, avoid: Option<Seq<char>>) -> bool {
    avoid is Some && spec_last_p2p(a) == avoid
}

/// The routes of `rs` that do not lead to the avoided peer.
pub open spec fn spec_routes_avoiding(rs: Seq<RouteView>, avoid: Option<Seq<char>>) -> Set<RouteView>
    decreases rs.len(),
{
    if rs.len() == 0 {
        Set::empty()
    } else if leads_to_avoided(rs.last(), avoid) {
        spec_routes_avoiding(rs.drop_last(), avoid)
    } else {
        spec_routes_avoiding(rs.drop_last(), avoid).insert(rs.last())
    }
}

/// The routes a discovered candidate offers: none for the avoided peer;
/// otherwise its hub routes that do not lead to the avoided peer, or a
/// relay circuit when the hub gave none.
pub open spec fn spec_candidate_offer(c: (Seq<char>, Seq<RouteView>), relay: RouteView, avoid: Option<Seq<char>>) -> Set<
    RouteView,
> {
    if avoid == Some(c.0) {
        Set::empty()
    } else if c.1.len() == 0 {
        set![spec_circuit(relay, c.0)]
    } else {
        spec_routes_avoiding(c.1, avoid)
    }
}

/// Every route every discovered candidate offers, the avoided peer left out.
pub open spec fn spec_discovery_addresses(
    cands: Seq<(Seq<char>, Seq<RouteView>)>,
    relay: RouteView,
    avoid: Option<Seq<char>>,
) -> Set<RouteView>
    decreases cands.len(),
{
    if cands.len() == 0 {
        Set::empty()
    } else {
        spec_discovery_addresses(cands.drop_last(), relay, avoid).union(spec_candidate_offer(cands.last(), relay, avoid))
    }
}

proof fn lemma_routes_avoiding(rs: Seq<RouteView>, avoid: Option<Seq<char>>)
    ensures
        forall|a: RouteView| #[trigger] spec_routes_avoiding(rs, avoid).contains(a) ==> rs.contains(a) && !leads_to_avoided(a, avoid),
    decreases rs.len(),
{
    if rs.len() > 0 {
        lemma_routes_avoiding(rs.drop_last(), avoid);
        assert forall|a: RouteView| #[trigger] spec_routes_avoiding(rs, avoid).contains(a) implies rs.contains(a)
            && !leads_to_avoided(a, avoid) by {
            if spec_routes_avoiding(rs.drop_last(), avoid).contains(a) {
                let j = choose|j: int| 0 <= j < rs.drop_last().len() && rs.drop_last()[j] == a;
                assert(rs[j] == a);
            } else {
                assert(rs[rs.len() - 1] == a);
            }
        }
    }
}

/// No route of a discovery attempt leads to the avoided peer.
pub proof fn lemma_discovery_avoids(cands: Seq<(Seq<char>, Seq<RouteView>)>, relay: RouteView, avoid: Option<Seq<char>>)
    ensures
        forall|a: RouteView| #[trigger] spec_discovery_addresses(cands, relay, avoid).contains(a) ==> !leads_to_avoided(a, avoid),
    decreases cands.len(),
{
    if cands.len() > 0 {
        lemma_discovery_avoids(cands.drop_last(), relay, avoid);
        let c = cands.last();
        lemma_routes_avoiding(c.1, avoid);
        let circ = spec_circuit(relay, c.0);
        assert(circ.last() == ComponentView::P2p(c.0));
        assert(spec_last_p2p(circ) == Some(c.0));
        assert forall|a: RouteView| #[trigger] spec_discovery_addresses(cands, relay, avoid).contains(a) implies !leads_to_avoided(
            a,
            avoid,
        ) by {
            if spec_discovery_addresses(cands.drop_last(), relay, avoid).contains(a) {
            } else if avoid == Some(c.0) {
            } else if c.1.len() == 0 {
                assert(a == circ);
            } else {
                assert(spec_routes_avoiding(c.1, avoid).contains(a));
            }
        }
    }
}

/// Per rank: the peer, its rank and whether it has a dialable route.
pub open spec fn spec_statuses(pinned: Seq<(Seq<char>, Option<RouteView>)>, resolved: ResolvedView) -> Seq<
    (Seq<char>, usize, bool),
> {
    Seq::new(
        pinned.len(),
        |i: int| (pinned[i].0, i as usize, spec_candidate_routes(pinned[i], resolved) != Set::<RouteView>::empty()),
    )
}

/// The first rank at or after `from` with a dialable route.
pub open spec fn spec_first_rank(pinned: Seq<(Seq<char>, Option<RouteView>)>, resolved: ResolvedView, from: nat) -> Option<
    nat,
>
    decreases pinned.len() - from,
{
    if from >= pinned.len() {
        None
    } else if spec_candidate_routes(pinned[from as int], resolved) != Set::<RouteView>::empty() {
        Some(from)
    } else {
        spec_first_rank(pinned, resolved, from + 1)
    }
}

/// The error surfaced when every pinned peer stayed unreachable.
pub open spec fn spec_pinned_exhausted_message(count: nat, port: u16) -> Seq<char> {
    "All "@ + decimal(count) + " pinned peer(s) for :"@ + decimal(port as nat) + " are offline or unresolvable."@
}

/// The error surfaced when discovery found no reachable peer.
pub open spec fn spec_discovery_exhausted_message(port: u16, summary: Seq<char>) -> Seq<char> {
    "Failed to connect with any peer for :"@ + decimal(port as nat) + " after "@ + decimal(
        MAX_DISCOVERY_ATTEMPTS as nat,
    ) + " attempts (filter: "@ + summary + ")."@
}

pub open spec fn reply_resolved_view(r: Result<ResolvedRoutes, DirectoryError>) -> Result<ResolvedView, DirectoryErrorView> {
    match r {
        Ok(v) => Ok(v@),
        Err(e) => Err(e@),
    }
}

/// Resolve peer ids to current routes after the hub answered `reply`,
/// falling back to circuit synthesis when the hub cannot answer this query.
/// A transient failure yields no routes and is retried on the next pass.
pub fn resolve_outcome(peers: &Vec<PeerKey>, reply: Result<ResolvedRoutes, DirectoryError>, relay: &Route) -> (r:
    ResolvedRoutes)
    ensures
        r@ == spec_resolve_outcome(keys_view(peers@), reply_resolved_view(reply), relay@),
{
    match reply {
        Ok(r) => r,
        Err(DirectoryError::Unsupported(_)) => {
            let mut entries: Vec<ResolvedEntry> = Vec::new();
            let mut i: usize = 0;
            while i < peers.len()
                invariant
                    i <= peers.len(),
                    (ResolvedRoutes { entries })@ == keys_view(peers@).subrange(0, i as int).map_values(
                        circuit_answer(relay@),
                    ),
                decreases peers.len() - i,
            {
                let c = synthesize_circuit(relay, &peers[i]).unwrap();
                let mut routes: Vec<Route> = Vec::new();
                routes.push(c);
                let ghost before = (ResolvedRoutes { entries })@;
                let e = ResolvedEntry { peer: peers[i].duplicate(), routes };
                assert(routes_view(e.routes@) =~= seq![spec_circuit(relay@, peers@[i as int]@)]);
                assert((e.peer@, routes_view(e.routes@)) == circuit_answer(relay@)(keys_view(peers@)[i as int]));
                entries.push(e);
                i = i + 1;
                assert((ResolvedRoutes { entries })@ =~= before.push(
                    (e.peer@, routes_view(e.routes@)),
                ));
                assert((ResolvedRoutes { entries })@ =~= keys_view(peers@).subrange(0, i as int).map_values(
                    circuit_answer(relay@),
                ));
            }
            assert(keys_view(peers@).subrange(0, peers@.len() as int) =~= keys_view(peers@));
            ResolvedRoutes { entries }
        },
        Err(_) => ResolvedRoutes::empty(),
    }
}

proof fn lemma_nonempty_set<A>(s: Seq<A>)
    ensures
        (s.len() > 0) == (s.to_set() != Set::<A>::empty()),
{
    if s.len() > 0 {
        assert(s.to_set().contains(s[0]));
    } else {
        assert(s.to_set() =~= Set::<A>::empty());
    }
}

/// The routes of one attempt to reach `peer`: its tagged remembered route
/// (if any) and every route the hub answered, raced together; a relay
/// circuit through the hub when there is none. No route is listed twice.
pub fn reach_routes(tagged: &Vec<Route>, resolved: &ResolvedRoutes, peer: &PeerKey, relay: &Route) -> (routes: Vec<Route>)
    ensures
        routes_view(routes@).no_duplicates(),
        routes_view(routes@).to_set() == spec_reach_routes(routes_view(tagged@), resolved@, peer@, relay@),
        routes@.len() > 0,
{
    let mut routes: Vec<Route> = Vec::new();
    assert(routes_view(routes@) =~= Seq::<RouteView>::empty());
    assert(routes_view(routes@).to_set() =~= Set::<RouteView>::empty());
    extend_routes(&mut routes, tagged);
    let all = resolved.all_routes();
    extend_routes(&mut routes, &all);
    let ghost both = routes_view(tagged@).to_set().union(spec_all_routes(resolved@).to_set());
    assert(routes_view(routes@).to_set() =~= both);
    proof { lemma_nonempty_set(routes_view(routes@)); }
    if routes.len() == 0 {
        let c = synthesize_circuit(relay, peer).unwrap();
        assert(routes_view(routes@) =~= Seq::<RouteView>::empty());
        insert_route(&mut routes, c);
        assert(routes_view(routes@) =~= seq![spec_circuit(relay@, peer@)]);
        assert(routes_view(routes@).to_set() =~= set![spec_circuit(relay@, peer@)]);
    }
    routes
}

/// Whether `a` leads to `avoid`.
fn goes_to_avoided(a: &Route, avoid: &Option<PeerKey>) -> (b: bool)
    ensures
        b == leads_to_avoided(a@, opt_key(*avoid)),
{
    match avoid {
        None => false,
        Some(k) => match a.last_p2p() {
            Some(p) => p.same(k),
            None => false,
        },
    }
}

/// The view of an optional key.
pub open spec fn opt_key(k: Option<PeerKey>) -> Option<Seq<char>> {
    match k {
        Some(k) => Some(k@),
        None => None,
    }
}

/// Add the routes of `more` that do not lead to `avoid`.
fn extend_routes_avoiding(routes: &mut Vec<Route>, more: &Vec<Route>, avoid: &Option<PeerKey>)
    requires
        routes_view(old(routes)@).no_duplicates(),
    ensures
        routes_view(final(routes)@).no_duplicates(),
        routes_view(final(routes)@).to_set() == routes_view(old(routes)@).to_set().union(
            spec_routes_avoiding(routes_view(more@), opt_key(*avoid)),
        ),
{
    let mut i: usize = 0;
    while i < more.len()
        invariant
            i <= more.len(),
            routes_view(routes@).no_duplicates(),
            routes_view(routes@).to_set() == routes_view(old(routes)@).to_set().union(
                spec_routes_avoiding(routes_view(more@).subrange(0, i as int), opt_key(*avoid)),
            ),
        decreases more.len() - i,
    {
        let ghost prefix = routes_view(more@).subrange(0, i + 1);
        assert(prefix.drop_last() =~= routes_view(more@).subrange(0, i as int));
        assert(prefix.last() == more@[i as int]@);
        if !goes_to_avoided(&more[i], avoid) {
            insert_route(routes, more[i].duplicate());
        }
        i = i + 1;
        assert(routes_view(routes@).to_set() =~= routes_view(old(routes)@).to_set().union(
            spec_routes_avoiding(prefix, opt_key(*avoid))));
    }
    assert(routes_view(more@).subrange(0, more@.len() as int) =~= routes_view(more@));
}

/// The routes of a discovery attempt: every candidate's hub routes, or a
/// relay circuit for a candidate the hub gave none; each route once. The
/// avoided peer, and every route leading to it, is left out.
pub fn discovery_addresses(cands: &Vec<PoolPeer>, relay: &Route, avoid: &Option<PeerKey>) -> (routes: Vec<Route>)
    ensures
        routes_view(routes@).no_duplicates(),
        routes_view(routes@).to_set() == spec_discovery_addresses(pool_peers_view(cands@), relay@, opt_key(*avoid)),
{
    let mut routes: Vec<Route> = Vec::new();
    assert(routes_view(routes@) =~= Seq::<RouteView>::empty());
    let mut i: usize = 0;
    while i < cands.len()
        invariant
            i <= cands.len(),
            routes_view(routes@).no_duplicates(),
            routes_view(routes@).to_set() == spec_discovery_addresses(
                pool_peers_view(cands@).subrange(0, i as int),
                relay@,
                opt_key(*avoid),
            ),
        decreases cands.len() - i,
    {
        let ghost prefix = pool_peers_view(cands@).subrange(0, i + 1);
        assert(prefix.drop_last() =~= pool_peers_view(cands@).subrange(0, i as int));
        assert(prefix.last() == cands@[i as int]@);
        let skipped = match avoid {
            Some(k) => cands[i].peer_id.same(k),
            None => false,
        };
        if skipped {
        } else if cands[i].addresses.len() == 0 {
            let c = synthesize_circuit(relay, &cands[i].peer_id).unwrap();
            insert_route(&mut routes, c);
        } else {
            extend_routes_avoiding(&mut routes, &cands[i].addresses, avoid);
        }
        i = i + 1;
        assert(routes_view(routes@).to_set() =~= spec_discovery_addresses(prefix, relay@, opt_key(*avoid)));
    }
    assert(pool_peers_view(cands@).subrange(0, cands@.len() as int) =~= pool_peers_view(cands@));
    routes
}

/// Per rank of the pinned list: the peer, its rank, and whether it has a
/// dialable route this pass.
pub fn pinned_statuses(pinned: &Vec<DestinationPeerEntry>, resolved: &ResolvedRoutes) -> (s: Vec<PinnedPeerStatus>)
    ensures
        statuses_view(s@) == spec_statuses(entries_view(pinned@), resolved@),
{
    let mut s: Vec<PinnedPeerStatus> = Vec::new();
    let mut i: usize = 0;
    while i < pinned.len()
        invariant
            i <= pinned.len(),
            statuses_view(s@) == spec_statuses(entries_view(pinned@), resolved@).subrange(0, i as int),
        decreases pinned.len() - i,
    {
        let routes = candidate_routes(&pinned[i], resolved);
        proof { lemma_nonempty_set(routes_view(routes@)); }
        let st = PinnedPeerStatus { peer_id: pinned[i].peer_id.duplicate(), rank: i, resolvable: routes.len() > 0 };
        assert(st@ == spec_statuses(entries_view(pinned@), resolved@)[i as int]);
        let ghost before = s@;
        s.push(st);
        assert(statuses_view(s@) =~= statuses_view(before).push(st@));
        i = i + 1;
        assert(statuses_view(s@) =~= spec_statuses(entries_view(pinned@), resolved@).subrange(0, i as int));
    }
    assert(spec_statuses(entries_view(pinned@), resolved@).subrange(0, pinned@.len() as int) =~= spec_statuses(
        entries_view(pinned@),
        resolved@,
    ));
    s
}

/// The first rank at or after `from` with a dialable route, and its routes.
pub fn first_rank(pinned: &Vec<DestinationPeerEntry>, resolved: &ResolvedRoutes, from: usize) -> (r: Option<(usize, Vec<Route>)>)
    ensures
        match r {
            Some((rank, routes)) => spec_first_rank(entries_view(pinned@), resolved@, from as nat) == Some(rank as nat)
                && routes_view(routes@).no_duplicates() && routes@.len() > 0
                && routes_view(routes@).to_set() == spec_candidate_routes(entries_view(pinned@)[rank as int], resolved@),
            None => spec_first_rank(entries_view(pinned@), resolved@, from as nat) is None,
        },
    decreases pinned.len() - from,
{
    if from >= pinned.len() {
        return None;
    }
    let routes = candidate_routes(&pinned[from], resolved);
    proof { lemma_nonempty_set(routes_view(routes@)); }
    if routes.len() > 0 {
        Some((from, routes))
    } else {
        first_rank(pinned, resolved, from + 1)
    }
}

/// "All <n> pinned peer(s) for :<port> are offline or unresolvable."
pub fn pinned_exhausted_message(count: usize, port: u16) -> (m: String)
    ensures
        m@ == spec_pinned_exhausted_message(count as nat, port),
{
    let c = decimal_string(count as u128);
    let p = decimal_string(port as u128);
    let s1 = concat("All ", c.as_str());
    let s2 = concat(s1.as_str(), " pinned peer(s) for :");
    let s3 = concat(s2.as_str(), p.as_str());
    concat(s3.as_str(), " are offline or unresolvable.")
}

/// "Failed to connect with any peer for :<port> after 20 attempts
/// (filter: <summary>)."
pub fn discovery_exhausted_message(port: u16, summary: &str) -> (m: String)
    ensures
        m@ == spec_discovery_exhausted_message(port, summary@),
{
    let p = decimal_string(port as u128);
    let a = decimal_string(MAX_DISCOVERY_ATTEMPTS as u128);
    let s1 = concat("Failed to connect with any peer for :", p.as_str());
    let s2 = concat(s1.as_str(), " after ");
    let s3 = concat(s2.as_str(), a.as_str());
    let s4 = concat(s3.as_str(), " attempts (filter: ");
    let s5 = concat(s4.as_str(), summary);
    concat(s5.as_str(), ").")
}

} // verus!
