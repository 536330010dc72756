//! The connect flow as a state machine. `ConnectFlow::start` and
//! `ConnectFlow::resume` each return the events to surface and the one
//! request the driver must carry out next (resolve, find, dial, probe,
//! sleep, or done); the driver answers it with a `ConnectReply`. The
//! remembered-exit store is read and updated in place.
use std::time::Duration;
use vstd::prelude::*;

use crate::backoff::{min_nat, saturating_scale, Backoff, BackoffView};
use crate::config::{entries_view, spec_fingerprint, spec_options_summary, DestinationPeerEntry, Server, StickyReconnect};
use crate::filters::opt_text;
use crate::connect::{
    reply_resolved_view, lemma_discovery_avoids, leads_to_avoided,
    discovery_addresses, discovery_exhausted_message, first_rank, pinned_exhausted_message, pinned_statuses,
    reach_routes, resolve_outcome, spec_discovery_addresses, spec_discovery_exhausted_message, spec_first_rank,
    spec_pinned_exhausted_message, spec_reach_routes, spec_resolve_outcome, spec_statuses,
    FINDNODES_DISCOVERY_LIMIT, MAX_DISCOVERY_ATTEMPTS, MAX_PINNED_PASSES, STICKY_RECONNECT_ATTEMPTS,
};
use crate::errors::{ConnectError, ConnectErrorView, DirectoryError, DirectoryErrorView};
use crate::events::{pool_peers_view, statuses_view, DestinationSource, Events, PinnedPeerStatus, PoolPeer};
use crate::route::{keys_view, routes_view, spec_last_p2p, spec_with_p2p, PeerKey, Route, RouteView};
use crate::selection::{spec_candidate_routes, spec_destination_peers, ResolvedRoutes, ResolvedView};
use crate::sticky::{
    direct_of, forget_effect, opt_route_view, pool_base, pool_effect, pool_ids, remembered_into, remembered_peers, spec_find, PoolView,
    StickyState,
};
use crate::time::{duration_from_nanos, duration_from_nanos_exec, max_duration_nanos};

verus! {

/// The peer a connect effort landed on, and how it was chosen.
#[derive(Debug, Clone)]
pub struct ConnectedDestination {
    pub peer: PeerKey,
    pub source: DestinationSource,
}

/// What the driver must do next.
#[derive(Debug)]
pub enum ConnectRequest {
    /// Ask the hub for the current routes of these peers.
    ResolvePeers(Vec<PeerKey>),
    /// Ask the hub for up to this many candidates matching the server's
    /// filters.
    FindNodes(usize),
    /// Dial these routes together; answer with the peer that connected.
    Dial(Vec<Route>),
    /// Answer whether this peer is connected.
    IsConnected(PeerKey),
    /// Sleep this long.
    Sleep(Duration),
    /// The effort is over.
    Done(Result<ConnectedDestination, ConnectError>),
}

/// The driver's answer to the last request.
#[derive(Debug)]
pub enum ConnectReply {
    Resolved(Result<ResolvedRoutes, DirectoryError>),
    Found(Result<Vec<PoolPeer>, DirectoryError>),
    /// The peer a dial connected to, if any.
    Dialed(Option<PeerKey>),
    Connected(bool),
    Slept,
}

/// The events to surface, then the next request.
#[derive(Debug)]
pub struct ConnectStep {
    pub emit: Vec<Events>,
    pub request: ConnectRequest,
}

pub enum RequestView {
    ResolvePeers(Seq<Seq<char>>),
    FindNodes(nat),
    Dial(Set<RouteView>),
    IsConnected(Seq<char>),
    /// A sleep, by its length in nanoseconds.
    Sleep(nat),
    Done(Result<(Seq<char>, DestinationSource), ConnectErrorView>),
}

pub enum ReplyView {
    Resolved(Result<ResolvedView, DirectoryErrorView>),
    Found(Result<Seq<(Seq<char>, Seq<RouteView>)>, DirectoryErrorView>),
    Dialed(Option<Seq<char>>),
    Connected(bool),
    Slept,
}

pub enum EmitView {
    ServerPool(u16, Seq<(Seq<char>, Seq<RouteView>)>),
    PinnedStatuses(u16, Seq<(Seq<char>, usize, bool)>),
    Error(Seq<char>),
    Other,
}

pub open spec fn emit_view(e: Events) -> EmitView {
    match e {
        Events::ServerPool { port, peers } => EmitView::ServerPool(port, pool_peers_view(peers@)),
        Events::PinnedPeerStatuses { port, statuses } => EmitView::PinnedStatuses(port, statuses_view(statuses@)),
        Events::Error(m) => EmitView::Error(m@),
        _ => EmitView::Other,
    }
}

pub open spec fn emits_view(v: Seq<Events>) -> Seq<EmitView> {
    v.map_values(|e: Events| emit_view(e))
}

impl View for ConnectReply {
    type V = ReplyView;

    open spec fn view(&self) -> ReplyView {
        match self {
            ConnectReply::Resolved(Ok(r)) => ReplyView::Resolved(Ok(r@)),
            ConnectReply::Resolved(Err(e)) => ReplyView::Resolved(Err(e@)),
            ConnectReply::Found(Ok(c)) => ReplyView::Found(Ok(pool_peers_view(c@))),
            ConnectReply::Found(Err(e)) => ReplyView::Found(Err(e@)),
            ConnectReply::Dialed(Some(k)) => ReplyView::Dialed(Some(k@)),
            ConnectReply::Dialed(None) => ReplyView::Dialed(None),
            ConnectReply::Connected(b) => ReplyView::Connected(*b),
            ConnectReply::Slept => ReplyView::Slept,
        }
    }
}

/// Whether `req` carries out the request `rv`.
pub open spec fn request_matches(req: ConnectRequest, rv: RequestView) -> bool {
    match (req, rv) {
        (ConnectRequest::ResolvePeers(v), RequestView::ResolvePeers(s)) => keys_view(v@) == s,
        (ConnectRequest::FindNodes(k), RequestView::FindNodes(n)) => k == n,
        (ConnectRequest::Dial(v), RequestView::Dial(s)) => routes_view(v@).no_duplicates() && routes_view(v@).to_set()
            == s && v@.len() > 0,
        (ConnectRequest::IsConnected(k), RequestView::IsConnected(p)) => k@ == p,
        (ConnectRequest::Sleep(d), RequestView::Sleep(n)) => d == duration_from_nanos(n),
        (ConnectRequest::Done(Ok(dest)), RequestView::Done(Ok((p, src)))) => dest.peer@ == p && dest.source == src,
        (ConnectRequest::Done(Err(e)), RequestView::Done(Err(ev))) => e@ == ev,
        _ => false,
    }
}

/// The fixed inputs of one connect effort.
pub struct ConnectConfigView {
    pub port: u16,
    pub pinned: Seq<(Seq<char>, Option<RouteView>)>,
    pub fallback: bool,
    pub sticky: bool,
    pub reconnect: StickyReconnect,
    pub fingerprint: Seq<char>,
    pub summary: Seq<char>,
    pub max_total: usize,
    pub relay: RouteView,
}

/// Who a reach attempt is for: the dropped exit being reconnected, or a
/// remembered pool member.
pub enum ReachView {
    Reconnect { attempt: nat, backoff: BackoffView, old: Seq<char> },
    Pool { members: Seq<Seq<char>>, idx: nat },
}

pub enum PhaseView {
    PinnedResolve { pass: nat },
    PinnedDial { pass: nat, rank: nat, resolved: ResolvedView },
    PinnedBetter { rank: nat, peer: Seq<char>, better: nat },
    PinnedSleep { pass: nat },
    ReachResolve { reach: ReachView, peer: Seq<char>, tagged: Seq<RouteView> },
    ReachDial { reach: ReachView, dialed: Set<Seq<char>> },
    ReconnectSleep { attempt: nat, backoff: BackoffView, old: Seq<char> },
    DiscoverFind { attempt: nat },
    DiscoverSleep { attempt: nat },
    DiscoverDial { attempt: nat, dialed: Set<Seq<char>> },
    Finished,
}

pub struct FlowView {
    pub config: ConnectConfigView,
    /// The peer that just dropped: skipped by the pool pass and by discovery.
    pub avoid: Option<Seq<char>>,
    pub phase: PhaseView,
}

/// One transition: the flow and store after it, the events surfaced, the
/// request made, and the peer (if any) remembered as the new front exit.
pub struct NextView {
    pub flow: FlowView,
    pub sticky: Map<u16, PoolView>,
    pub emits: Seq<EmitView>,
    pub request: RequestView,
    pub remember: Option<Seq<char>>,
}

/// One second.
pub open spec fn second() -> nat {
    1_000_000_000
}

/// The reconnect schedule: 1 s, doubling, capped at 8 s.
pub open spec fn reconnect_backoff() -> BackoffView {
    BackoffView { initial: 1_000_000_000, current: 1_000_000_000, factor: 2, max: 8_000_000_000 }
}

pub open spec fn backoff_wf(b: BackoffView) -> bool {
    b.initial <= max_duration_nanos() && b.current <= max_duration_nanos() && b.max <= max_duration_nanos()
        && b.factor >= 1
}

/// The schedule's next delay.
pub open spec fn backoff_delay(b: BackoffView) -> nat {
    min_nat(b.current, b.max)
}

/// The schedule after one delay.
pub open spec fn backoff_advanced(b: BackoffView) -> BackoffView {
    BackoffView { current: min_nat(saturating_scale(b.current, b.factor), b.max), ..b }
}

pub open spec fn with_phase(f: FlowView, p: PhaseView) -> FlowView {
    FlowView { config: f.config, avoid: f.avoid, phase: p }
}

/// The flow of an effort with inputs `c` and avoided peer `a`.
pub struct Ctx {
    pub c: ConnectConfigView,
    pub a: Option<Seq<char>>,
}

pub open spec fn ctx_of(f: FlowView) -> Ctx {
    Ctx { c: f.config, a: f.avoid }
}

pub open spec fn step_to(x: Ctx, m: Map<u16, PoolView>, emits: Seq<EmitView>, p: PhaseView, r: RequestView) -> NextView {
    NextView { flow: FlowView { config: x.c, avoid: x.a, phase: p }, sticky: m, emits, request: r, remember: None }
}

pub open spec fn finish(
    x: Ctx,
    m: Map<u16, PoolView>,
    emits: Seq<EmitView>,
    outcome: Result<(Seq<char>, DestinationSource), ConnectErrorView>,
    remember: Option<Seq<char>>,
) -> NextView {
    NextView {
        flow: FlowView { config: x.c, avoid: x.a, phase: PhaseView::Finished },
        sticky: m,
        emits,
        request: RequestView::Done(outcome),
        remember,
    }
}

pub open spec fn pinned_ids(c: ConnectConfigView) -> Seq<Seq<char>> {
    c.pinned.map_values(|e: (Seq<char>, Option<RouteView>)| e.0)
}

/// A pass over the pinned list starts by resolving every pinned peer.
pub open spec fn spec_begin_pass(x: Ctx, m: Map<u16, PoolView>, emits: Seq<EmitView>, pass: nat) -> NextView {
    step_to(x, m, emits, PhaseView::PinnedResolve { pass }, RequestView::ResolvePeers(pinned_ids(x.c)))
}

/// The end of a pass with no pinned peer reached: fall back to discovery
/// when opted in, else sleep a second before the next pass.
pub open spec fn spec_end_pass(x: Ctx, m: Map<u16, PoolView>, emits: Seq<EmitView>, pass: nat) -> NextView {
    if x.c.fallback {
        spec_begin_discovered(Ctx { c: x.c, a: None }, m, emits)
    } else {
        step_to(x, m, emits, PhaseView::PinnedSleep { pass }, RequestView::Sleep(second()))
    }
}

/// Dial the first rank at or after `from` with a dialable route.
pub open spec fn spec_seek_rank(
    x: Ctx,
    m: Map<u16, PoolView>,
    emits: Seq<EmitView>,
    pass: nat,
    from: nat,
    resolved: ResolvedView,
) -> NextView {
    match spec_first_rank(x.c.pinned, resolved, from) {
        Some(r) => step_to(
            x,
            m,
            emits,
            PhaseView::PinnedDial { pass, rank: r, resolved },
            RequestView::Dial(spec_candidate_routes(x.c.pinned[r as int], resolved)),
        ),
        None => spec_end_pass(x, m, emits, pass),
    }
}

/// A peer reached at `rank`: a better rank that is already connected wins.
pub open spec fn spec_check_better(x: Ctx, m: Map<u16, PoolView>, rank: nat, peer: Seq<char>, better: nat) -> NextView {
    if better < rank {
        step_to(
            x,
            m,
            Seq::empty(),
            PhaseView::PinnedBetter { rank, peer, better },
            RequestView::IsConnected(x.c.pinned[better as int].0),
        )
    } else {
        finish(x, m, Seq::empty(), Ok((peer, DestinationSource::Pinned { rank: rank as usize })), None)
    }
}

/// Discovery-driven connect: reconnect the dropped exit with backoff when
/// configured, else go to the remembered pool.
pub open spec fn spec_begin_discovered(x: Ctx, m: Map<u16, PoolView>, emits: Seq<EmitView>) -> NextView {
    match x.a {
        Some(old) => if x.c.sticky && x.c.reconnect == StickyReconnect::WithBackoff {
            spec_reach(x, m, emits, ReachView::Reconnect { attempt: 0, backoff: reconnect_backoff(), old }, old)
        } else {
            spec_begin_pool(x, m, emits)
        },
        None => spec_begin_pool(x, m, emits),
    }
}

/// The remembered direct route of `peer`, tagged with its id.
pub open spec fn spec_tagged(m: Map<u16, PoolView>, port: u16, peer: Seq<char>) -> Seq<RouteView> {
    match direct_of(m, port, peer) {
        Some(d) => match spec_with_p2p(d, peer) {
            Ok(t) => seq![t],
            Err(_) => Seq::empty(),
        },
        None => Seq::empty(),
    }
}

/// One attempt to reach a known peer starts by resolving it.
pub open spec fn spec_reach(x: Ctx, m: Map<u16, PoolView>, emits: Seq<EmitView>, reach: ReachView, peer: Seq<char>) -> NextView {
    step_to(
        x,
        m,
        emits,
        PhaseView::ReachResolve { reach, peer, tagged: spec_tagged(m, x.c.port, peer) },
        RequestView::ResolvePeers(seq![peer]),
    )
}

/// Read the remembered pool (dropping it on a filter change) and try its
/// members; without stickiness, go straight to discovery.
pub open spec fn spec_begin_pool(x: Ctx, m: Map<u16, PoolView>, emits: Seq<EmitView>) -> NextView {
    if !x.c.sticky {
        spec_begin_discovery(x, m, emits, 0)
    } else {
        spec_next_member(
            x,
            pool_effect(m, x.c.port, x.c.fingerprint),
            emits,
            pool_ids(pool_base(m, x.c.port, x.c.fingerprint)),
            0,
        )
    }
}

/// Try the first member at or after `from` that is not the avoided peer;
/// with none left, discover.
pub open spec fn spec_next_member(
    x: Ctx,
    m: Map<u16, PoolView>,
    emits: Seq<EmitView>,
    members: Seq<Seq<char>>,
    from: nat,
) -> NextView
    decreases members.len() - from,
{
    if from >= members.len() {
        spec_begin_discovery(x, m, emits, 0)
    } else if x.a == Some(members[from as int]) {
        spec_next_member(x, m, emits, members, from + 1)
    } else {
        spec_reach(x, m, emits, ReachView::Pool { members, idx: from }, members[from as int])
    }
}

/// A discovery attempt asks the hub for candidates; after the last one the
/// effort is reported exhausted.
pub open spec fn spec_begin_discovery(x: Ctx, m: Map<u16, PoolView>, emits: Seq<EmitView>, attempt: nat) -> NextView {
    if attempt < MAX_DISCOVERY_ATTEMPTS {
        step_to(x, m, emits, PhaseView::DiscoverFind { attempt }, RequestView::FindNodes(FINDNODES_DISCOVERY_LIMIT as nat))
    } else {
        finish(
            x,
            m,
            emits.push(EmitView::Error(spec_discovery_exhausted_message(x.c.port, x.c.summary))),
            Err(ConnectErrorView::DiscoveryExhausted { port: x.c.port, attempts: MAX_DISCOVERY_ATTEMPTS }),
            None,
        )
    }
}

/// The first step of a connect effort: the pinned list when there is one,
/// else discovery.
pub open spec fn spec_start(f: FlowView, m: Map<u16, PoolView>) -> NextView {
    if f.config.pinned.len() > 0 {
        spec_begin_pass(ctx_of(f), m, Seq::empty(), 0)
    } else {
        spec_begin_discovered(ctx_of(f), m, Seq::empty())
    }
}

/// Whether `r` answers the request made in `p`.
pub open spec fn expects(p: PhaseView, r: ReplyView) -> bool {
    match p {
        PhaseView::PinnedResolve { .. } => r is Resolved,
        PhaseView::ReachResolve { .. } => r is Resolved,
        PhaseView::PinnedDial { .. } => r is Dialed,
        PhaseView::ReachDial { .. } => r is Dialed,
        PhaseView::DiscoverDial { .. } => r is Dialed,
        PhaseView::PinnedBetter { .. } => r is Connected,
        PhaseView::PinnedSleep { .. } => r is Slept,
        PhaseView::ReconnectSleep { .. } => r is Slept,
        PhaseView::DiscoverSleep { .. } => r is Slept,
        PhaseView::DiscoverFind { .. } => r is Found,
        PhaseView::Finished => false,
    }
}

/// Whether `r` answers the request made in `f`: of the expected kind, and,
/// for a dial, naming only a peer that one of the dialed routes leads to.
pub open spec fn answers(f: FlowView, r: ReplyView) -> bool {
    &&& expects(f.phase, r)
    &&& (r matches ReplyView::Dialed(Some(p)) ==> match f.phase {
        PhaseView::PinnedDial { rank, resolved, .. } => spec_destination_peers(
            spec_candidate_routes(f.config.pinned[rank as int], resolved),
        ).contains(p),
        PhaseView::ReachDial { dialed, .. } => dialed.contains(p),
        PhaseView::DiscoverDial { dialed, .. } => dialed.contains(p),
        _ => true,
    })
}

/// The flow's step on the driver's answer.
pub open spec fn spec_resume(f: FlowView, m: Map<u16, PoolView>, reply: ReplyView) -> NextView {
    let c = f.config;
    let x = ctx_of(f);
    match f.phase {
        PhaseView::PinnedResolve { pass } => match reply {
            ReplyView::Resolved(res) => {
                let resolved = spec_resolve_outcome(pinned_ids(c), res, c.relay);
                spec_seek_rank(
                    x,
                    m,
                    seq![EmitView::PinnedStatuses(c.port, spec_statuses(c.pinned, resolved))],
                    pass,
                    0,
                    resolved,
                )
            },
            _ => finish(x, m, Seq::empty(), Err(ConnectErrorView::Shutdown), None),
        },
        PhaseView::PinnedDial { pass, rank, resolved } => match reply {
            ReplyView::Dialed(None) => spec_seek_rank(x, m, Seq::empty(), pass, rank + 1, resolved),
            ReplyView::Dialed(Some(p)) => spec_check_better(x, m, rank, p, 0),
            _ => finish(x, m, Seq::empty(), Err(ConnectErrorView::Shutdown), None),
        },
        PhaseView::PinnedBetter { rank, peer, better } => match reply {
            ReplyView::Connected(true) => finish(
                x,
                m,
                Seq::empty(),
                Ok((c.pinned[better as int].0, DestinationSource::Pinned { rank: better as usize })),
                None,
            ),
            ReplyView::Connected(false) => spec_check_better(x, m, rank, peer, better + 1),
            _ => finish(x, m, Seq::empty(), Err(ConnectErrorView::Shutdown), None),
        },
        PhaseView::PinnedSleep { pass } => if pass + 1 < MAX_PINNED_PASSES {
            spec_begin_pass(x, m, Seq::empty(), pass + 1)
        } else {
            finish(
                x,
                m,
                seq![EmitView::Error(spec_pinned_exhausted_message(c.pinned.len(), c.port))],
                Err(ConnectErrorView::PinnedExhausted { port: c.port, count: c.pinned.len() as usize }),
                None,
            )
        },
        PhaseView::ReachResolve { reach, peer, tagged } => match reply {
            ReplyView::Resolved(res) => {
                let resolved = spec_resolve_outcome(seq![peer], res, c.relay);
                step_to(
                    x,
                    m,
                    Seq::empty(),
                    PhaseView::ReachDial { reach, dialed: spec_destination_peers(spec_reach_routes(tagged, resolved, peer, c.relay)) },
                    RequestView::Dial(spec_reach_routes(tagged, resolved, peer, c.relay)),
                )
            },
            _ => finish(x, m, Seq::empty(), Err(ConnectErrorView::Shutdown), None),
        },
        PhaseView::ReachDial { reach, .. } => match reply {
            ReplyView::Dialed(Some(p)) => finish(
                x,
                m,
                Seq::empty(),
                Ok((p, DestinationSource::Sticky)),
                if c.sticky { Some(p) } else { None },
            ),
            ReplyView::Dialed(None) => match reach {
                ReachView::Reconnect { attempt, backoff, old } => if attempt + 1 < STICKY_RECONNECT_ATTEMPTS {
                    step_to(
                        x,
                        m,
                        Seq::empty(),
                        PhaseView::ReconnectSleep { attempt, backoff: backoff_advanced(backoff), old },
                        RequestView::Sleep(backoff_delay(backoff)),
                    )
                } else {
                    spec_begin_pool(x, forget_effect(m, c.port, old), Seq::empty())
                },
                ReachView::Pool { members, idx } => spec_next_member(
                    x,
                    forget_effect(m, c.port, members[idx as int]),
                    Seq::empty(),
                    members,
                    idx + 1,
                ),
            },
            _ => finish(x, m, Seq::empty(), Err(ConnectErrorView::Shutdown), None),
        },
        PhaseView::ReconnectSleep { attempt, backoff, old } => spec_reach(
            x,
            m,
            Seq::empty(),
            ReachView::Reconnect { attempt: attempt + 1, backoff, old },
            old,
        ),
        PhaseView::DiscoverFind { attempt } => match reply {
            ReplyView::Found(Err(_)) => step_to(
                x,
                m,
                Seq::empty(),
                PhaseView::DiscoverSleep { attempt },
                RequestView::Sleep(second()),
            ),
            ReplyView::Found(Ok(cands)) => if spec_discovery_addresses(cands, c.relay, x.a) == Set::<RouteView>::empty() {
                step_to(
                    x,
                    m,
                    seq![EmitView::ServerPool(c.port, cands)],
                    PhaseView::DiscoverSleep { attempt },
                    RequestView::Sleep(second()),
                )
            } else {
                step_to(
                    x,
                    m,
                    seq![EmitView::ServerPool(c.port, cands)],
                    PhaseView::DiscoverDial { attempt, dialed: spec_destination_peers(spec_discovery_addresses(cands, c.relay, x.a)) },
                    RequestView::Dial(spec_discovery_addresses(cands, c.relay, x.a)),
                )
            },
            _ => finish(x, m, Seq::empty(), Err(ConnectErrorView::Shutdown), None),
        },
        PhaseView::DiscoverSleep { attempt } => spec_begin_discovery(x, m, Seq::empty(), attempt + 1),
        PhaseView::DiscoverDial { attempt, .. } => match reply {
            ReplyView::Dialed(Some(p)) => finish(
                x,
                m,
                Seq::empty(),
                Ok((p, DestinationSource::Discovered)),
                if c.sticky { Some(p) } else { None },
            ),
            ReplyView::Dialed(None) => spec_begin_discovery(x, m, Seq::empty(), attempt + 1),
            _ => finish(x, m, Seq::empty(), Err(ConnectErrorView::Shutdown), None),
        },
        PhaseView::Finished => finish(x, m, Seq::empty(), Err(ConnectErrorView::Shutdown), None),
    }
}

/// The bounds every live flow keeps.
pub open spec fn reach_wf(r: ReachView) -> bool {
    match r {
        ReachView::Reconnect { attempt, backoff, .. } => attempt < STICKY_RECONNECT_ATTEMPTS && backoff_wf(backoff),
        ReachView::Pool { members, idx } => idx < members.len(),
    }
}

pub open spec fn flow_wf(f: FlowView) -> bool {
    match f.phase {
        PhaseView::PinnedResolve { pass } => pass < MAX_PINNED_PASSES,
        PhaseView::PinnedDial { pass, rank, .. } => pass < MAX_PINNED_PASSES && rank < f.config.pinned.len(),
        PhaseView::PinnedBetter { rank, better, .. } => better < rank && rank < f.config.pinned.len(),
        PhaseView::PinnedSleep { pass } => pass < MAX_PINNED_PASSES,
        PhaseView::ReachResolve { reach, .. } => reach_wf(reach),
        PhaseView::ReachDial { reach, .. } => reach_wf(reach),
        PhaseView::ReconnectSleep { attempt, backoff, .. } => attempt + 1 < STICKY_RECONNECT_ATTEMPTS && backoff_wf(
            backoff,
        ),
        PhaseView::DiscoverFind { attempt } => attempt < MAX_DISCOVERY_ATTEMPTS,
        PhaseView::DiscoverSleep { attempt } => attempt < MAX_DISCOVERY_ATTEMPTS,
        PhaseView::DiscoverDial { attempt, dialed } => attempt < MAX_DISCOVERY_ATTEMPTS && (f.avoid matches Some(k) ==> !dialed.contains(k)),
        PhaseView::Finished => true,
    }
}

/// `flow` and `sticky` are the state after `n`, and `step` makes its
/// request and surfaces its events.
pub open spec fn realizes(n: NextView, flow: FlowView, sticky: Map<u16, PoolView>, step: ConnectStep) -> bool {
    &&& flow == n.flow
    &&& emits_view(step.emit@) == n.emits
    &&& request_matches(step.request, n.request)
    &&& match n.remember {
        None => sticky == n.sticky,
        Some(p) => remembered_into(
            n.sticky,
            sticky,
            n.flow.config.port,
            n.flow.config.fingerprint,
            p,
            n.flow.config.max_total as nat,
        ),
    }
}

struct ConnectConfig {
    port: u16,
    pinned: Vec<DestinationPeerEntry>,
    fallback: bool,
    sticky: bool,
    reconnect: StickyReconnect,
    fingerprint: String,
    summary: String,
    max_total: usize,
    relay: Route,
}

enum Reach {
    Reconnect { attempt: usize, backoff: Backoff, old: PeerKey },
    Pool { members: Vec<PeerKey>, idx: usize },
}

enum Phase {
    PinnedResolve { pass: usize },
    PinnedDial { pass: usize, rank: usize, resolved: ResolvedRoutes },
    PinnedBetter { rank: usize, peer: PeerKey, better: usize },
    PinnedSleep { pass: usize },
    ReachResolve { reach: Reach, peer: PeerKey, tagged: Vec<Route> },
    ReachDial { reach: Reach, dialed: Ghost<Set<Seq<char>>> },
    ReconnectSleep { attempt: usize, backoff: Backoff, old: PeerKey },
    DiscoverFind { attempt: usize },
    DiscoverSleep { attempt: usize },
    DiscoverDial { attempt: usize, dialed: Ghost<Set<Seq<char>>> },
    Finished,
}

/// One bounded effort to connect a server to a destination peer.
pub struct ConnectFlow {
    config: ConnectConfig,
    avoid: Option<PeerKey>,
    phase: Phase,
}

spec fn config_view(c: ConnectConfig) -> ConnectConfigView {
    ConnectConfigView {
        port: c.port,
        pinned: entries_view(c.pinned@),
        fallback: c.fallback,
        sticky: c.sticky,
        reconnect: c.reconnect,
        fingerprint: c.fingerprint@,
        summary: c.summary@,
        max_total: c.max_total,
        relay: c.relay@,
    }
}

spec fn reach_view(r: Reach) -> ReachView {
    match r {
        Reach::Reconnect { attempt, backoff, old } => ReachView::Reconnect { attempt: attempt as nat, backoff: backoff@, old: old@ },
        Reach::Pool { members, idx } => ReachView::Pool { members: keys_view(members@), idx: idx as nat },
    }
}

spec fn phase_view(p: Phase) -> PhaseView {
    match p {
        Phase::PinnedResolve { pass } => PhaseView::PinnedResolve { pass: pass as nat },
        Phase::PinnedDial { pass, rank, resolved } => PhaseView::PinnedDial {
            pass: pass as nat,
            rank: rank as nat,
            resolved: resolved@,
        },
        Phase::PinnedBetter { rank, peer, better } => PhaseView::PinnedBetter {
            rank: rank as nat,
            peer: peer@,
            better: better as nat,
        },
        Phase::PinnedSleep { pass } => PhaseView::PinnedSleep { pass: pass as nat },
        Phase::ReachResolve { reach, peer, tagged } => PhaseView::ReachResolve {
            reach: reach_view(reach),
            peer: peer@,
            tagged: routes_view(tagged@),
        },
        Phase::ReachDial { reach, dialed } => PhaseView::ReachDial { reach: reach_view(reach), dialed: dialed@ },
        Phase::ReconnectSleep { attempt, backoff, old } => PhaseView::ReconnectSleep {
            attempt: attempt as nat,
            backoff: backoff@,
            old: old@,
        },
        Phase::DiscoverFind { attempt } => PhaseView::DiscoverFind { attempt: attempt as nat },
        Phase::DiscoverSleep { attempt } => PhaseView::DiscoverSleep { attempt: attempt as nat },
        Phase::DiscoverDial { attempt, dialed } => PhaseView::DiscoverDial { attempt: attempt as nat, dialed: dialed@ },
        Phase::Finished => PhaseView::Finished,
    }
}

pub open spec fn opt_key_view(k: Option<PeerKey>) -> Option<Seq<char>> {
    match k {
        Some(p) => Some(p@),
        None => None,
    }
}

impl View for ConnectFlow {
    type V = FlowView;

    closed spec fn view(&self) -> FlowView {
        FlowView { config: config_view(self.config), avoid: opt_key_view(self.avoid), phase: phase_view(self.phase) }
    }
}

/// The inputs of a connect effort for `server`, dialing relay circuits
/// through `relay`.
pub open spec fn spec_config_of(server: Server, relay: RouteView) -> ConnectConfigView {
    ConnectConfigView {
        port: server.port,
        pinned: server.peer_options.spec_pinned(),
        fallback: server.peer_options.fallback_to_discovery,
        sticky: server.peer_options.sticky,
        reconnect: server.peer_options.sticky_reconnect,
        fingerprint: spec_fingerprint(server.port, opt_text(server.peer_options.country), server.peer_options.min_bandwidth_bps),
        summary: spec_options_summary(server.peer_options.spec_pinned(), opt_text(server.peer_options.country)),
        max_total: server.pool.max_total,
        relay,
    }
}

fn one_second() -> (d: Duration)
    ensures
        d == duration_from_nanos(second()),
{
    duration_from_nanos_exec(1_000_000_000)
}

impl ConnectFlow {
    /// The bounds every live flow keeps.
    pub open spec fn wf(&self) -> bool {
        flow_wf(self@)
    }

    fn emit_one(e: Events) -> (v: Vec<Events>)
        ensures
            emits_view(v@) == seq![emit_view(e)],
    {
        let mut v: Vec<Events> = Vec::new();
        v.push(e);
        assert(emits_view(v@) =~= seq![emit_view(e)]);
        v
    }

    fn push_emit(v: &mut Vec<Events>, e: Events)
        ensures
            emits_view(final(v)@) == emits_view(old(v)@).push(emit_view(e)),
    {
        let ghost before = v@;
        v.push(e);
        assert(emits_view(v@) =~= emits_view(before).push(emit_view(e)));
    }

    fn no_emits() -> (v: Vec<Events>)
        ensures
            emits_view(v@) == Seq::<EmitView>::empty(),
    {
        let v: Vec<Events> = Vec::new();
        assert(emits_view(v@) =~= Seq::<EmitView>::empty());
        v
    }

    fn pinned_keys(&self) -> (v: Vec<PeerKey>)
        ensures
            keys_view(v@) == pinned_ids(self@.config),
    {
        let mut v: Vec<PeerKey> = Vec::new();
        let mut i: usize = 0;
        while i < self.config.pinned.len()
            invariant
                i <= self.config.pinned.len(),
                keys_view(v@) == pinned_ids(self@.config).subrange(0, i as int),
            decreases self.config.pinned.len() - i,
        {
            let k = self.config.pinned[i].peer_id.duplicate();
            let ghost before = v@;
            v.push(k);
            i = i + 1;
            assert(keys_view(v@) =~= keys_view(before).push(k@));
            assert(keys_view(v@) =~= pinned_ids(self@.config).subrange(0, i as int));
        }
        assert(pinned_ids(self@.config).subrange(0, self.config.pinned@.len() as int) =~= pinned_ids(self@.config));
        v
    }

    fn finish(&mut self, emit: Vec<Events>, outcome: Result<ConnectedDestination, ConnectError>) -> (step: ConnectStep)
        ensures
            final(self)@ == with_phase(old(self)@, PhaseView::Finished),
            step.emit@ == emit@,
            step.request == ConnectRequest::Done(outcome),
    {
        self.phase = Phase::Finished;
        ConnectStep { emit, request: ConnectRequest::Done(outcome) }
    }

    fn begin_pass(&mut self, sticky: &mut StickyState, emit: Vec<Events>, pass: usize) -> (step: ConnectStep)
        requires
            pass < MAX_PINNED_PASSES,
        ensures
            flow_wf(final(self)@),
            realizes(spec_begin_pass(ctx_of(old(self)@), old(sticky)@, emits_view(emit@), pass as nat), final(self)@, final(sticky)@, step),
    {
        let ids = self.pinned_keys();
        self.phase = Phase::PinnedResolve { pass };
        ConnectStep { emit, request: ConnectRequest::ResolvePeers(ids) }
    }

    fn begin_discovery(&mut self, sticky: &mut StickyState, emit: Vec<Events>, attempt: usize) -> (step: ConnectStep)
        requires
            attempt <= MAX_DISCOVERY_ATTEMPTS,
        ensures
            flow_wf(final(self)@),
            realizes(spec_begin_discovery(ctx_of(old(self)@), old(sticky)@, emits_view(emit@), attempt as nat), final(self)@, final(sticky)@, step),
    {
        if attempt < MAX_DISCOVERY_ATTEMPTS {
            self.phase = Phase::DiscoverFind { attempt };
            ConnectStep { emit, request: ConnectRequest::FindNodes(FINDNODES_DISCOVERY_LIMIT) }
        } else {
            let msg = discovery_exhausted_message(self.config.port, self.config.summary.as_str());
            let mut emit = emit;
            Self::push_emit(&mut emit, Events::Error(msg));
            let port = self.config.port;
            self.finish(emit, Err(ConnectError::DiscoveryExhausted { port, attempts: MAX_DISCOVERY_ATTEMPTS }))
        }
    }

    fn reach(&mut self, sticky: &mut StickyState, emit: Vec<Events>, reach: Reach, peer: PeerKey) -> (step: ConnectStep)
        requires
            reach_wf(reach_view(reach)),
        ensures
            flow_wf(final(self)@),
            realizes(
                spec_reach(ctx_of(old(self)@), old(sticky)@, emits_view(emit@), reach_view(reach), peer@),
                final(self)@,
                final(sticky)@,
                step,
            ),
    {
        let mut tagged: Vec<Route> = Vec::new();
        match sticky.direct_address(self.config.port, &peer) {
            Some(direct) => match direct.with_p2p(&peer) {
                Ok(t) => {
                    tagged.push(t);
                },
                Err(_) => {},
            },
            None => {},
        }
        assert(routes_view(tagged@) =~= spec_tagged(sticky@, self.config.port, peer@));
        let mut ids: Vec<PeerKey> = Vec::new();
        ids.push(peer.duplicate());
        assert(keys_view(ids@) =~= seq![peer@]);
        self.phase = Phase::ReachResolve { reach, peer, tagged };
        ConnectStep { emit, request: ConnectRequest::ResolvePeers(ids) }
    }

    fn is_avoided(&self, k: &PeerKey) -> (b: bool)
        ensures
            b == (self@.avoid == Some(k@)),
    {
        match &self.avoid {
            Some(a) => a.same(k),
            None => false,
        }
    }

    fn next_member(&mut self, sticky: &mut StickyState, emit: Vec<Events>, members: Vec<PeerKey>, from: usize) -> (step:
        ConnectStep)
        ensures
            flow_wf(final(self)@),
            realizes(
                spec_next_member(ctx_of(old(self)@), old(sticky)@, emits_view(emit@), keys_view(members@), from as nat),
                final(self)@,
                final(sticky)@,
                step,
            ),
    {
        let mut i = from;
        while i < members.len() && self.is_avoided(&members[i])
            invariant
                from <= i || i >= members.len(),
                spec_next_member(ctx_of(self@), sticky@, emits_view(emit@), keys_view(members@), from as nat)
                    == spec_next_member(ctx_of(self@), sticky@, emits_view(emit@), keys_view(members@), i as nat),
            decreases members.len() - i,
        {
            i = i + 1;
        }
        if i >= members.len() {
            self.begin_discovery(sticky, emit, 0)
        } else {
            let peer = members[i].duplicate();
            self.reach(sticky, emit, Reach::Pool { members, idx: i }, peer)
        }
    }

    fn begin_pool(&mut self, sticky: &mut StickyState, emit: Vec<Events>) -> (step: ConnectStep)
        ensures
            flow_wf(final(self)@),
            realizes(spec_begin_pool(ctx_of(old(self)@), old(sticky)@, emits_view(emit@)), final(self)@, final(sticky)@, step),
    {
        if !self.config.sticky {
            return self.begin_discovery(sticky, emit, 0);
        }
        let members = sticky.pool(self.config.port, self.config.fingerprint.as_str());
        self.next_member(sticky, emit, members, 0)
    }

    fn begin_discovered(&mut self, sticky: &mut StickyState, emit: Vec<Events>) -> (step: ConnectStep)
        ensures
            flow_wf(final(self)@),
            realizes(spec_begin_discovered(ctx_of(old(self)@), old(sticky)@, emits_view(emit@)), final(self)@, final(sticky)@, step),
    {
        match &self.avoid {
            Some(old) => {
                if self.config.sticky && self.config.reconnect == StickyReconnect::WithBackoff {
                    let old = old.duplicate();
                    let backoff = Backoff::from_nanos(1_000_000_000, 2, 8_000_000_000);
                    let target = old.duplicate();
                    return self.reach(sticky, emit, Reach::Reconnect { attempt: 0, backoff, old }, target);
                }
            },
            None => {},
        }
        self.begin_pool(sticky, emit)
    }

    fn end_pass(&mut self, sticky: &mut StickyState, emit: Vec<Events>, pass: usize) -> (step: ConnectStep)
        requires
            pass < MAX_PINNED_PASSES,
        ensures
            flow_wf(final(self)@),
            realizes(spec_end_pass(ctx_of(old(self)@), old(sticky)@, emits_view(emit@), pass as nat), final(self)@, final(sticky)@, step),
    {
        if self.config.fallback {
            self.avoid = None;
            self.begin_discovered(sticky, emit)
        } else {
            self.phase = Phase::PinnedSleep { pass };
            ConnectStep { emit, request: ConnectRequest::Sleep(one_second()) }
        }
    }

    fn seek_rank(&mut self, sticky: &mut StickyState, emit: Vec<Events>, pass: usize, from: usize, resolved: ResolvedRoutes) -> (step: ConnectStep)
        requires
            pass < MAX_PINNED_PASSES,
        ensures
            flow_wf(final(self)@),
            realizes(
                spec_seek_rank(ctx_of(old(self)@), old(sticky)@, emits_view(emit@), pass as nat, from as nat, resolved@),
                final(self)@,
                final(sticky)@,
                step,
            ),
    {
        proof { lemma_first_rank_bound(self@.config.pinned, resolved@, from as nat); }
        match first_rank(&self.config.pinned, &resolved, from) {
            Some((rank, routes)) => {
                self.phase = Phase::PinnedDial { pass, rank, resolved };
                ConnectStep { emit, request: ConnectRequest::Dial(routes) }
            },
            None => self.end_pass(sticky, emit, pass),
        }
    }

    fn check_better(&mut self, sticky: &mut StickyState, rank: usize, peer: PeerKey, better: usize) -> (step: ConnectStep)
        requires
            better <= rank,
            rank < old(self)@.config.pinned.len(),
        ensures
            flow_wf(final(self)@),
            realizes(
                spec_check_better(ctx_of(old(self)@), old(sticky)@, rank as nat, peer@, better as nat),
                final(self)@,
                final(sticky)@,
                step,
            ),
    {
        if better < rank {
            let probe = self.config.pinned[better].peer_id.duplicate();
            self.phase = Phase::PinnedBetter { rank, peer, better };
            ConnectStep { emit: Self::no_emits(), request: ConnectRequest::IsConnected(probe) }
        } else {
            let dest = ConnectedDestination { peer, source: DestinationSource::Pinned { rank } };
            self.finish(Self::no_emits(), Ok(dest))
        }
    }

    /// Finish on a reached peer, remembering it as the front exit when the
    /// server is sticky.
    fn adopt(&mut self, sticky: &mut StickyState, peer: PeerKey, source: DestinationSource) -> (step: ConnectStep)
        ensures
            flow_wf(final(self)@),
            realizes(
                finish(
                    ctx_of(old(self)@),
                    old(sticky)@,
                    Seq::empty(),
                    Ok((peer@, source)),
                    if old(self)@.config.sticky { Some(peer@) } else { None },
                ),
                final(self)@,
                final(sticky)@,
                step,
            ),
    {
        if self.config.sticky {
            let ghost before = sticky@;
            sticky.remember(self.config.port, self.config.fingerprint.as_str(), peer.duplicate(), self.config.max_total);
            proof {
                let t = sticky@[self.config.port].peers[0].updated_at;
                assert(remembered_into(before, sticky@, self.config.port, self.config.fingerprint@, peer@, self.config.max_total as nat));
            }
        }
        let dest = ConnectedDestination { peer, source };
        self.finish(Self::no_emits(), Ok(dest))
    }

    /// Begin a connect effort for `server`, reaching relay circuits through
    /// `relay_address`. `avoid` is the peer that just dropped: it is
    /// reconnected with backoff when configured, and skipped by the pool
    /// pass and by discovery. Pinned servers try their list; others go
    /// through discovery.
    pub fn start(server: &Server, relay_address: &Route, avoid: Option<PeerKey>, sticky: &mut StickyState) -> (r: (
        ConnectFlow,
        ConnectStep,
    ))
        ensures
            r.0.wf(),
            realizes(
                spec_start(
                    FlowView {
                        config: spec_config_of(*server, relay_address@),
                        avoid: opt_key_view(avoid),
                        phase: PhaseView::Finished,
                    },
                    old(sticky)@,
                ),
                r.0@,
                final(sticky)@,
                r.1,
            ),
    {
        let opts = &server.peer_options;
        let config = ConnectConfig {
            port: server.port,
            pinned: opts.pinned(),
            fallback: opts.fallback_to_discovery,
            sticky: opts.sticky,
            reconnect: opts.sticky_reconnect,
            fingerprint: opts.filter_fingerprint(server.port),
            summary: opts.summary(),
            max_total: server.pool.max_total,
            relay: relay_address.duplicate(),
        };
        let mut flow = ConnectFlow { config, avoid, phase: Phase::Finished };
        if flow.config.pinned.len() > 0 {
            let step = flow.begin_pass(sticky, Self::no_emits(), 0);
            (flow, step)
        } else {
            let step = flow.begin_discovered(sticky, Self::no_emits());
            (flow, step)
        }
    }

    /// Advance on the driver's answer to the last request. A dial is
    /// answered with no peer, or with a peer that one of the dialed routes
    /// leads to (its last `/p2p/` component).
    pub fn resume(&mut self, sticky: &mut StickyState, reply: ConnectReply) -> (step: ConnectStep)
        requires
            old(self).wf(),
            answers(old(self)@, reply@),
        ensures
            final(self).wf(),
            realizes(spec_resume(old(self)@, old(sticky)@, reply@), final(self)@, final(sticky)@, step),
    {
        let ghost start = self@;
        let mut phase = Phase::Finished;
        std::mem::swap(&mut phase, &mut self.phase);
        assert(with_phase(self@, phase_view(phase)) == start);
        match phase {
            Phase::PinnedResolve { pass } => self.on_pinned_resolve(sticky, pass, reply),
            Phase::PinnedDial { pass, rank, resolved } => self.on_pinned_dial(sticky, pass, rank, resolved, reply),
            Phase::PinnedBetter { rank, peer, better } => self.on_pinned_better(sticky, rank, peer, better, reply),
            Phase::PinnedSleep { pass } => self.on_pinned_sleep(sticky, pass),
            Phase::ReachResolve { reach, peer, tagged } => self.on_reach_resolve(sticky, reach, peer, tagged, reply),
            Phase::ReachDial { reach, dialed } => self.on_reach_dial(sticky, reach, dialed, reply),
            Phase::ReconnectSleep { attempt, backoff, old } => {
                let target = old.duplicate();
                self.reach(sticky, Self::no_emits(), Reach::Reconnect { attempt: attempt + 1, backoff, old }, target)
            },
            Phase::DiscoverFind { attempt } => self.on_discover_find(sticky, attempt, reply),
            Phase::DiscoverSleep { attempt } => self.begin_discovery(sticky, Self::no_emits(), attempt + 1),
            Phase::DiscoverDial { attempt, .. } => match reply {
                ConnectReply::Dialed(Some(p)) => self.adopt(sticky, p, DestinationSource::Discovered),
                ConnectReply::Dialed(None) => self.begin_discovery(sticky, Self::no_emits(), attempt + 1),
                _ => self.finish(Self::no_emits(), Err(ConnectError::Shutdown)),
            },
            Phase::Finished => self.finish(Self::no_emits(), Err(ConnectError::Shutdown)),
        }
    }

    fn on_pinned_resolve(&mut self, sticky: &mut StickyState, pass: usize, reply: ConnectReply) -> (step: ConnectStep)
        requires
            pass < MAX_PINNED_PASSES,
            reply@ is Resolved,
        ensures
            flow_wf(final(self)@),
            realizes(
                spec_resume(with_phase(old(self)@, PhaseView::PinnedResolve { pass: pass as nat }), old(sticky)@, reply@),
                final(self)@,
                final(sticky)@,
                step,
            ),
    {
        match reply {
            ConnectReply::Resolved(res) => {
                let ids = self.pinned_keys();
                assert(reply_resolved_view(res) == reply@->Resolved_0);
                let resolved = resolve_outcome(&ids, res, &self.config.relay);
                let statuses = pinned_statuses(&self.config.pinned, &resolved);
                let emit = Self::emit_one(Events::PinnedPeerStatuses { port: self.config.port, statuses });
                self.seek_rank(sticky, emit, pass, 0, resolved)
            },
            _ => self.finish(Self::no_emits(), Err(ConnectError::Shutdown)),
        }
    }

    fn on_pinned_dial(
        &mut self,
        sticky: &mut StickyState,
        pass: usize,
        rank: usize,
        resolved: ResolvedRoutes,
        reply: ConnectReply,
    ) -> (step: ConnectStep)
        requires
            pass < MAX_PINNED_PASSES,
            rank < old(self)@.config.pinned.len(),
            reply@ is Dialed,
        ensures
            flow_wf(final(self)@),
            realizes(
                spec_resume(
                    with_phase(old(self)@, PhaseView::PinnedDial { pass: pass as nat, rank: rank as nat, resolved: resolved@ }),
                    old(sticky)@,
                    reply@,
                ),
                final(self)@,
                final(sticky)@,
                step,
            ),
    {
        match reply {
            ConnectReply::Dialed(None) => {
                assert(rank < self.config.pinned.len());
                self.seek_rank(sticky, Self::no_emits(), pass, rank + 1, resolved)
            },
            ConnectReply::Dialed(Some(p)) => self.check_better(sticky, rank, p, 0),
            _ => self.finish(Self::no_emits(), Err(ConnectError::Shutdown)),
        }
    }

    fn on_pinned_better(
        &mut self,
        sticky: &mut StickyState,
        rank: usize,
        peer: PeerKey,
        better: usize,
        reply: ConnectReply,
    ) -> (step: ConnectStep)
        requires
            better < rank,
            rank < old(self)@.config.pinned.len(),
            reply@ is Connected,
        ensures
            flow_wf(final(self)@),
            realizes(
                spec_resume(
                    with_phase(old(self)@, PhaseView::PinnedBetter { rank: rank as nat, peer: peer@, better: better as nat }),
                    old(sticky)@,
                    reply@,
                ),
                final(self)@,
                final(sticky)@,
                step,
            ),
    {
        match reply {
            ConnectReply::Connected(true) => {
                let p = self.config.pinned[better].peer_id.duplicate();
                let dest = ConnectedDestination { peer: p, source: DestinationSource::Pinned { rank: better } };
                self.finish(Self::no_emits(), Ok(dest))
            },
            ConnectReply::Connected(false) => self.check_better(sticky, rank, peer, better + 1),
            _ => self.finish(Self::no_emits(), Err(ConnectError::Shutdown)),
        }
    }

    fn on_pinned_sleep(&mut self, sticky: &mut StickyState, pass: usize) -> (step: ConnectStep)
        requires
            pass < MAX_PINNED_PASSES,
        ensures
            flow_wf(final(self)@),
            realizes(
                spec_resume(with_phase(old(self)@, PhaseView::PinnedSleep { pass: pass as nat }), old(sticky)@, ReplyView::Slept),
                final(self)@,
                final(sticky)@,
                step,
            ),
    {
        if pass + 1 < MAX_PINNED_PASSES {
            self.begin_pass(sticky, Self::no_emits(), pass + 1)
        } else {
            let count = self.config.pinned.len();
            let port = self.config.port;
            let msg = pinned_exhausted_message(count, port);
            let emit = Self::emit_one(Events::Error(msg));
            self.finish(emit, Err(ConnectError::PinnedExhausted { port, count }))
        }
    }

    fn on_reach_resolve(
        &mut self,
        sticky: &mut StickyState,
        reach: Reach,
        peer: PeerKey,
        tagged: Vec<Route>,
        reply: ConnectReply,
    ) -> (step: ConnectStep)
        requires
            reach_wf(reach_view(reach)),
            reply@ is Resolved,
        ensures
            flow_wf(final(self)@),
            realizes(
                spec_resume(
                    with_phase(
                        old(self)@,
                        PhaseView::ReachResolve { reach: reach_view(reach), peer: peer@, tagged: routes_view(tagged@) },
                    ),
                    old(sticky)@,
                    reply@,
                ),
                final(self)@,
                final(sticky)@,
                step,
            ),
    {
        match reply {
            ConnectReply::Resolved(res) => {
                let mut ids: Vec<PeerKey> = Vec::new();
                ids.push(peer.duplicate());
                assert(keys_view(ids@) =~= seq![peer@]);
                assert(reply_resolved_view(res) == reply@->Resolved_0);
                let resolved = resolve_outcome(&ids, res, &self.config.relay);
                let routes = reach_routes(&tagged, &resolved, &peer, &self.config.relay);
                self.phase = Phase::ReachDial { reach, dialed: Ghost(spec_destination_peers(routes_view(routes@).to_set())) };
                ConnectStep { emit: Self::no_emits(), request: ConnectRequest::Dial(routes) }
            },
            _ => self.finish(Self::no_emits(), Err(ConnectError::Shutdown)),
        }
    }

    fn on_reach_dial(&mut self, sticky: &mut StickyState, reach: Reach, dialed: Ghost<Set<Seq<char>>>, reply: ConnectReply) -> (step: ConnectStep)
        requires
            reach_wf(reach_view(reach)),
            reply@ is Dialed,
        ensures
            flow_wf(final(self)@),
            realizes(
                spec_resume(with_phase(old(self)@, PhaseView::ReachDial { reach: reach_view(reach), dialed: dialed@ }), old(sticky)@, reply@),
                final(self)@,
                final(sticky)@,
                step,
            ),
    {
        match reply {
            ConnectReply::Dialed(Some(p)) => self.adopt(sticky, p, DestinationSource::Sticky),
            ConnectReply::Dialed(None) => match reach {
                Reach::Reconnect { attempt, backoff, old: dropped } => self.on_reconnect_failed(sticky, attempt, backoff, dropped, dialed),
                Reach::Pool { members, idx } => self.on_member_failed(sticky, members, idx, dialed),
            },
            _ => self.finish(Self::no_emits(), Err(ConnectError::Shutdown)),
        }
    }

    fn on_reconnect_failed(
        &mut self,
        sticky: &mut StickyState,
        attempt: usize,
        backoff: Backoff,
        dropped: PeerKey,
        dialed: Ghost<Set<Seq<char>>>,
    ) -> (step: ConnectStep)
        requires
            reach_wf(ReachView::Reconnect { attempt: attempt as nat, backoff: backoff@, old: dropped@ }),
        ensures
            flow_wf(final(self)@),
            realizes(
                spec_resume(
                    with_phase(
                        old(self)@,
                        PhaseView::ReachDial {
                            reach: ReachView::Reconnect { attempt: attempt as nat, backoff: backoff@, old: dropped@ },
                            dialed: dialed@,
                        },
                    ),
                    old(sticky)@,
                    ReplyView::Dialed(None),
                ),
                final(self)@,
                final(sticky)@,
                step,
            ),
    {
        if attempt + 1 < STICKY_RECONNECT_ATTEMPTS {
            let mut backoff = backoff;
            let delay = backoff.next_delay();
            self.phase = Phase::ReconnectSleep { attempt, backoff, old: dropped };
            ConnectStep { emit: Self::no_emits(), request: ConnectRequest::Sleep(delay) }
        } else {
            sticky.forget_peer(self.config.port, &dropped);
            self.begin_pool(sticky, Self::no_emits())
        }
    }

    fn on_member_failed(&mut self, sticky: &mut StickyState, members: Vec<PeerKey>, idx: usize, dialed: Ghost<Set<Seq<char>>>) -> (step: ConnectStep)
        requires
            idx < members.len(),
        ensures
            flow_wf(final(self)@),
            realizes(
                spec_resume(
                    with_phase(
                        old(self)@,
                        PhaseView::ReachDial { reach: ReachView::Pool { members: keys_view(members@), idx: idx as nat }, dialed: dialed@ },
                    ),
                    old(sticky)@,
                    ReplyView::Dialed(None),
                ),
                final(self)@,
                final(sticky)@,
                step,
            ),
    {
        sticky.forget_peer(self.config.port, &members[idx]);
        self.next_member(sticky, Self::no_emits(), members, idx + 1)
    }

    fn on_discover_find(&mut self, sticky: &mut StickyState, attempt: usize, reply: ConnectReply) -> (step: ConnectStep)
        requires
            attempt < MAX_DISCOVERY_ATTEMPTS,
            reply@ is Found,
        ensures
            flow_wf(final(self)@),
            realizes(
                spec_resume(with_phase(old(self)@, PhaseView::DiscoverFind { attempt: attempt as nat }), old(sticky)@, reply@),
                final(self)@,
                final(sticky)@,
                step,
            ),
    {
        match reply {
            ConnectReply::Found(Err(_)) => {
                self.phase = Phase::DiscoverSleep { attempt };
                ConnectStep { emit: Self::no_emits(), request: ConnectRequest::Sleep(one_second()) }
            },
            ConnectReply::Found(Ok(cands)) => {
                let routes = discovery_addresses(&cands, &self.config.relay, &self.avoid);
                proof {
                    if routes@.len() == 0 {
                        assert(routes_view(routes@).to_set() =~= Set::<RouteView>::empty());
                    } else {
                        assert(routes_view(routes@).to_set().contains(routes_view(routes@)[0]));
                    }
                }
                proof {
                    lemma_discovery_avoids(pool_peers_view(cands@), self.config.relay@, self@.avoid);
                    if let Some(k) = self@.avoid {
                        if spec_destination_peers(routes_view(routes@).to_set()).contains(k) {
                            let a = choose|a: RouteView| routes_view(routes@).to_set().contains(a) && spec_last_p2p(a) == Some(k);
                            assert(leads_to_avoided(a, self@.avoid));
                        }
                    }
                }
                let emit = Self::emit_one(Events::ServerPool { port: self.config.port, peers: cands });
                if routes.len() == 0 {
                    self.phase = Phase::DiscoverSleep { attempt };
                    ConnectStep { emit, request: ConnectRequest::Sleep(one_second()) }
                } else {
                    self.phase = Phase::DiscoverDial { attempt, dialed: Ghost(spec_destination_peers(routes_view(routes@).to_set())) };
                    ConnectStep { emit, request: ConnectRequest::Dial(routes) }
                }
            },
            _ => self.finish(Self::no_emits(), Err(ConnectError::Shutdown)),
        }
    }
}

proof fn lemma_first_rank_bound(pinned: Seq<(Seq<char>, Option<RouteView>)>, resolved: ResolvedView, from: nat)
    ensures
        spec_first_rank(pinned, resolved, from) is Some ==> from <= spec_first_rank(pinned, resolved, from)->0
            && spec_first_rank(pinned, resolved, from)->0 < pinned.len(),
    decreases pinned.len() - from,
{
    if from < pinned.len() {
        lemma_first_rank_bound(pinned, resolved, from + 1);
    }
}

} // verus!

verus! {

/// The phases of a pass over a pinned list.
pub open spec fn is_pinned_phase(p: PhaseView) -> bool {
    p is PinnedResolve || p is PinnedDial || p is PinnedBetter || p is PinnedSleep
}

/// A hard pin (a pinned list without fallback) starts on its list.
pub proof fn law_pinned_start(f: FlowView, m: Map<u16, PoolView>)
    requires
        f.config.pinned.len() > 0,
    ensures
        spec_start(f, m).flow.phase == (PhaseView::PinnedResolve { pass: 0 }),
        spec_start(f, m).request == RequestView::ResolvePeers(pinned_ids(f.config)),
{
}

/// A hard pin never silently discovers: while its list is pinned and
/// fallback is off, no step asks the hub for fresh candidates, and the flow
/// stays on the list until it is done.
pub proof fn law_hard_pin_never_discovers(f: FlowView, m: Map<u16, PoolView>, reply: ReplyView)
    requires
        flow_wf(f),
        expects(f.phase, reply),
        !f.config.fallback,
        is_pinned_phase(f.phase),
    ensures
        !(spec_resume(f, m, reply).request is FindNodes),
        is_pinned_phase(spec_resume(f, m, reply).flow.phase) || spec_resume(f, m, reply).flow.phase is Finished,
{
}

/// One step of a run: `spec_resume`, held opaque so that proofs about
/// whole runs reason from the per-step laws.
#[verifier::opaque]
pub open spec fn next_of(f: FlowView, m: Map<u16, PoolView>, reply: ReplyView) -> NextView {
    spec_resume(f, m, reply)
}

/// The steps of a run from `f` and store `m`, one per reply. The store
/// carried from step to step is the one each step leaves before a newly
/// adopted exit is remembered, which only happens on the step that ends
/// the effort.
pub open spec fn run(f: FlowView, m: Map<u16, PoolView>, replies: Seq<ReplyView>) -> Seq<NextView>
    decreases replies.len(),
{
    if replies.len() == 0 {
        Seq::empty()
    } else {
        let n = next_of(f, m, replies[0]);
        seq![n] + run(n.flow, n.sticky, replies.drop_first())
    }
}

proof fn lemma_run_index(f: FlowView, m: Map<u16, PoolView>, replies: Seq<ReplyView>, i: int)
    requires
        0 <= i < replies.len(),
    ensures
        run(f, m, replies).len() == replies.len(),
        i == 0 ==> run(f, m, replies)[i] == next_of(f, m, replies[0]),
        i > 0 ==> run(f, m, replies)[i] == run(
            next_of(f, m, replies[0]).flow,
            next_of(f, m, replies[0]).sticky,
            replies.drop_first(),
        )[i - 1],
    decreases replies.len(),
{
    let n = next_of(f, m, replies[0]);
    if replies.len() > 1 {
        lemma_run_index(n.flow, n.sticky, replies.drop_first(), 0);
    } else {
        assert(replies.drop_first().len() == 0);
    }
    assert(run(f, m, replies) =~= seq![n] + run(n.flow, n.sticky, replies.drop_first()));
}

/// How far an effort has gone: reconnecting the dropped exit (or working
/// a pinned list), then the remembered pool, then discovery, then done.
pub open spec fn stage_of(p: PhaseView) -> nat {
    match p {
        PhaseView::ReachResolve { reach, .. } => if reach is Pool { 1 } else { 0 },
        PhaseView::ReachDial { reach, .. } => if reach is Pool { 1 } else { 0 },
        PhaseView::DiscoverFind { .. } => 2,
        PhaseView::DiscoverSleep { .. } => 2,
        PhaseView::DiscoverDial { .. } => 2,
        PhaseView::Finished => 3,
        _ => 0,
    }
}

proof fn lemma_next_member_stage(x: Ctx, m: Map<u16, PoolView>, emits: Seq<EmitView>, members: Seq<Seq<char>>, from: nat)
    ensures
        stage_of(spec_next_member(x, m, emits, members, from).flow.phase) >= 1,
    decreases members.len() - from,
{
    if from < members.len() && x.a == Some(members[from as int]) {
        lemma_next_member_stage(x, m, emits, members, from + 1);
    }
}

proof fn lemma_begin_pool_stage(x: Ctx, m: Map<u16, PoolView>, emits: Seq<EmitView>)
    ensures
        stage_of(spec_begin_pool(x, m, emits).flow.phase) >= 1,
{
    if x.c.sticky {
        lemma_next_member_stage(x, pool_effect(m, x.c.port, x.c.fingerprint), emits, pool_ids(pool_base(m, x.c.port, x.c.fingerprint)), 0);
    }
}

/// One step never goes back a stage.
pub proof fn law_stage_never_goes_back(f: FlowView, m: Map<u16, PoolView>, reply: ReplyView)
    ensures
        stage_of(f.phase) <= stage_of(spec_resume(f, m, reply).flow.phase),
        stage_of(f.phase) <= stage_of(next_of(f, m, reply).flow.phase),
{
    reveal(next_of);
    let x = ctx_of(f);
    match f.phase {
        PhaseView::ReachDial { reach, .. } => match reach {
            ReachView::Pool { members, idx } => {
                lemma_next_member_stage(x, forget_effect(m, f.config.port, members[idx as int]), Seq::empty(), members, idx + 1);
            },
            ReachView::Reconnect { old, .. } => {
                lemma_begin_pool_stage(x, forget_effect(m, f.config.port, old), Seq::empty());
            },
        },
        _ => {},
    }
}

/// A discovery-driven effort runs its stages in order over a whole run:
/// the dropped exit's reconnect attempts, then the remembered pool, then
/// discovery; no later step returns to an earlier stage.
pub proof fn law_run_stages_in_order(f: FlowView, m: Map<u16, PoolView>, replies: Seq<ReplyView>, i: int, j: int)
    requires
        0 <= i <= j < replies.len(),
    ensures
        stage_of(f.phase) <= stage_of(run(f, m, replies)[i].flow.phase),
        stage_of(run(f, m, replies)[i].flow.phase) <= stage_of(run(f, m, replies)[j].flow.phase),
    decreases replies.len(),
{
    let n = next_of(f, m, replies[0]);
    law_stage_never_goes_back(f, m, replies[0]);
    lemma_run_index(f, m, replies, i);
    lemma_run_index(f, m, replies, j);
    if j > 0 {
        if i == 0 {
            law_run_stages_in_order(n.flow, n.sticky, replies.drop_first(), 0, j - 1);
        } else {
            law_run_stages_in_order(n.flow, n.sticky, replies.drop_first(), i - 1, j - 1);
        }
    }
}

/// Whether each reply of `replies` answers the request the run makes
/// before it.
pub open spec fn answered_run(f: FlowView, m: Map<u16, PoolView>, replies: Seq<ReplyView>) -> bool
    decreases replies.len(),
{
    replies.len() == 0 || {
        &&& expects(f.phase, replies[0])
        &&& answered_run(next_of(f, m, replies[0]).flow, next_of(f, m, replies[0]).sticky, replies.drop_first())
    }
}

proof fn lemma_pinned_step(f: FlowView, m: Map<u16, PoolView>, reply: ReplyView)
    requires
        flow_wf(f),
        expects(f.phase, reply),
        !f.config.fallback,
        is_pinned_phase(f.phase),
    ensures
        flow_wf(next_of(f, m, reply).flow),
        next_of(f, m, reply).flow.config == f.config,
        !(next_of(f, m, reply).request is FindNodes),
        is_pinned_phase(next_of(f, m, reply).flow.phase) || next_of(f, m, reply).flow.phase is Finished,
        next_of(f, m, reply).request matches RequestView::Done(Ok((_, src))) ==> src is Pinned,
{
    reveal(next_of);
    law_hard_pin_never_discovers(f, m, reply);
    match f.phase {
        PhaseView::PinnedResolve { pass } => {
            if let ReplyView::Resolved(res) = reply {
                lemma_first_rank_bound(f.config.pinned, spec_resolve_outcome(pinned_ids(f.config), res, f.config.relay), 0);
            }
        },
        PhaseView::PinnedDial { pass, rank, resolved } => {
            lemma_first_rank_bound(f.config.pinned, resolved, rank + 1);
        },
        _ => {},
    }
}

proof fn lemma_finished_step(f: FlowView, m: Map<u16, PoolView>, reply: ReplyView)
    requires
        f.phase is Finished,
    ensures
        next_of(f, m, reply).flow.phase is Finished,
        next_of(f, m, reply).request == RequestView::Done(Err(ConnectErrorView::Shutdown)),
{
    reveal(next_of);
}

/// A hard pin over a whole run: while the list is pinned and fallback is
/// off, no step asks the hub for fresh candidates, and every exit the
/// effort ends with is a pinned one, never a remembered or discovered
/// peer.
pub proof fn law_hard_pin_run(f: FlowView, m: Map<u16, PoolView>, replies: Seq<ReplyView>, i: int)
    requires
        flow_wf(f),
        !f.config.fallback,
        is_pinned_phase(f.phase) || f.phase is Finished,
        answered_run(f, m, replies),
        0 <= i < replies.len(),
    ensures
        !(run(f, m, replies)[i].request is FindNodes),
        run(f, m, replies)[i].request matches RequestView::Done(Ok((_, src))) ==> src is Pinned,
    decreases replies.len(),
{
    let n = next_of(f, m, replies[0]);
    lemma_run_index(f, m, replies, i);
    if f.phase is Finished {
        lemma_finished_step(f, m, replies[0]);
    } else {
        lemma_pinned_step(f, m, replies[0]);
    }
    if i > 0 {
        law_hard_pin_run(n.flow, n.sticky, replies.drop_first(), i - 1);
    }
}

proof fn lemma_avoid_step(f: FlowView, m: Map<u16, PoolView>, reply: ReplyView)
    requires
        !is_pinned_phase(f.phase),
    ensures
        next_of(f, m, reply).flow.avoid == f.avoid,
        !is_pinned_phase(next_of(f, m, reply).flow.phase),
        next_of(f, m, reply).flow.phase matches PhaseView::ReachResolve { reach: ReachView::Pool { .. }, peer, .. }
            ==> f.avoid != Some(peer),
        f.phase is DiscoverFind ==> (next_of(f, m, reply).request matches RequestView::Dial(s) ==> forall|a: RouteView|
            #[trigger] s.contains(a) ==> !leads_to_avoided(a, f.avoid)),
{
    reveal(next_of);
    let x = ctx_of(f);
    if f.config.sticky {
        lemma_next_member_skips(x, pool_effect(m, f.config.port, f.config.fingerprint), Seq::empty(),
            pool_ids(pool_base(m, f.config.port, f.config.fingerprint)), 0);
    }
    match f.phase {
        PhaseView::ReachDial { reach, .. } => {
            match reach {
                ReachView::Pool { members, idx } => {
                    lemma_next_member_skips(x, forget_effect(m, f.config.port, members[idx as int]), Seq::empty(),
                        members, idx + 1);
                    lemma_next_member_stage(x, forget_effect(m, f.config.port, members[idx as int]), Seq::empty(),
                        members, idx + 1);
                },
                ReachView::Reconnect { old, .. } => {
                    let m2 = forget_effect(m, f.config.port, old);
                    if f.config.sticky {
                        lemma_next_member_skips(x, pool_effect(m2, f.config.port, f.config.fingerprint), Seq::empty(),
                            pool_ids(pool_base(m2, f.config.port, f.config.fingerprint)), 0);
                    }
                    lemma_begin_pool_stage(x, m2, Seq::empty());
                },
            }
        },
        PhaseView::DiscoverFind { .. } => {
            if let ReplyView::Found(Ok(cands)) = reply {
                lemma_discovery_avoids(cands, f.config.relay, f.avoid);
            }
        },
        _ => {},
    }
}

/// Over a whole run of a discovery-driven effort (once past any pinned
/// list), the peer that just dropped is only ever dialed by its own
/// reconnect attempts: the remembered-pool pass never reaches for it, and
/// no discovery dial set has a route leading to it.
pub proof fn law_run_skips_avoided(f: FlowView, m: Map<u16, PoolView>, replies: Seq<ReplyView>, i: int, k: Seq<char>)
    requires
        !is_pinned_phase(f.phase),
        f.avoid == Some(k),
        0 <= i < replies.len(),
    ensures
        run(f, m, replies)[i].flow.avoid == Some(k),
        run(f, m, replies)[i].flow.phase matches PhaseView::ReachResolve { reach: ReachView::Pool { .. }, peer, .. }
            ==> peer != k,
        (i == 0 && f.phase is DiscoverFind) || (i > 0 && run(f, m, replies)[i - 1].flow.phase is DiscoverFind) ==> (
        run(f, m, replies)[i].request matches RequestView::Dial(s) ==> forall|a: RouteView|
            #[trigger] s.contains(a) ==> spec_last_p2p(a) != Some(k)),
    decreases replies.len(),
{
    let n = next_of(f, m, replies[0]);
    lemma_run_index(f, m, replies, i);
    lemma_avoid_step(f, m, replies[0]);
    if i > 0 {
        law_run_skips_avoided(n.flow, n.sticky, replies.drop_first(), i - 1, k);
        if i > 1 {
            lemma_run_index(f, m, replies, i - 1);
        } else {
            lemma_run_index(f, m, replies, 0);
        }
    } else {
        if f.phase is DiscoverFind {
            if let RequestView::Dial(s) = n.request {
                assert forall|a: RouteView| #[trigger] s.contains(a) implies spec_last_p2p(a) != Some(k) by {
                    assert(!leads_to_avoided(a, f.avoid));
                }
            }
        }
    }
}

/// A connect effort gives up only when its bound is spent: a pinned list
/// after its last pass, reported with the list's length; discovery after
/// its last attempt, reported with the attempt count. Both surface an
/// error event first.
pub proof fn law_exhaustion_only_at_bound(f: FlowView, m: Map<u16, PoolView>, reply: ReplyView)
    requires
        flow_wf(f),
        expects(f.phase, reply),
    ensures
        spec_resume(f, m, reply).request matches RequestView::Done(Err(e)) ==> {
            ||| (f.phase == PhaseView::PinnedSleep { pass: (MAX_PINNED_PASSES - 1) as nat }
                && e == ConnectErrorView::PinnedExhausted { port: f.config.port, count: f.config.pinned.len() as usize }
                && spec_resume(f, m, reply).emits == seq![
                EmitView::Error(spec_pinned_exhausted_message(f.config.pinned.len(), f.config.port)),
            ])
            ||| ((f.phase == PhaseView::DiscoverSleep { attempt: (MAX_DISCOVERY_ATTEMPTS - 1) as nat }
                || (f.phase is DiscoverDial && f.phase->DiscoverDial_attempt == (MAX_DISCOVERY_ATTEMPTS - 1) as nat))
                && e == ConnectErrorView::DiscoveryExhausted { port: f.config.port, attempts: MAX_DISCOVERY_ATTEMPTS }
                && spec_resume(f, m, reply).emits == seq![
                EmitView::Error(spec_discovery_exhausted_message(f.config.port, f.config.summary)),
            ])
        },
{
    lemma_intermediate_paths(f, m, reply);
}

/// The paths of a step that pass through the pool pass, the fallback or
/// the rank search end in no result.
proof fn lemma_intermediate_paths(f: FlowView, m: Map<u16, PoolView>, reply: ReplyView)
    ensures
        f.phase matches PhaseView::ReachDial { reach: ReachView::Pool { members, idx }, .. } ==> !(spec_next_member(
            ctx_of(f),
            forget_effect(m, f.config.port, members[idx as int]),
            Seq::empty(),
            members,
            idx + 1,
        ).request is Done),
        f.phase matches PhaseView::ReachDial { reach: ReachView::Reconnect { old, .. }, .. } ==> !(spec_begin_pool(
            ctx_of(f),
            forget_effect(m, f.config.port, old),
            Seq::empty(),
        ).request is Done),
        f.phase matches PhaseView::PinnedResolve { pass } ==> (reply matches ReplyView::Resolved(res) ==> !(spec_seek_rank(
            ctx_of(f),
            m,
            seq![EmitView::PinnedStatuses(f.config.port, spec_statuses(f.config.pinned, spec_resolve_outcome(pinned_ids(f.config), res, f.config.relay)))],
            pass,
            0,
            spec_resolve_outcome(pinned_ids(f.config), res, f.config.relay),
        ).request is Done)),
        f.phase matches PhaseView::PinnedDial { pass, rank, resolved } ==> !(spec_seek_rank(
            ctx_of(f),
            m,
            Seq::empty(),
            pass,
            rank + 1,
            resolved,
        ).request is Done),
{
    lemma_discovery_never_exhausts_early(ctx_of(f), m);
    match f.phase {
        PhaseView::ReachDial { reach, .. } => {
            match reach {
                ReachView::Pool { members, idx } => {
                    lemma_next_member_never_exhausts(ctx_of(f), forget_effect(m, f.config.port, members[idx as int]),
                        Seq::empty(), members, idx + 1);
                },
                ReachView::Reconnect { old, .. } => {
                    lemma_discovery_never_exhausts_early(ctx_of(f), forget_effect(m, f.config.port, old));
                },
            }
        },
        PhaseView::PinnedResolve { pass } => {
            if let ReplyView::Resolved(res) = reply {
                let resolved = spec_resolve_outcome(pinned_ids(f.config), res, f.config.relay);
                lemma_seek_never_exhausts(ctx_of(f), m, seq![EmitView::PinnedStatuses(f.config.port, spec_statuses(f.config.pinned, resolved))], pass, 0, resolved);
            }
        },
        PhaseView::PinnedDial { pass, rank, resolved } => {
            lemma_seek_never_exhausts(ctx_of(f), m, Seq::empty(), pass, rank + 1, resolved);
        },
        _ => {},
    }
}

/// The remembered pool and the fallback path never end an effort in
/// failure: only the discovery loop does.
proof fn lemma_discovery_never_exhausts_early(x: Ctx, m: Map<u16, PoolView>)
    ensures
        !(spec_begin_pool(x, m, Seq::empty()).request is Done),
        !(spec_begin_discovered(x, m, Seq::empty()).request is Done),
{
    if x.c.sticky {
        lemma_next_member_never_exhausts(x, pool_effect(m, x.c.port, x.c.fingerprint), Seq::empty(),
            pool_ids(pool_base(m, x.c.port, x.c.fingerprint)), 0);
    }
}

proof fn lemma_next_member_never_exhausts(x: Ctx, m: Map<u16, PoolView>, emits: Seq<EmitView>, members: Seq<Seq<char>>, from: nat)
    ensures
        !(spec_next_member(x, m, emits, members, from).request is Done),
    decreases members.len() - from,
{
    if from < members.len() && x.a == Some(members[from as int]) {
        lemma_next_member_never_exhausts(x, m, emits, members, from + 1);
    }
}

proof fn lemma_seek_never_exhausts(x: Ctx, m: Map<u16, PoolView>, emits: Seq<EmitView>, pass: nat, from: nat, resolved: ResolvedView)
    ensures
        !(spec_seek_rank(x, m, emits, pass, from, resolved).request is Done),
{
    if x.c.fallback {
        let y = Ctx { c: x.c, a: None };
        if x.c.sticky {
            lemma_next_member_never_exhausts(y, pool_effect(m, x.c.port, x.c.fingerprint), emits,
                pool_ids(pool_base(m, x.c.port, x.c.fingerprint)), 0);
        }
    }
}

/// The first member of a pool the remember step leaves is the remembered
/// peer.
pub proof fn lemma_remembered_front(before: Map<u16, PoolView>, after: Map<u16, PoolView>, port: u16, fp: Seq<char>, peer: Seq<char>, max: nat)
    requires
        remembered_into(before, after, port, fp, peer, max),
    ensures
        after.contains_key(port),
        after[port].fingerprint == fp,
        after[port].peers.len() >= 1,
        after[port].peers[0].peer == peer,
{
    let t = choose|t: i64|
        after == before.insert(
            port,
            PoolView { fingerprint: fp, peers: remembered_peers(pool_base(before, port, fp), peer, t, max) },
        );
    let base = pool_base(before, port, fp);
    match spec_find(base, peer) {
        Some(i) => {},
        None => {},
    }
}

/// A peer adopted from the remembered pool or from discovery becomes the
/// front of the server's remembered pool when the server is sticky; a
/// pinned peer is never remembered.
pub proof fn law_adopted_exit_is_remembered(f: FlowView, m: Map<u16, PoolView>, reply: ReplyView, after: Map<u16, PoolView>)
    requires
        flow_wf(f),
        expects(f.phase, reply),
    ensures
        spec_resume(f, m, reply).request matches RequestView::Done(Ok((p, src))) ==> {
            &&& (src is Pinned ==> spec_resume(f, m, reply).remember is None)
            &&& (!(src is Pinned) && f.config.sticky ==> spec_resume(f, m, reply).remember == Some(p))
            &&& (!(src is Pinned) && f.config.sticky && remembered_into(
                spec_resume(f, m, reply).sticky,
                after,
                f.config.port,
                f.config.fingerprint,
                p,
                f.config.max_total as nat,
            ) ==> after[f.config.port].peers[0].peer == p)
        },
{
    lemma_intermediate_paths(f, m, reply);
    let n = spec_resume(f, m, reply);
    if let RequestView::Done(Ok((p, src))) = n.request {
        if !(src is Pinned) && f.config.sticky && remembered_into(n.sticky, after, f.config.port, f.config.fingerprint, p,
            f.config.max_total as nat) {
            lemma_remembered_front(n.sticky, after, f.config.port, f.config.fingerprint, p, f.config.max_total as nat);
        }
    }
}

/// The best connected rank wins: a peer reached at rank `r > 0` is not
/// adopted at once; every better rank is asked, from rank 0 up, whether
/// it is already connected. The first that is becomes the result under
/// its own rank; only when every rank below `r` has answered no is the
/// reached peer adopted at `r`.
pub proof fn law_best_connected_rank_wins(f: FlowView, m: Map<u16, PoolView>, reply: ReplyView)
    requires
        flow_wf(f),
        f.config.pinned.len() <= usize::MAX,
    ensures
        f.phase matches PhaseView::PinnedDial { rank, .. } ==> (reply matches ReplyView::Dialed(Some(p)) ==> {
            let n = spec_resume(f, m, reply);
            &&& rank == 0 ==> n.request == RequestView::Done(Ok((p, DestinationSource::Pinned { rank: 0 })))
            &&& rank > 0 ==> n.request == RequestView::IsConnected(f.config.pinned[0].0)
                && n.flow.phase == (PhaseView::PinnedBetter { rank, peer: p, better: 0 })
        }),
        f.phase matches PhaseView::PinnedBetter { rank, peer, better } ==> {
            let n = spec_resume(f, m, reply);
            &&& reply == ReplyView::Connected(true) ==> n.request == RequestView::Done(
                Ok((f.config.pinned[better as int].0, DestinationSource::Pinned { rank: better as usize })),
            )
            &&& (reply == ReplyView::Connected(false) && better + 1 < rank) ==> n.request == RequestView::IsConnected(
                f.config.pinned[better + 1 as int].0,
            ) && n.flow.phase == (PhaseView::PinnedBetter { rank, peer, better: better + 1 })
            &&& (reply == ReplyView::Connected(false) && better + 1 == rank) ==> n.request == RequestView::Done(
                Ok((peer, DestinationSource::Pinned { rank: rank as usize })),
            )
        },
{
}

proof fn lemma_next_member_config(x: Ctx, m: Map<u16, PoolView>, emits: Seq<EmitView>, members: Seq<Seq<char>>, from: nat)
    ensures
        spec_next_member(x, m, emits, members, from).flow.config == x.c,
        !is_pinned_phase(spec_next_member(x, m, emits, members, from).flow.phase),
        !(spec_next_member(x, m, emits, members, from).request matches RequestView::Done(Ok(_))),
    decreases members.len() - from,
{
    if from < members.len() && x.a == Some(members[from as int]) {
        lemma_next_member_config(x, m, emits, members, from + 1);
    }
}

proof fn lemma_all_next_member_config()
    ensures
        forall|x: Ctx, m: Map<u16, PoolView>, emits: Seq<EmitView>, members: Seq<Seq<char>>, from: nat|
            (#[trigger] spec_next_member(x, m, emits, members, from)).flow.config == x.c
            && !is_pinned_phase(spec_next_member(x, m, emits, members, from).flow.phase)
            && !(spec_next_member(x, m, emits, members, from).request matches RequestView::Done(Ok(_))),
{
    assert forall|x: Ctx, m: Map<u16, PoolView>, emits: Seq<EmitView>, members: Seq<Seq<char>>, from: nat|
        (#[trigger] spec_next_member(x, m, emits, members, from)).flow.config == x.c
        && !is_pinned_phase(spec_next_member(x, m, emits, members, from).flow.phase)
        && !(spec_next_member(x, m, emits, members, from).request matches RequestView::Done(Ok(_))) by {
        lemma_next_member_config(x, m, emits, members, from);
    }
}

/// What one step does around the better-rank check.
#[verifier::rlimit(100)]
proof fn lemma_better_step(f: FlowView, m: Map<u16, PoolView>, reply: ReplyView)
    ensures
        next_of(f, m, reply).flow.config == f.config,
        next_of(f, m, reply).flow.phase matches PhaseView::PinnedDial { rank, .. } ==> rank < f.config.pinned.len(),
        next_of(f, m, reply).flow.phase matches PhaseView::PinnedBetter { rank: r2, better: b2, .. } ==> {
            &&& next_of(f, m, reply).request == RequestView::IsConnected(f.config.pinned[b2 as int].0)
            &&& b2 < r2
            &&& (b2 == 0 && (f.phase matches PhaseView::PinnedDial { rank, .. } && r2 == rank)) || (
                f.phase matches PhaseView::PinnedBetter { rank, better, .. } && reply == ReplyView::Connected(false)
                && b2 == better + 1 && r2 == rank)
        },
        next_of(f, m, reply).request matches RequestView::Done(Ok((_, DestinationSource::Pinned { rank: rr }))) ==> (
            (f.phase matches PhaseView::PinnedDial { rank, .. } && rank == 0 && rr == 0) || (
            f.phase matches PhaseView::PinnedBetter { rank, better, .. } && ((reply == ReplyView::Connected(true)
                && rr == better as usize) || (reply == ReplyView::Connected(false) && better + 1 >= rank
                && rr == rank as usize)))),
{
    reveal(next_of);
    lemma_all_next_member_config();
    match f.phase {
        PhaseView::PinnedResolve { pass } => {
            if let ReplyView::Resolved(res) = reply {
                lemma_first_rank_bound(f.config.pinned, spec_resolve_outcome(pinned_ids(f.config), res, f.config.relay), 0);
            }
        },
        PhaseView::PinnedDial { pass, rank, resolved } => {
            lemma_first_rank_bound(f.config.pinned, resolved, rank + 1);
        },
        _ => {},
    }
}

proof fn lemma_run_succ(f: FlowView, m: Map<u16, PoolView>, replies: Seq<ReplyView>, i: int)
    requires
        0 <= i,
        i + 1 < replies.len(),
    ensures
        run(f, m, replies)[i + 1] == next_of(run(f, m, replies)[i].flow, run(f, m, replies)[i].sticky, replies[i + 1]),
    decreases i,
{
    let n = next_of(f, m, replies[0]);
    lemma_run_index(f, m, replies, i + 1);
    lemma_run_index(f, m, replies, i);
    if i > 0 {
        lemma_run_succ(n.flow, n.sticky, replies.drop_first(), i - 1);
    } else {
        lemma_run_index(n.flow, n.sticky, replies.drop_first(), 0);
    }
}

/// Whether, before step `k` of the run, rank `b` of the pinned list was
/// asked whether it is connected and answered no.
pub open spec fn asked_not_connected(f: FlowView, m: Map<u16, PoolView>, replies: Seq<ReplyView>, b: int, k: int) -> bool {
    exists|j: int|
        0 <= j < k && j + 1 < replies.len() && #[trigger] run(f, m, replies)[j].request == RequestView::IsConnected(
            f.config.pinned[b].0,
        ) && replies[j + 1] == ReplyView::Connected(false)
}

proof fn lemma_better_inv(f: FlowView, m: Map<u16, PoolView>, replies: Seq<ReplyView>, k: int)
    requires
        !(f.phase is PinnedBetter),
        f.phase matches PhaseView::PinnedDial { rank, .. } ==> rank < f.config.pinned.len(),
        0 <= k < replies.len(),
    ensures
        run(f, m, replies)[k].flow.config == f.config,
        run(f, m, replies)[k].flow.phase matches PhaseView::PinnedDial { rank, .. } ==> rank < f.config.pinned.len(),
        run(f, m, replies)[k].flow.phase matches PhaseView::PinnedBetter { rank, better, .. } ==> {
            &&& run(f, m, replies)[k].request == RequestView::IsConnected(f.config.pinned[better as int].0)
            &&& better < rank < f.config.pinned.len()
            &&& forall|b: int| 0 <= b < better ==> asked_not_connected(f, m, replies, b, k)
        },
    decreases k,
{
    let r = run(f, m, replies);
    if k == 0 {
        lemma_run_index(f, m, replies, 0);
        lemma_better_step(f, m, replies[0]);
    } else {
        lemma_better_inv(f, m, replies, k - 1);
        lemma_run_succ(f, m, replies, k - 1);
        let prev = r[k - 1];
        lemma_better_step(prev.flow, prev.sticky, replies[k]);
        if let PhaseView::PinnedBetter { rank, better, .. } = r[k].flow.phase {
            assert forall|b: int| 0 <= b < better implies asked_not_connected(f, m, replies, b, k) by {
                if let PhaseView::PinnedBetter { rank: pr, better: pb, .. } = prev.flow.phase {
                    if b < pb {
                        assert(asked_not_connected(f, m, replies, b, k - 1));
                        let j = choose|j: int|
                            0 <= j < k - 1 && j + 1 < replies.len() && #[trigger] run(f, m, replies)[j].request
                                == RequestView::IsConnected(f.config.pinned[b].0) && replies[j + 1] == ReplyView::Connected(false);
                        assert(0 <= j < k && j + 1 < replies.len() && run(f, m, replies)[j].request
                                == RequestView::IsConnected(f.config.pinned[b].0) && replies[j + 1] == ReplyView::Connected(false));
                    } else {
                        assert(b == pb);
                        assert(0 <= k - 1 < k && k - 1 + 1 < replies.len() && run(f, m, replies)[k - 1].request
                                == RequestView::IsConnected(f.config.pinned[b].0) && replies[k - 1 + 1] == ReplyView::Connected(false));
                    }
                }
            }
        }
    }
}

/// Over a whole run from any point other than the middle of a better-rank
/// check, a pinned result at rank `r` comes only after every rank below
/// `r` was asked whether it is connected and answered no: the lowest
/// connected (or reached) rank wins.
pub proof fn law_pinned_result_is_best_rank(f: FlowView, m: Map<u16, PoolView>, replies: Seq<ReplyView>, i: int)
    requires
        !(f.phase is PinnedBetter),
        f.phase matches PhaseView::PinnedDial { rank, .. } ==> rank < f.config.pinned.len(),
        f.config.pinned.len() <= usize::MAX,
        0 <= i < replies.len(),
    ensures
        run(f, m, replies)[i].request matches RequestView::Done(Ok((_, DestinationSource::Pinned { rank: rr }))) ==> forall|b: int|
            0 <= b < rr ==> asked_not_connected(f, m, replies, b, i),
{
    let r = run(f, m, replies);
    if i == 0 {
        lemma_run_index(f, m, replies, 0);
        lemma_better_step(f, m, replies[0]);
    } else {
        lemma_better_inv(f, m, replies, i - 1);
        lemma_run_succ(f, m, replies, i - 1);
        let prev = r[i - 1];
        lemma_better_step(prev.flow, prev.sticky, replies[i]);
        if let RequestView::Done(Ok((_, DestinationSource::Pinned { rank: rr }))) = r[i].request {
            assert forall|b: int| 0 <= b < rr implies asked_not_connected(f, m, replies, b, i) by {
                if let PhaseView::PinnedBetter { rank: pr, better: pb, .. } = prev.flow.phase {
                    if b < pb {
                        assert(asked_not_connected(f, m, replies, b, i - 1));
                        let j = choose|j: int|
                            0 <= j < i - 1 && j + 1 < replies.len() && #[trigger] run(f, m, replies)[j].request
                                == RequestView::IsConnected(f.config.pinned[b].0) && replies[j + 1] == ReplyView::Connected(false);
                        assert(0 <= j < i && j + 1 < replies.len() && run(f, m, replies)[j].request
                                == RequestView::IsConnected(f.config.pinned[b].0) && replies[j + 1] == ReplyView::Connected(false));
                    } else {
                        assert(b == pb);
                        assert(0 <= i - 1 < i && i - 1 + 1 < replies.len() && run(f, m, replies)[i - 1].request
                                == RequestView::IsConnected(f.config.pinned[b].0) && replies[i - 1 + 1] == ReplyView::Connected(false));
                    }
                }
            }
        }
    }
}

/// A pinned result names a rank of the list; one adopted because a better
/// rank turned out connected names that rank's own peer.
pub proof fn law_pinned_result_in_list(f: FlowView, m: Map<u16, PoolView>, reply: ReplyView)
    requires
        flow_wf(f),
        f.config.pinned.len() <= usize::MAX,
        expects(f.phase, reply),
    ensures
        spec_resume(f, m, reply).request matches RequestView::Done(Ok((p, DestinationSource::Pinned { rank }))) ==> {
            &&& rank < f.config.pinned.len()
            &&& (f.phase is PinnedBetter && reply == ReplyView::Connected(true) ==> p == f.config.pinned[rank as int].0)
        },
{
    lemma_intermediate_paths(f, m, reply);
}

proof fn lemma_next_member_skips(x: Ctx, m: Map<u16, PoolView>, emits: Seq<EmitView>, members: Seq<Seq<char>>, from: nat)
    ensures
        spec_next_member(x, m, emits, members, from).flow.phase matches PhaseView::ReachResolve { reach: ReachView::Pool { .. }, peer, .. }
            ==> x.a != Some(peer),
        spec_next_member(x, m, emits, members, from).flow.avoid == x.a,
    decreases members.len() - from,
{
    if from < members.len() && x.a == Some(members[from as int]) {
        lemma_next_member_skips(x, m, emits, members, from + 1);
    }
}

/// Discovery never dials the peer that just dropped: no route of a
/// discovery dial set leads to the avoided peer (its own candidacy, and
/// any hub route ending at it, are left out).
pub proof fn law_discovery_skips_avoided(f: FlowView, m: Map<u16, PoolView>, reply: ReplyView, k: Seq<char>)
    requires
        f.phase is DiscoverFind,
        f.avoid == Some(k),
    ensures
        spec_resume(f, m, reply).request matches RequestView::Dial(s) ==> forall|a: RouteView|
            #[trigger] s.contains(a) ==> spec_last_p2p(a) != Some(k),
{
    if let ReplyView::Found(Ok(cands)) = reply {
        lemma_discovery_avoids(cands, f.config.relay, f.avoid);
        assert forall|a: RouteView| #[trigger] spec_discovery_addresses(cands, f.config.relay, f.avoid).contains(a) implies spec_last_p2p(a)
            != Some(k) by {
            assert(!leads_to_avoided(a, f.avoid));
        }
    }
}

/// A discovered exit is never the peer that just dropped: the dialer names
/// only peers its routes lead to, and no discovery route leads there.
pub proof fn law_discovered_never_avoided(f: FlowView, m: Map<u16, PoolView>, reply: ReplyView)
    requires
        flow_wf(f),
        answers(f, reply),
        f.phase is DiscoverDial,
    ensures
        spec_resume(f, m, reply).request matches RequestView::Done(Ok((p, _))) ==> f.avoid != Some(p),
{
}

/// The remembered-pool pass never retries the peer that just dropped: a
/// pool member being reached is never the avoided peer.
pub proof fn law_pool_pass_skips_avoided(f: FlowView, m: Map<u16, PoolView>, reply: ReplyView)
    requires
        flow_wf(f),
        expects(f.phase, reply),
    ensures
        spec_resume(f, m, reply).flow.phase matches PhaseView::ReachResolve { reach: ReachView::Pool { .. }, peer, .. }
            ==> spec_resume(f, m, reply).flow.avoid != Some(peer),
{
    let x = ctx_of(f);
    let y = Ctx { c: f.config, a: None };
    if f.config.sticky {
        lemma_next_member_skips(x, pool_effect(m, f.config.port, f.config.fingerprint), Seq::empty(),
            pool_ids(pool_base(m, f.config.port, f.config.fingerprint)), 0);
        lemma_next_member_skips(y, pool_effect(m, f.config.port, f.config.fingerprint), Seq::empty(),
            pool_ids(pool_base(m, f.config.port, f.config.fingerprint)), 0);
    }
    match f.phase {
        PhaseView::ReachDial { reach, .. } => {
            match reach {
                ReachView::Pool { members, idx } => {
                    lemma_next_member_skips(x, forget_effect(m, f.config.port, members[idx as int]), Seq::empty(),
                        members, idx + 1);
                },
                ReachView::Reconnect { old, .. } => {
                    let m2 = forget_effect(m, f.config.port, old);
                    if f.config.sticky {
                        lemma_next_member_skips(x, pool_effect(m2, f.config.port, f.config.fingerprint), Seq::empty(),
                            pool_ids(pool_base(m2, f.config.port, f.config.fingerprint)), 0);
                    }
                },
            }
        },
        PhaseView::PinnedResolve { pass } => {
            if let ReplyView::Resolved(res) = reply {
                let resolved = spec_resolve_outcome(pinned_ids(f.config), res, f.config.relay);
                let e = seq![EmitView::PinnedStatuses(f.config.port, spec_statuses(f.config.pinned, resolved))];
                if f.config.sticky {
                    lemma_next_member_skips(y, pool_effect(m, f.config.port, f.config.fingerprint), e,
                        pool_ids(pool_base(m, f.config.port, f.config.fingerprint)), 0);
                }
            }
        },
        _ => {},
    }
}

/// The reconnect schedule sleeps one second, then two.
pub proof fn law_reconnect_backoff_schedule()
    ensures
        backoff_delay(reconnect_backoff()) == second(),
        backoff_delay(backoff_advanced(reconnect_backoff())) == 2 * second(),
{
}

} // verus!
