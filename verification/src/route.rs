//! Peer identities and dial routes as plain values.
//!
//! A libp2p `PeerId` is held by its base58 text, and a `Multiaddr` by its
//! components, in order: the two the library reads (`/p2p/<id>` and
//! `/p2p-circuit`) by name, every other one by its textual form.
use vstd::prelude::*;

use crate::text::concat;

verus! {

/// A libp2p peer identity, by its canonical base58 text.
#[derive(Debug, Clone, PartialEq, Eq, Hash)]
pub struct PeerKey {
    pub id: String,
}

impl View for PeerKey {
    type V = Seq<char>;

    open spec fn view(&self) -> Seq<char> {
        self.id@
    }
}

impl PeerKey {
    /// The key with text `id`.
    pub fn new(id: String) -> (k: PeerKey)
        ensures
            k@ == id@,
    {
        PeerKey { id }
    }

    /// Whether both keys name the same peer.
    pub fn same(&self, other: &PeerKey) -> (b: bool)
        ensures
            b == (self@ == other@),
    {
        self.id == other.id
    }

    /// An equal copy.
    pub fn duplicate(&self) -> (k: PeerKey)
        ensures
            k@ == self@,
    {
        PeerKey { id: self.id.clone() }
    }
}

/// One component of a multiaddress.
#[derive(Debug, Clone, PartialEq, Eq, Hash)]
pub enum Component {
    /// `/p2p/<peer id>`.
    P2p(PeerKey),
    /// `/p2p-circuit`.
    P2pCircuit,
    /// Any other component, by its text as a multiaddress writes it
    /// (`/ip4/1.2.3.4`, `/tcp/443`, ...).
    Other(String),
}

pub enum ComponentView {
    P2p(Seq<char>),
    P2pCircuit,
    Other(Seq<char>),
}

impl View for Component {
    type V = ComponentView;

    open spec fn view(&self) -> ComponentView {
        match self {
            Component::P2p(k) => ComponentView::P2p(k@),
            Component::P2pCircuit => ComponentView::P2pCircuit,
            Component::Other(s) => ComponentView::Other(s@),
        }
    }
}

impl Component {
    /// An equal copy.
    pub fn duplicate(&self) -> (c: Component)
        ensures
            c@ == self@,
    {
        match self {
            Component::P2p(k) => Component::P2p(k.duplicate()),
            Component::P2pCircuit => Component::P2pCircuit,
            Component::Other(s) => Component::Other(s.clone()),
        }
    }

    /// Whether both components are equal.
    pub fn same(&self, other: &Component) -> (b: bool)
        ensures
            b == (self@ == other@),
    {
        match (self, other) {
            (Component::P2p(a), Component::P2p(b)) => a.same(b),
            (Component::P2pCircuit, Component::P2pCircuit) => true,
            (Component::Other(a), Component::Other(b)) => *a == *b,
            _ => false,
        }
    }
}

/// A multiaddress: its components, first to last.
#[derive(Debug, Clone, PartialEq, Eq, Hash)]
pub struct Route {
    pub components: Vec<Component>,
}

pub type RouteView = Seq<ComponentView>;

impl View for Route {
    type V = RouteView;

    open spec fn view(&self) -> RouteView {
        self.components@.map_values(|c: Component| c@)
    }
}

/// The views of a sequence of routes.
pub open spec fn routes_view(v: Seq<Route>) -> Seq<RouteView> {
    v.map_values(|r: Route| r@)
}

/// The views of a sequence of peer keys.
pub open spec fn keys_view(v: Seq<PeerKey>) -> Seq<Seq<char>> {
    v.map_values(|k: PeerKey| k@)
}

/// The set of a prefix grows by the next element.
pub proof fn lemma_prefix_set_step<A>(s: Seq<A>, i: int)
    requires
        0 <= i < s.len(),
    ensures
        s.subrange(0, i + 1).to_set() == s.subrange(0, i).to_set().insert(s[i]),
{
    assert(s.subrange(0, i + 1) =~= s.subrange(0, i).push(s[i]));
    s.subrange(0, i).lemma_push_to_set_commute(s[i]);
}

/// Pushing onto a sequence of routes pushes the view.
pub proof fn lemma_routes_view_push(v: Seq<Route>, r: Route)
    ensures
        routes_view(v.push(r)) == routes_view(v).push(r@),
{
    v.lemma_push_map_commute(|r: Route| r@, r);
}

/// Pushing onto a sequence of keys pushes the view.
pub proof fn lemma_keys_view_push(v: Seq<PeerKey>, k: PeerKey)
    ensures
        keys_view(v.push(k)) == keys_view(v).push(k@),
{
    v.lemma_push_map_commute(|k: PeerKey| k@, k);
}

/// Whether the route passes through a relay circuit.
pub open spec fn spec_is_relayed(r: RouteView) -> bool {
    exists|i: int| 0 <= i < r.len() && r[i] is P2pCircuit
}

/// The peer of the last `/p2p/` component: the destination of the route
/// (a circuit route names its relay earlier).
pub open spec fn spec_last_p2p(r: RouteView) -> Option<Seq<char>>
    decreases r.len(),
{
    if r.len() == 0 {
        None
    } else {
        match r.last() {
            ComponentView::P2p(k) => Some(k),
            _ => spec_last_p2p(r.drop_last()),
        }
    }
}

/// `Multiaddr::with_p2p`: append `/p2p/<peer>` unless the route already
/// ends with it; a route that ends with another peer is refused.
pub open spec fn spec_with_p2p(r: RouteView, peer: Seq<char>) -> Result<RouteView, RouteView> {
    if r.len() > 0 && r.last() is P2p {
        if r.last()->P2p_0 == peer {
            Ok(r)
        } else {
            Err(r)
        }
    } else {
        Ok(r.push(ComponentView::P2p(peer)))
    }
}

/// The relay-circuit route `<relay>/p2p-circuit/p2p/<peer>` through a hub.
pub open spec fn spec_circuit(relay: RouteView, peer: Seq<char>) -> RouteView {
    relay.push(ComponentView::P2pCircuit).push(ComponentView::P2p(peer))
}

impl Route {
    /// The route with these components.
    pub fn new(components: Vec<Component>) -> (r: Route)
        ensures
            r.components@ == components@,
    {
        Route { components }
    }

    /// An equal copy.
    pub fn duplicate(&self) -> (r: Route)
        ensures
            r@ == self@,
    {
        let mut out: Vec<Component> = Vec::new();
        let mut i: usize = 0;
        while i < self.components.len()
            invariant
                i <= self.components.len(),
                out@.len() == i,
                forall|j: int| 0 <= j < i ==> out@[j]@ == self.components@[j]@,
            decreases self.components.len() - i,
        {
            let c = self.components[i].duplicate();
            out.push(c);
            i = i + 1;
        }
        let r = Route { components: out };
        assert(r@ =~= self@);
        r
    }

    /// Whether both routes are the same multiaddress.
    pub fn same(&self, other: &Route) -> (b: bool)
        ensures
            b == (self@ == other@),
    {
        if self.components.len() != other.components.len() {
            assert(self@.len() != other@.len());
            return false;
        }
        let mut i: usize = 0;
        while i < self.components.len()
            invariant
                self.components.len() == other.components.len(),
                i <= self.components.len(),
                forall|j: int| 0 <= j < i ==> self@[j] == other@[j],
            decreases self.components.len() - i,
        {
            if !self.components[i].same(&other.components[i]) {
                assert(self@[i as int] != other@[i as int]);
                return false;
            }
            i = i + 1;
        }
        assert(self@ =~= other@);
        true
    }

    /// Whether the route passes through a relay circuit.
    pub fn is_relayed(&self) -> (b: bool)
        ensures
            b == spec_is_relayed(self@),
    {
        let mut i: usize = 0;
        while i < self.components.len()
            invariant
                i <= self.components.len(),
                forall|j: int| 0 <= j < i ==> !(self@[j] is P2pCircuit),
            decreases self.components.len() - i,
        {
            if let Component::P2pCircuit = &self.components[i] {
                assert(self@[i as int] is P2pCircuit);
                return true;
            }
            i = i + 1;
        }
        false
    }

    /// The destination peer: the last `/p2p/` component, if any.
    pub fn last_p2p(&self) -> (p: Option<PeerKey>)
        ensures
            match p {
                Some(k) => spec_last_p2p(self@) == Some(k@),
                None => spec_last_p2p(self@) is None,
            },
    {
        let mut i: usize = self.components.len();
        assert(self@.subrange(0, i as int) =~= self@);
        while i > 0
            invariant
                i <= self.components.len(),
                spec_last_p2p(self@) == spec_last_p2p(self@.subrange(0, i as int)),
            decreases i,
        {
            let ghost prefix = self@.subrange(0, i as int);
            assert(prefix.drop_last() =~= self@.subrange(0, i - 1));
            if let Component::P2p(k) = &self.components[i - 1] {
                return Some(k.duplicate());
            }
            i = i - 1;
        }
        assert(self@.subrange(0, 0) =~= Seq::<ComponentView>::empty());
        None
    }

    /// This route with `c` appended (`Multiaddr::with`).
    pub fn with(self, c: Component) -> (r: Route)
        ensures
            r@ == self@.push(c@),
    {
        let mut components = self.components;
        let ghost before = components@;
        components.push(c);
        let r = Route { components };
        assert(r@ =~= before.map_values(|c: Component| c@).push(c@));
        r
    }

    /// `Multiaddr::with_p2p`: this route tagged with `/p2p/<peer>`; `Err`
    /// with the route unchanged when it already ends with another peer.
    pub fn with_p2p(self, peer: &PeerKey) -> (r: Result<Route, Route>)
        ensures
            match r {
                Ok(a) => spec_with_p2p(self@, peer@) == Ok::<RouteView, RouteView>(a@),
                Err(a) => spec_with_p2p(self@, peer@) == Err::<RouteView, RouteView>(a@),
            },
    {
        let n = self.components.len();
        if n > 0 {
            if let Component::P2p(k) = &self.components[n - 1] {
                if k.same(peer) {
                    return Ok(self);
                } else {
                    return Err(self);
                }
            }
        }
        Ok(self.with(Component::P2p(peer.duplicate())))
    }
}

/// The `<relay>/p2p-circuit/p2p/<peer>` route through a bootstrap hub:
/// it only reaches peers homed on that hub. Used when the hub cannot
/// resolve a current route for a peer.
pub fn synthesize_circuit(relay_address: &Route, peer_id: &PeerKey) -> (r: Option<Route>)
    ensures
        r is Some,
        r->0@ == spec_circuit(relay_address@, peer_id@),
{
    let with_circuit = relay_address.duplicate().with(Component::P2pCircuit);
    match with_circuit.with_p2p(peer_id) {
        Ok(r) => Some(r),
        Err(r) => {
            assert(false);
            None
        },
    }
}

/// The text of one component.
pub open spec fn component_text(c: ComponentView) -> Seq<char> {
    match c {
        ComponentView::P2p(k) => "/p2p/"@ + k,
        ComponentView::P2pCircuit => "/p2p-circuit"@,
        ComponentView::Other(t) => t,
    }
}

/// The text of a multiaddress: its components' texts, in order.
pub open spec fn route_text(r: RouteView) -> Seq<char>
    decreases r.len(),
{
    if r.len() == 0 {
        Seq::empty()
    } else {
        route_text(r.drop_last()) + component_text(r.last())
    }
}

impl Component {
    /// The component as a multiaddress writes it.
    pub fn to_text(&self) -> (s: String)
        ensures
            s@ == component_text(self@),
    {
        match self {
            Component::P2p(k) => concat("/p2p/", k.id.as_str()),
            Component::P2pCircuit => "/p2p-circuit".to_owned(),
            Component::Other(t) => t.clone(),
        }
    }
}

impl Route {
    /// The multiaddress text of this route.
    pub fn to_text(&self) -> (s: String)
        ensures
            s@ == route_text(self@),
    {
        let mut out = String::new();
        let mut i: usize = 0;
        while i < self.components.len()
            invariant
                i <= self.components.len(),
                out@ == route_text(self@.subrange(0, i as int)),
            decreases self.components.len() - i,
        {
            let t = self.components[i].to_text();
            out.append(t.as_str());
            assert(self@.subrange(0, i + 1).drop_last() =~= self@.subrange(0, i as int));
            i = i + 1;
        }
        assert(self@.subrange(0, self@.len() as int) =~= self@);
        out
    }
}

/// What `libp2p::PeerId::from_str` makes of a text: the peer's canonical
/// base58 text, or the parse error's message.
pub uninterp spec fn peer_id_parse(text: Seq<char>) -> Result<Seq<char>, Seq<char>>;

/// What `libp2p::Multiaddr::from_str` makes of a text: the components of
/// the address, or the parse error's message.
pub uninterp spec fn multiaddr_parse(text: Seq<char>) -> Result<RouteView, Seq<char>>;

/// Trusted: `libp2p::PeerId::from_str`, the peer id rendered back to its
/// text. Claims only that the outcome is the one named for this text.
#[verifier::external_body]
pub(crate) fn parse_peer_id(text: &str) -> (r: Result<PeerKey, String>)
    ensures
        match r {
            Ok(k) => peer_id_parse(text@) == Ok::<Seq<char>, Seq<char>>(k@),
            Err(e) => peer_id_parse(text@) == Err::<Seq<char>, Seq<char>>(e@),
        },
{
    match <libp2p::PeerId as std::str::FromStr>::from_str(text) {
        Ok(id) => Ok(PeerKey { id: id.to_string() }),
        Err(e) => Err(e.to_string()),
    }
}

/// Trusted: `libp2p::Multiaddr::from_str`, each protocol of the address
/// moved into a `Component` (`/p2p/<id>` by its peer text, `/p2p-circuit`
/// by name, any other by its text). Claims only that the outcome is the
/// one named for this text.
#[verifier::external_body]
pub(crate) fn parse_multiaddr(text: &str) -> (r: Result<Route, String>)
    ensures
        match r {
            Ok(a) => multiaddr_parse(text@) == Ok::<RouteView, Seq<char>>(a@),
            Err(e) => multiaddr_parse(text@) == Err::<RouteView, Seq<char>>(e@),
        },
{
    match <libp2p::Multiaddr as std::str::FromStr>::from_str(text) {
        Ok(addr) => Ok(Route {
            components: addr.iter().map(|p| match p {
                libp2p::multiaddr::Protocol::P2p(id) => Component::P2p(PeerKey { id: id.to_string() }),
                libp2p::multiaddr::Protocol::P2pCircuit => Component::P2pCircuit,
                other => Component::Other(other.to_string()),
            }).collect(),
        }),
        Err(e) => Err(e.to_string()),
    }
}

impl PeerKey {
    /// Parse a peer id from its text, as `libp2p::PeerId::from_str` does.
    pub fn parse(text: &str) -> (r: Result<PeerKey, String>)
        ensures
            match r {
                Ok(k) => peer_id_parse(text@) == Ok::<Seq<char>, Seq<char>>(k@),
                Err(e) => peer_id_parse(text@) == Err::<Seq<char>, Seq<char>>(e@),
            },
    {
        parse_peer_id(text)
    }
}

impl Route {
    /// Parse a multiaddress from its text, as `libp2p::Multiaddr::from_str`
    /// does.
    pub fn parse(text: &str) -> (r: Result<Route, String>)
        ensures
            match r {
                Ok(a) => multiaddr_parse(text@) == Ok::<RouteView, Seq<char>>(a@),
                Err(e) => multiaddr_parse(text@) == Err::<RouteView, Seq<char>>(e@),
            },
    {
        parse_multiaddr(text)
    }
}

} // verus!
