//! Proxy configuration: servers, their peer options and pinned peers, the
//! discovery-filter fingerprint, and country-name normalisation.
use vstd::prelude::*;

use crate::filters::{labels_of, opt_text, spec_filter_labels, texts, FilterPolicy, NodeFilters, NodeFiltersView};
use crate::route::{
    multiaddr_parse, parse_multiaddr, parse_peer_id, peer_id_parse, route_text, spec_last_p2p, PeerKey,
    Route, RouteView,
};
use crate::text::{
    concat, debug_quoted, decimal, decimal_string, is_digit, lemma_decimal_digits, lemma_decimal_injective,
    lower_text, quoted, to_ascii_lower, to_ascii_upper, trim, trimmed, upper_text, utf8_len, utf8_len_upto4,
};

verus! {

/// The proxy protocols a server can speak.
#[derive(Debug, Clone, Copy, PartialEq, Eq, Structural, Hash)]
pub enum ProxyProtocols {
    Socks5,
}

/// What to do when the active exit peer disconnects: fight to reconnect
/// the same peer with backoff before rotating (the default), or rotate at
/// once.
#[derive(Debug, Clone, Copy, PartialEq, Eq, Structural, Hash)]
pub enum StickyReconnect {
    WithBackoff,
    FailFast,
}

impl Default for StickyReconnect {
    fn default() -> (r: StickyReconnect)
        ensures
            r == StickyReconnect::WithBackoff,
    {
        StickyReconnect::WithBackoff
    }
}

/// Pooling is enabled unless configured off.
pub fn default_pool_enabled() -> (b: bool)
    ensures
        b,
{
    true
}

/// Idle streams kept per peer by default.
pub fn default_min_idle() -> (n: usize)
    ensures
        n == 5,
{
    5
}

/// Concurrent stream opens per peer by default; also the sticky pool bound.
pub fn default_max_total() -> (n: usize)
    ensures
        n == 30,
{
    30
}

/// Seconds an idle stream lives by default.
pub fn default_idle_timeout_secs() -> (n: u64)
    ensures
        n == 60,
{
    60
}

/// Seconds allowed to open a stream by default.
pub fn default_open_timeout_secs() -> (n: u64)
    ensures
        n == 20,
{
    20
}

/// Retry attempts for a failed request by default.
pub fn default_max_retries() -> (n: u32)
    ensures
        n == 3,
{
    3
}

/// Servers remember their discovered exit by default.
pub fn default_sticky() -> (b: bool)
    ensures
        b,
{
    true
}

/// The default minimum advertised peer bandwidth: 50 Mbps, in bits per
/// second.
pub fn default_min_bandwidth_bps() -> (n: u128)
    ensures
        n == 50_000_000,
{
    50_000_000
}

/// Per-server stream tuning. (The error-rate ceiling, a float, is read
/// only by the stream pool outside this library.)
#[derive(Debug, Clone, Copy, PartialEq, Eq, Structural, Hash)]
pub struct PoolConfigOptions {
    pub enabled: bool,
    pub min_idle: usize,
    pub max_total: usize,
    pub idle_timeout_secs: u64,
    pub open_timeout_secs: u64,
    pub max_retries: u32,
}

impl Default for PoolConfigOptions {
    fn default() -> (o: PoolConfigOptions)
        ensures
            o == (PoolConfigOptions {
                enabled: true,
                min_idle: 5,
                max_total: 30,
                idle_timeout_secs: 60,
                open_timeout_secs: 20,
                max_retries: 3,
            }),
    {
        PoolConfigOptions {
            enabled: default_pool_enabled(),
            min_idle: default_min_idle(),
            max_total: default_max_total(),
            idle_timeout_secs: default_idle_timeout_secs(),
            open_timeout_secs: default_open_timeout_secs(),
            max_retries: default_max_retries(),
        }
    }
}

/// One entry of the `destination_peers` preference list: the peer's
/// identity plus, when the operator supplied a full multiaddress, the
/// verbatim address to dial alongside whatever route the hub resolves.
#[derive(Debug, Clone, PartialEq, Eq)]
pub struct DestinationPeerEntry {
    pub peer_id: PeerKey,
    pub address: Option<Route>,
}

impl View for DestinationPeerEntry {
    type V = (Seq<char>, Option<RouteView>);

    open spec fn view(&self) -> (Seq<char>, Option<RouteView>) {
        (self.peer_id@, match &self.address {
            Some(a) => Some(a@),
            None => None,
        })
    }
}

pub open spec fn entries_view(v: Seq<DestinationPeerEntry>) -> Seq<(Seq<char>, Option<RouteView>)> {
    v.map_values(|e: DestinationPeerEntry| e@)
}

/// The entry a multiaddress names: its last `/p2p/` component is the
/// destination (a circuit address names its relay earlier); a bare
/// `/p2p/<id>` pins identity only, anything longer is also dialed verbatim.
pub open spec fn spec_entry_of(addr: RouteView) -> Option<(Seq<char>, Option<RouteView>)> {
    match spec_last_p2p(addr) {
        None => None,
        Some(k) => Some((k, if addr.len() == 1 { None } else { Some(addr) })),
    }
}

/// What parsing an entry gives: a bare peer id, or a multiaddress that
/// ends in `/p2p/<peer-id>`, after trimming; each failure with its message.
pub open spec fn spec_parse_entry(input: Seq<char>) -> Result<(Seq<char>, Option<RouteView>), Seq<char>> {
    let t = trimmed(input);
    if t.len() == 0 {
        Err("destination peer entry is empty"@)
    } else if t[0] != '/' {
        match peer_id_parse(t) {
            Ok(k) => Ok((k, None)),
            Err(e) => Err("invalid peer id "@ + debug_quoted(t) + ": "@ + e),
        }
    } else {
        match multiaddr_parse(t) {
            Err(e) => Err("invalid multiaddr "@ + debug_quoted(t) + ": "@ + e),
            Ok(a) => match spec_entry_of(a) {
                Some(entry) => Ok(entry),
                None => Err("multiaddr "@ + debug_quoted(t) + " must end with /p2p/<peer-id>"@),
            },
        }
    }
}

impl DestinationPeerEntry {
    /// Interpret a multiaddress entry: the last `/p2p/` component is the
    /// destination identity. A bare `/p2p/<id>` pins identity only;
    /// anything longer is also dialable verbatim.
    pub fn from_multiaddr(addr: &Route) -> (e: Option<DestinationPeerEntry>)
        ensures
            match e {
                Some(entry) => spec_entry_of(addr@) == Some(entry@),
                None => spec_entry_of(addr@) is None,
            },
    {
        match addr.last_p2p() {
            None => None,
            Some(peer_id) => {
                let bare_pin = addr.components.len() == 1;
                let address = if bare_pin { None } else { Some(addr.duplicate()) };
                Some(DestinationPeerEntry { peer_id, address })
            },
        }
    }

    /// Parse an entry: a bare peer id, or a full multiaddress ending in
    /// `/p2p/<peer-id>`. Surrounding white space is ignored.
    pub fn parse(input: &str) -> (r: Result<DestinationPeerEntry, String>)
        ensures
            match r {
                Ok(e) => spec_parse_entry(input@) == Ok::<(Seq<char>, Option<RouteView>), Seq<char>>(e@),
                Err(m) => spec_parse_entry(input@) == Err::<(Seq<char>, Option<RouteView>), Seq<char>>(m@),
            },
    {
        let t = trim(input);
        let ts = t.as_str();
        proof {
            reveal_strlit("destination peer entry is empty");
        }
        if ts.unicode_len() == 0 {
            return Err("destination peer entry is empty".to_owned());
        }
        if ts.get_char(0) != '/' {
            return match parse_peer_id(ts) {
                Ok(peer_id) => Ok(DestinationPeerEntry { peer_id, address: None }),
                Err(e) => {
                    let q = quoted(ts);
                    let m = concat(concat(concat("invalid peer id ", q.as_str()).as_str(), ": ").as_str(), e.as_str());
                    Err(m)
                },
            };
        }
        match parse_multiaddr(ts) {
            Err(e) => {
                let q = quoted(ts);
                let m = concat(concat(concat("invalid multiaddr ", q.as_str()).as_str(), ": ").as_str(), e.as_str());
                Err(m)
            },
            Ok(addr) => match Self::from_multiaddr(&addr) {
                Some(entry) => Ok(entry),
                None => {
                    let q = quoted(ts);
                    Err(concat(concat("multiaddr ", q.as_str()).as_str(), " must end with /p2p/<peer-id>"))
                },
            },
        }
    }

    /// The entry as written: the verbatim multiaddress when there is one,
    /// else the peer id.
    pub fn to_text(&self) -> (s: String)
        ensures
            s@ == (match self@.1 {
                Some(a) => route_text(a),
                None => self@.0,
            }),
    {
        match &self.address {
            Some(a) => a.to_text(),
            None => self.peer_id.id.clone(),
        }
    }
}

impl std::str::FromStr for DestinationPeerEntry {
    type Err = String;

    fn from_str(input: &str) -> (r: Result<DestinationPeerEntry, String>)
        ensures
            match r {
                Ok(e) => spec_parse_entry(input@) == Ok::<(Seq<char>, Option<RouteView>), Seq<char>>(e@),
                Err(m) => spec_parse_entry(input@) == Err::<(Seq<char>, Option<RouteView>), Seq<char>>(m@),
            },
    {
        DestinationPeerEntry::parse(input)
    }
}

/// A server's peer-selection options.
#[derive(Debug, Clone)]
pub struct ServerPeerOptions {
    /// Ordered pinned-peer preference list; the first entry is always tried
    /// first, later entries are failovers.
    pub destination_peers: Option<Vec<DestinationPeerEntry>>,
    /// When every pinned peer is offline: `false` keeps retrying the list,
    /// `true` falls back to filter-driven discovery.
    pub fallback_to_discovery: bool,
    /// Remember the discovered exit peer and reuse it across reconnects.
    pub sticky: bool,
    pub sticky_reconnect: StickyReconnect,
    /// Country filter, as an ISO Alpha-2 code.
    pub country: Option<String>,
    /// Minimum advertised peer bandwidth, in bits per second.
    pub min_bandwidth_bps: u128,
    pub city: Option<String>,
    pub isp: Option<String>,
    pub asn: Option<u32>,
    pub proxy: FilterPolicy,
    pub mobile: FilterPolicy,
    pub hosting: FilterPolicy,
}

/// A configured listener.
#[derive(Debug, Clone)]
pub struct Server {
    pub protocol: ProxyProtocols,
    pub port: u16,
    pub peer_options: ServerPeerOptions,
    pub pool: PoolConfigOptions,
}

/// Config mistakes that must fail startup loudly rather than silently
/// route through arbitrary nodes.
#[derive(Debug, Clone, Copy, PartialEq, Eq, Structural)]
pub enum ConfigValidationError {
    EmptyPinnedList { port: u16 },
}

impl ConfigValidationError {
    /// The error's message.
    pub fn message(&self) -> (s: String)
        ensures
            s@ == (match *self {
                ConfigValidationError::EmptyPinnedList { port } => "server :"@ + decimal(port as nat)
                    + ": destination_peers is present but empty — list at least one peer or remove the key"@,
            }),
    {
        match self {
            ConfigValidationError::EmptyPinnedList { port } => {
                let d = decimal_string(*port as u128);
                concat(
                    concat("server :", d.as_str()).as_str(),
                    ": destination_peers is present but empty — list at least one peer or remove the key",
                )
            },
        }
    }
}

/// The filter fingerprint of a server on `port`.
pub open spec fn spec_fingerprint(port: u16, country: Option<Seq<char>>, bps: u128) -> Seq<char> {
    "v1|"@ + decimal(port as nat) + "|"@ + (match country {
        Some(c) => c,
        None => Seq::<char>::empty(),
    }) + "|"@ + decimal(bps as nat)
}

/// The summary line of a server's peer options.
pub open spec fn spec_options_summary(pinned: Seq<(Seq<char>, Option<RouteView>)>, country: Option<Seq<char>>) -> Seq<
    char,
> {
    if pinned.len() == 1 {
        "Pinned: "@ + pinned[0].0
    } else if pinned.len() > 1 {
        "Pinned: "@ + pinned[0].0 + " +"@ + decimal((pinned.len() - 1) as nat) + " more"@
    } else {
        match country {
            Some(c) => "Country: "@ + c,
            None => "Unknown"@,
        }
    }
}

impl ServerPeerOptions {
    /// The configured pinned list, empty when there is none.
    pub open spec fn spec_pinned(&self) -> Seq<(Seq<char>, Option<RouteView>)> {
        match self.destination_peers {
            Some(v) => entries_view(v@),
            None => Seq::empty(),
        }
    }

    /// The view of the node filters this server projects.
    pub open spec fn spec_node_filters(&self) -> NodeFiltersView {
        NodeFiltersView {
            country: opt_text(self.country),
            city: opt_text(self.city),
            isp: opt_text(self.isp),
            asn: self.asn,
            proxy: self.proxy,
            mobile: self.mobile,
            hosting: self.hosting,
            min_bandwidth_bps: self.min_bandwidth_bps,
        }
    }

    /// The ordered pinned-peer list. Empty when the server is
    /// discovery-driven.
    pub fn pinned(&self) -> (v: Vec<DestinationPeerEntry>)
        ensures
            entries_view(v@) == self.spec_pinned(),
    {
        match &self.destination_peers {
            Some(list) => {
                let mut v: Vec<DestinationPeerEntry> = Vec::new();
                let mut i: usize = 0;
                while i < list.len()
                    invariant
                        i <= list.len(),
                        entries_view(v@) == entries_view(list@).subrange(0, i as int),
                    decreases list.len() - i,
                {
                    let e = DestinationPeerEntry {
                        peer_id: list[i].peer_id.duplicate(),
                        address: match &list[i].address {
                            Some(a) => Some(a.duplicate()),
                            None => None,
                        },
                    };
                    assert(e@ == list@[i as int]@);
                    let ghost pre = v@;
                    v.push(e);
                    i = i + 1;
                    assert(entries_view(v@) =~= entries_view(pre).push(e@));
                    assert(entries_view(v@) =~= entries_view(list@).subrange(0, i as int));
                }
                assert(entries_view(list@).subrange(0, list@.len() as int) =~= entries_view(list@));
                v
            },
            None => {
                let v: Vec<DestinationPeerEntry> = Vec::new();
                assert(entries_view(v@) =~= Seq::<(Seq<char>, Option<RouteView>)>::empty());
                v
            },
        }
    }

    /// A present but empty pinned list is refused.
    pub fn validate(&self, port: u16) -> (r: Result<(), ConfigValidationError>)
        ensures
            r is Err <==> (self.destination_peers is Some && self.destination_peers->0@.len() == 0),
            r is Err ==> r == Err::<(), ConfigValidationError>(ConfigValidationError::EmptyPinnedList { port }),
    {
        match &self.destination_peers {
            Some(list) => {
                if list.len() == 0 {
                    return Err(ConfigValidationError::EmptyPinnedList { port });
                }
                Ok(())
            },
            None => Ok(()),
        }
    }

    /// Identity of this server's discovery filters: `v1|<port>|<country or
    /// empty>|<min bandwidth in bps>`. The sticky store records it beside
    /// the remembered peers, so a changed country, bandwidth floor or port
    /// invalidates the stale affinity.
    pub fn filter_fingerprint(&self, port: u16) -> (s: String)
        ensures
            s@ == spec_fingerprint(port, opt_text(self.country), self.min_bandwidth_bps),
    {
        let p = decimal_string(port as u128);
        let b = decimal_string(self.min_bandwidth_bps);
        let country = match &self.country {
            Some(c) => c.clone(),
            None => String::new(),
        };
        let s1 = concat("v1|", p.as_str());
        let s2 = concat(s1.as_str(), "|");
        let s3 = concat(s2.as_str(), country.as_str());
        let s4 = concat(s3.as_str(), "|");
        concat(s4.as_str(), b.as_str())
    }

    /// Project this server's discovery filters into the value the network
    /// actor turns into a hub `FindNodes` request.
    pub fn node_filters(&self) -> (f: NodeFilters)
        ensures
            f@ == self.spec_node_filters(),
    {
        NodeFilters {
            country: self.country.clone(),
            city: self.city.clone(),
            isp: self.isp.clone(),
            asn: self.asn,
            proxy: self.proxy,
            mobile: self.mobile,
            hosting: self.hosting,
            min_bandwidth_bps: self.min_bandwidth_bps,
        }
    }

    /// Human-readable labels for the node-selection constraints set on this
    /// server, in a stable order. Empty when nothing constrains node
    /// attributes.
    pub fn filter_labels(&self) -> (labels: Vec<String>)
        ensures
            texts(labels@) == spec_filter_labels(self.spec_node_filters()),
    {
        let f = self.node_filters();
        labels_of(&f)
    }

    /// `Pinned: <first> [+<n> more]`, `Country: <c>` or `Unknown`.
    pub fn summary(&self) -> (s: String)
        ensures
            s@ == spec_options_summary(self.spec_pinned(), opt_text(self.country)),
    {
        let pinned = self.pinned();
        if pinned.len() == 1 {
            concat("Pinned: ", pinned[0].peer_id.id.as_str())
        } else if pinned.len() > 1 {
            let n = decimal_string((pinned.len() - 1) as u128);
            let s1 = concat("Pinned: ", pinned[0].peer_id.id.as_str());
            let s2 = concat(s1.as_str(), " +");
            let s3 = concat(s2.as_str(), n.as_str());
            concat(s3.as_str(), " more")
        } else {
            match &self.country {
                Some(c) => concat("Country: ", c.as_str()),
                None => "Unknown".to_owned(),
            }
        }
    }
}

proof fn lemma_no_bar_in_decimal(n: nat)
    ensures
        !decimal(n).contains('|'),
{
    lemma_decimal_digits(n);
    if decimal(n).contains('|') {
        let i = choose|i: int| 0 <= i < decimal(n).len() && decimal(n)[i] == '|';
        assert(is_digit(decimal(n)[i]));
    }
}

/// `a|x == b|y` with no bar in `a` or `b` splits at the first bar.
proof fn lemma_split_at_bar(a: Seq<char>, x: Seq<char>, b: Seq<char>, y: Seq<char>)
    requires
        !a.contains('|'),
        !b.contains('|'),
        a + seq!['|'] + x == b + seq!['|'] + y,
    ensures
        a == b,
        x == y,
{
    let l = a + seq!['|'] + x;
    let r = b + seq!['|'] + y;
    if a.len() < b.len() {
        assert(l[a.len() as int] == '|');
        assert(r[a.len() as int] == b[a.len() as int]);
        assert(b.contains(b[a.len() as int]));
    } else if b.len() < a.len() {
        assert(r[b.len() as int] == '|');
        assert(l[b.len() as int] == a[b.len() as int]);
        assert(a.contains(a[b.len() as int]));
    }
    assert(a =~= l.subrange(0, a.len() as int));
    assert(b =~= r.subrange(0, b.len() as int));
    assert(x =~= l.subrange(a.len() as int + 1, l.len() as int));
    assert(y =~= r.subrange(b.len() as int + 1, r.len() as int));
}

/// Filter fingerprints tell filters apart: two servers with the same
/// fingerprint listen on the same port with the same country filter and the
/// same bandwidth floor (country codes hold no `|`). So changing any of the
/// three invalidates remembered exits.
#[verifier::spinoff_prover]
pub proof fn law_fingerprint_identifies_filters(
    p1: u16,
    c1: Option<Seq<char>>,
    b1: u128,
    p2: u16,
    c2: Option<Seq<char>>,
    b2: u128,
)
    requires
        c1 is Some ==> !c1->0.contains('|'),
        c2 is Some ==> !c2->0.contains('|'),
        spec_fingerprint(p1, c1, b1) == spec_fingerprint(p2, c2, b2),
    ensures
        p1 == p2,
        (match c1 {
            Some(c) => c,
            None => Seq::<char>::empty(),
        }) == (match c2 {
            Some(c) => c,
            None => Seq::<char>::empty(),
        }),
        b1 == b2,
{
    reveal_strlit("v1|");
    reveal_strlit("|");
    let k1 = match c1 {
        Some(c) => c,
        None => Seq::<char>::empty(),
    };
    let k2 = match c2 {
        Some(c) => c,
        None => Seq::<char>::empty(),
    };
    let d1 = decimal(p1 as nat);
    let d2 = decimal(p2 as nat);
    let e1 = decimal(b1 as nat);
    let e2 = decimal(b2 as nat);
    lemma_no_bar_in_decimal(p1 as nat);
    lemma_no_bar_in_decimal(p2 as nat);
    let f1 = spec_fingerprint(p1, c1, b1);
    let f2 = spec_fingerprint(p2, c2, b2);
    let t1 = d1 + seq!['|'] + (k1 + seq!['|'] + e1);
    let t2 = d2 + seq!['|'] + (k2 + seq!['|'] + e2);
    assert(f1 =~= "v1|"@ + t1);
    assert(f2 =~= "v1|"@ + t2);
    assert(t1 =~= f1.subrange(3, f1.len() as int));
    assert(t2 =~= f2.subrange(3, f2.len() as int));
    lemma_split_at_bar(d1, k1 + seq!['|'] + e1, d2, k2 + seq!['|'] + e2);
    assert(!Seq::<char>::empty().contains('|'));
    lemma_split_at_bar(k1, e1, k2, e2);
    lemma_decimal_injective(p1 as nat, p2 as nat);
    lemma_decimal_injective(b1 as nat, b2 as nat);
}

/// What `keshvar::Alpha2::try_from` accepts a text as, by its code.
pub uninterp spec fn alpha2_lookup(text: Seq<char>) -> Option<Seq<char>>;

/// What `keshvar::Alpha3::try_from` accepts a text as, by the Alpha-2 code
/// of its country.
pub uninterp spec fn alpha3_lookup(text: Seq<char>) -> Option<Seq<char>>;

/// What `keshvar::find_by_iso_short_name` finds for a text, by the Alpha-2
/// code of the country.
pub uninterp spec fn short_name_lookup(text: Seq<char>) -> Option<Seq<char>>;

/// What `keshvar::find_by_iso_long_name` finds for a text, by the Alpha-2
/// code of the country.
pub uninterp spec fn long_name_lookup(text: Seq<char>) -> Option<Seq<char>>;

/// Trusted: `keshvar::Alpha2::try_from`, the code rendered by `Display`.
/// Claims only that the outcome is the one named for this text.
#[verifier::external_body]
fn alpha2_code(text: &str) -> (r: Option<String>)
    ensures
        opt_text(r) == alpha2_lookup(text@),
{
    keshvar::Alpha2::try_from(text).ok().map(|a| a.to_string())
}

/// Trusted: `keshvar::Alpha3::try_from`, then the country's Alpha-2 code.
/// Claims only that the outcome is the one named for this text.
#[verifier::external_body]
fn alpha3_country_code(text: &str) -> (r: Option<String>)
    ensures
        opt_text(r) == alpha3_lookup(text@),
{
    keshvar::Alpha3::try_from(text).ok().map(|a| a.to_country().alpha2().to_string())
}

/// Trusted: `keshvar::find_by_iso_short_name`, then the country's Alpha-2
/// code. Claims only that the outcome is the one named for this text.
#[verifier::external_body]
fn short_name_code(text: &str) -> (r: Option<String>)
    ensures
        opt_text(r) == short_name_lookup(text@),
{
    keshvar::find_by_iso_short_name(text).ok().map(|c| c.alpha2().to_string())
}

/// Trusted: `keshvar::find_by_iso_long_name`, then the country's Alpha-2
/// code. Claims only that the outcome is the one named for this text.
#[verifier::external_body]
fn long_name_code(text: &str) -> (r: Option<String>)
    ensures
        opt_text(r) == long_name_lookup(text@),
{
    keshvar::find_by_iso_long_name(text).ok().map(|c| c.alpha2().to_string())
}

/// The first match in order: the Alpha-2 reading (only for a two-byte
/// input), the Alpha-3 reading (only for a three-byte input), the ISO short
/// name, the ISO long name.
pub open spec fn spec_country_choice(
    byte_len: nat,
    alpha2: Option<Seq<char>>,
    alpha3: Option<Seq<char>>,
    short: Option<Seq<char>>,
    long: Option<Seq<char>>,
) -> Option<Seq<char>> {
    if byte_len == 2 && alpha2 is Some {
        alpha2
    } else if byte_len == 3 && alpha3 is Some {
        alpha3
    } else if short is Some {
        short
    } else {
        long
    }
}

/// The country code `input` names: its upper-case form read as an Alpha-2
/// or Alpha-3 code, else its lower-case form looked up as an ISO name.
pub open spec fn spec_parse_country(input: Seq<char>) -> Option<Seq<char>> {
    let t = trimmed(input);
    let upper = upper_text(t);
    let lower = lower_text(t);
    spec_country_choice(
        utf8_len(upper),
        alpha2_lookup(upper),
        alpha3_lookup(upper),
        short_name_lookup(lower),
        long_name_lookup(lower),
    )
}

/// Pick the country code from the four lookups, in order of preference.
pub fn choose_country(
    byte_len: usize,
    alpha2: Option<String>,
    alpha3: Option<String>,
    short: Option<String>,
    long: Option<String>,
) -> (r: Option<String>)
    ensures
        opt_text(r) == spec_country_choice(
            byte_len as nat,
            opt_text(alpha2),
            opt_text(alpha3),
            opt_text(short),
            opt_text(long),
        ),
{
    if byte_len == 2 && alpha2.is_some() {
        alpha2
    } else if byte_len == 3 && alpha3.is_some() {
        alpha3
    } else if short.is_some() {
        short
    } else {
        long
    }
}

/// Accepts Alpha-2, Alpha-3, or a country name (case-insensitive) and
/// normalises to the Alpha-2 string the hub expects; `None` when nothing
/// matches.
pub fn parse_country_alpha2(input: &str) -> (r: Option<String>)
    ensures
        opt_text(r) == spec_parse_country(input@),
{
    let t = trim(input);
    let upper = to_ascii_upper(t.as_str());
    let lower = to_ascii_lower(t.as_str());
    let byte_len = utf8_len_upto4(upper.as_str());
    let a2 = alpha2_code(upper.as_str());
    let a3 = alpha3_country_code(upper.as_str());
    let short = short_name_code(lower.as_str());
    let long = long_name_code(lower.as_str());
    choose_country(byte_len, a2, a3, short, long)
}

} // verus!
