//! Node-selection filters: the tri-state attribute policy, the filter value
//! a server projects for a hub `FindNodes` query, and the hub requirements
//! built from it.
use vstd::prelude::*;

use crate::text::{concat, decimal, decimal_string};

verus! {

/// Tri-state node-attribute policy shared by the proxy / mobile / hosting
/// dimensions. `Allow` (the default) imposes no constraint; `Require` keeps
/// only nodes that have the attribute; `Deny` rejects nodes that have it.
#[derive(Debug, Clone, Copy, PartialEq, Eq, Structural, Hash)]
pub enum FilterPolicy {
    Allow,
    Deny,
    Require,
}

impl Default for FilterPolicy {
    fn default() -> (p: FilterPolicy)
        ensures
            p == FilterPolicy::Allow,
    {
        FilterPolicy::Allow
    }
}

/// The label of a non-default policy on `attribute`, `None` for `Allow`.
pub open spec fn spec_constraint_label(policy: FilterPolicy, attribute: Seq<char>) -> Option<Seq<char>> {
    match policy {
        FilterPolicy::Allow => None,
        FilterPolicy::Deny => Some("no "@ + attribute),
        FilterPolicy::Require => Some(attribute + " only"@),
    }
}

impl FilterPolicy {
    /// Human label for a non-default policy on `attribute` (e.g. `"proxy"`),
    /// or `None` when the policy imposes no constraint (`Allow`).
    pub fn constraint_label(&self, attribute: &str) -> (label: Option<String>)
        ensures
            match label {
                Some(l) => spec_constraint_label(*self, attribute@) == Some(l@),
                None => spec_constraint_label(*self, attribute@) is None,
            },
    {
        match self {
            FilterPolicy::Allow => None,
            FilterPolicy::Deny => Some(concat("no ", attribute)),
            FilterPolicy::Require => Some(concat(attribute, " only")),
        }
    }
}

/// Hub `FindNodes` selection criteria, projected from a server's peer
/// options.
#[derive(Debug, Clone)]
pub struct NodeFilters {
    pub country: Option<String>,
    pub city: Option<String>,
    pub isp: Option<String>,
    pub asn: Option<u32>,
    pub proxy: FilterPolicy,
    pub mobile: FilterPolicy,
    /// Hosting (datacenter) policy: the complement of the hub's
    /// `residential` attribute.
    pub hosting: FilterPolicy,
    pub min_bandwidth_bps: u128,
}

pub struct NodeFiltersView {
    pub country: Option<Seq<char>>,
    pub city: Option<Seq<char>>,
    pub isp: Option<Seq<char>>,
    pub asn: Option<u32>,
    pub proxy: FilterPolicy,
    pub mobile: FilterPolicy,
    pub hosting: FilterPolicy,
    pub min_bandwidth_bps: u128,
}

pub open spec fn opt_text(o: Option<String>) -> Option<Seq<char>> {
    match o {
        Some(s) => Some(s@),
        None => None,
    }
}

impl View for NodeFilters {
    type V = NodeFiltersView;

    open spec fn view(&self) -> NodeFiltersView {
        NodeFiltersView {
            country: opt_text(self.country),
            city: opt_text(self.city),
            isp: opt_text(self.isp),
            asn: self.asn,
            proxy: self.proxy,
            mobile: self.mobile,
            hosting: self.hosting,
            min_bandwidth_bps: self.min_bandwidth_bps,
        }
    }
}

impl Default for NodeFilters {
    fn default() -> (f: NodeFilters)
        ensures
            f@ == (NodeFiltersView {
                country: None,
                city: None,
                isp: None,
                asn: None,
                proxy: FilterPolicy::Allow,
                mobile: FilterPolicy::Allow,
                hosting: FilterPolicy::Allow,
                min_bandwidth_bps: 0,
            }),
    {
        NodeFilters {
            country: None,
            city: None,
            isp: None,
            asn: None,
            proxy: FilterPolicy::Allow,
            mobile: FilterPolicy::Allow,
            hosting: FilterPolicy::Allow,
            min_bandwidth_bps: 0,
        }
    }
}

/// The hub's proxy-attribute restriction.
#[derive(Debug, Clone, Copy, PartialEq, Eq, Structural)]
pub enum ProxyRestriction {
    Allow,
    Disallow,
    Only,
}

/// The hub's tri-state network-attribute policy.
#[derive(Debug, Clone, Copy, PartialEq, Eq, Structural)]
pub enum NetworkPolicy {
    Allowed,
    Denied,
    Required,
}

/// The requirements of a hub `FindNodes` request.
#[derive(Debug, Clone)]
pub struct HubRequirements {
    pub countries: Vec<String>,
    pub cities: Vec<String>,
    pub isps: Vec<String>,
    pub asns: Vec<u32>,
    pub proxy: ProxyRestriction,
    pub mobile: NetworkPolicy,
    pub residential: NetworkPolicy,
}

pub open spec fn opt_list(o: Option<Seq<char>>) -> Seq<Seq<char>> {
    match o {
        Some(s) => seq![s],
        None => Seq::empty(),
    }
}

pub open spec fn texts(v: Seq<String>) -> Seq<Seq<char>> {
    v.map_values(|s: String| s@)
}

/// `Deny` becomes `Disallow`, `Require` becomes `Only`.
pub open spec fn spec_proxy_restriction(p: FilterPolicy) -> ProxyRestriction {
    match p {
        FilterPolicy::Allow => ProxyRestriction::Allow,
        FilterPolicy::Deny => ProxyRestriction::Disallow,
        FilterPolicy::Require => ProxyRestriction::Only,
    }
}

/// The same three cases under the hub's names.
pub open spec fn spec_network_policy(p: FilterPolicy) -> NetworkPolicy {
    match p {
        FilterPolicy::Allow => NetworkPolicy::Allowed,
        FilterPolicy::Deny => NetworkPolicy::Denied,
        FilterPolicy::Require => NetworkPolicy::Required,
    }
}

/// Hosting is the inverse of `residential`: requiring hosting nodes denies
/// residential ones, and denying hosting requires residential ones.
pub open spec fn spec_residential_policy(hosting: FilterPolicy) -> NetworkPolicy {
    match hosting {
        FilterPolicy::Allow => NetworkPolicy::Allowed,
        FilterPolicy::Require => NetworkPolicy::Denied,
        FilterPolicy::Deny => NetworkPolicy::Required,
    }
}

pub fn proxy_restriction(policy: FilterPolicy) -> (r: ProxyRestriction)
    ensures
        r == spec_proxy_restriction(policy),
{
    match policy {
        FilterPolicy::Allow => ProxyRestriction::Allow,
        FilterPolicy::Deny => ProxyRestriction::Disallow,
        FilterPolicy::Require => ProxyRestriction::Only,
    }
}

pub fn network_policy(policy: FilterPolicy) -> (r: NetworkPolicy)
    ensures
        r == spec_network_policy(policy),
{
    match policy {
        FilterPolicy::Allow => NetworkPolicy::Allowed,
        FilterPolicy::Deny => NetworkPolicy::Denied,
        FilterPolicy::Require => NetworkPolicy::Required,
    }
}

pub fn residential_policy(hosting: FilterPolicy) -> (r: NetworkPolicy)
    ensures
        r == spec_residential_policy(hosting),
{
    match hosting {
        FilterPolicy::Allow => NetworkPolicy::Allowed,
        FilterPolicy::Require => NetworkPolicy::Denied,
        FilterPolicy::Deny => NetworkPolicy::Required,
    }
}

fn single(o: &Option<String>) -> (v: Vec<String>)
    ensures
        texts(v@) == opt_list(opt_text(*o)),
{
    let mut v: Vec<String> = Vec::new();
    match o {
        Some(s) => {
            v.push(s.clone());
        },
        None => {},
    }
    assert(texts(v@) =~= opt_list(opt_text(*o)));
    v
}

/// Build the hub `FindNodes` requirements from a server's node filters.
/// String and ASN filters become single-element requirement lists; the
/// proxy/mobile/hosting policies map onto the hub's tri-state enums, hosting
/// onto an inverted residential policy.
pub fn requirements_from_filters(filters: &NodeFilters) -> (r: HubRequirements)
    ensures
        texts(r.countries@) == opt_list(filters@.country),
        texts(r.cities@) == opt_list(filters@.city),
        texts(r.isps@) == opt_list(filters@.isp),
        r.asns@ == (match filters.asn {
            Some(a) => seq![a],
            None => Seq::<u32>::empty(),
        }),
        r.proxy == spec_proxy_restriction(filters.proxy),
        r.mobile == spec_network_policy(filters.mobile),
        r.residential == spec_residential_policy(filters.hosting),
{
    let mut asns: Vec<u32> = Vec::new();
    match filters.asn {
        Some(a) => {
            asns.push(a);
        },
        None => {},
    }
    HubRequirements {
        countries: single(&filters.country),
        cities: single(&filters.city),
        isps: single(&filters.isp),
        asns,
        proxy: proxy_restriction(filters.proxy),
        mobile: network_policy(filters.mobile),
        residential: residential_policy(filters.hosting),
    }
}

/// The label `prefix` + value of an optional filter, as a zero- or
/// one-element list.
pub open spec fn prefixed(prefix: Seq<char>, o: Option<Seq<char>>) -> Seq<Seq<char>> {
    match o {
        Some(s) => seq![prefix + s],
        None => Seq::empty(),
    }
}

pub open spec fn policy_labels(p: FilterPolicy, attribute: Seq<char>) -> Seq<Seq<char>> {
    match spec_constraint_label(p, attribute) {
        Some(l) => seq![l],
        None => Seq::empty(),
    }
}

/// The node-selection constraint labels of `f`, in a stable order.
pub open spec fn spec_filter_labels(f: NodeFiltersView) -> Seq<Seq<char>> {
    prefixed("country: "@, f.country) + prefixed("city: "@, f.city) + prefixed("isp: "@, f.isp)
        + match f.asn {
        Some(a) => seq!["ASN "@ + decimal(a as nat)],
        None => Seq::empty(),
    } + policy_labels(f.proxy, "proxy"@) + policy_labels(f.mobile, "mobile"@) + policy_labels(
        f.hosting,
        "hosting"@,
    )
}

fn push_prefixed(labels: &mut Vec<String>, prefix: &str, o: &Option<String>)
    ensures
        texts(final(labels)@) == texts(old(labels)@) + prefixed(prefix@, opt_text(*o)),
{
    let ghost before = labels@;
    match o {
        Some(s) => {
            labels.push(concat(prefix, s.as_str()));
        },
        None => {},
    }
    assert(texts(labels@) =~= texts(before) + prefixed(prefix@, opt_text(*o)));
}

fn push_policy(labels: &mut Vec<String>, p: FilterPolicy, attribute: &str)
    ensures
        texts(final(labels)@) == texts(old(labels)@) + policy_labels(p, attribute@),
{
    let ghost before = labels@;
    match p.constraint_label(attribute) {
        Some(l) => {
            labels.push(l);
        },
        None => {},
    }
    assert(texts(labels@) =~= texts(before) + policy_labels(p, attribute@));
}

/// Human-readable labels for the node-selection constraints of `f`, in a
/// stable order: country, city, isp, ASN, then the proxy / mobile / hosting
/// policies. Empty when nothing constrains node attributes.
pub fn labels_of(f: &NodeFilters) -> (labels: Vec<String>)
    ensures
        texts(labels@) == spec_filter_labels(f@),
{
    let mut labels: Vec<String> = Vec::new();
    push_prefixed(&mut labels, "country: ", &f.country);
    push_prefixed(&mut labels, "city: ", &f.city);
    push_prefixed(&mut labels, "isp: ", &f.isp);
    let ghost mid = labels@;
    match f.asn {
        Some(a) => {
            let d = decimal_string(a as u128);
            labels.push(concat("ASN ", d.as_str()));
        },
        None => {},
    }
    assert(texts(labels@) =~= texts(mid) + match f.asn {
        Some(a) => seq!["ASN "@ + decimal(a as nat)],
        None => Seq::<Seq<char>>::empty(),
    });
    push_policy(&mut labels, f.proxy, "proxy");
    push_policy(&mut labels, f.mobile, "mobile");
    push_policy(&mut labels, f.hosting, "hosting");
    assert(texts(labels@) =~= spec_filter_labels(f@));
    labels
}

} // verus!
