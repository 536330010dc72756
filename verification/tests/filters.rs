use p2proxy::config::{PoolConfigOptions, ServerPeerOptions, StickyReconnect};
use p2proxy::filters::{
    labels_of, network_policy, proxy_restriction, requirements_from_filters, residential_policy, FilterPolicy,
    NetworkPolicy, NodeFilters, ProxyRestriction,
};

fn opts(country: Option<&str>, asn: Option<u32>, hosting: FilterPolicy) -> ServerPeerOptions {
    ServerPeerOptions {
        destination_peers: None,
        fallback_to_discovery: false,
        sticky: true,
        sticky_reconnect: StickyReconnect::default(),
        country: country.map(str::to_string),
        min_bandwidth_bps: 50_000_000,
        city: None,
        isp: None,
        asn,
        proxy: FilterPolicy::Allow,
        mobile: FilterPolicy::Allow,
        hosting,
    }
}

#[test]
fn filter_policy_defaults_to_allow() {
    assert_eq!(FilterPolicy::default(), FilterPolicy::Allow);
}

#[test]
fn constraint_label_only_for_non_default() {
    assert_eq!(FilterPolicy::Allow.constraint_label("proxy"), None);
    assert_eq!(FilterPolicy::Deny.constraint_label("proxy"), Some("no proxy".to_string()));
    assert_eq!(FilterPolicy::Require.constraint_label("mobile"), Some("mobile only".to_string()));
}

#[test]
fn filter_labels_lists_only_active_constraints() {
    let labels = opts(Some("NL"), Some(1136), FilterPolicy::Deny).filter_labels();
    assert_eq!(labels, vec!["country: NL", "ASN 1136", "no hosting"]);
}

#[test]
fn filter_labels_empty_when_unconstrained() {
    assert!(opts(None, None, FilterPolicy::Allow).filter_labels().is_empty());
}

#[test]
fn filter_labels_follow_the_stable_order() {
    let mut o = opts(Some("DE"), Some(3320), FilterPolicy::Require);
    o.city = Some("Berlin".into());
    o.isp = Some("DTAG".into());
    o.proxy = FilterPolicy::Deny;
    o.mobile = FilterPolicy::Require;
    assert_eq!(
        o.filter_labels(),
        vec!["country: DE", "city: Berlin", "isp: DTAG", "ASN 3320", "no proxy", "mobile only", "hosting only"]
    );
    assert_eq!(labels_of(&o.node_filters()), o.filter_labels());
}

#[test]
fn node_filters_project_every_dimension() {
    let o = opts(Some("NL"), Some(1136), FilterPolicy::Deny);
    let f = o.node_filters();
    assert_eq!(f.country.as_deref(), Some("NL"));
    assert_eq!(f.asn, Some(1136));
    assert_eq!(f.hosting, FilterPolicy::Deny);
    assert_eq!(f.min_bandwidth_bps, 50_000_000);
    let _ = PoolConfigOptions::default();
}

#[test]
fn maps_string_and_asn_filters() {
    let filters = NodeFilters {
        country: Some("NL".into()),
        city: Some("Tiel".into()),
        isp: Some("KPN".into()),
        asn: Some(1136),
        ..Default::default()
    };
    let reqs = requirements_from_filters(&filters);
    assert_eq!(reqs.countries, vec!["NL"]);
    assert_eq!(reqs.cities, vec!["Tiel"]);
    assert_eq!(reqs.isps, vec!["KPN"]);
    assert_eq!(reqs.asns, vec![1136]);
}

#[test]
fn empty_filters_leave_no_constraints() {
    let reqs = requirements_from_filters(&NodeFilters::default());
    assert!(reqs.countries.is_empty());
    assert!(reqs.asns.is_empty());
    assert_eq!(reqs.proxy, ProxyRestriction::Allow);
    assert_eq!(reqs.mobile, NetworkPolicy::Allowed);
    assert_eq!(reqs.residential, NetworkPolicy::Allowed);
}

#[test]
fn proxy_policy_maps_to_proxy_restriction() {
    assert_eq!(proxy_restriction(FilterPolicy::Allow), ProxyRestriction::Allow);
    assert_eq!(proxy_restriction(FilterPolicy::Deny), ProxyRestriction::Disallow);
    assert_eq!(proxy_restriction(FilterPolicy::Require), ProxyRestriction::Only);
}

#[test]
fn mobile_policy_maps_to_network_policy() {
    assert_eq!(network_policy(FilterPolicy::Allow), NetworkPolicy::Allowed);
    assert_eq!(network_policy(FilterPolicy::Deny), NetworkPolicy::Denied);
    assert_eq!(network_policy(FilterPolicy::Require), NetworkPolicy::Required);
}

#[test]
fn hosting_policy_inverts_residential() {
    assert_eq!(residential_policy(FilterPolicy::Require), NetworkPolicy::Denied);
    assert_eq!(residential_policy(FilterPolicy::Deny), NetworkPolicy::Required);
    assert_eq!(residential_policy(FilterPolicy::Allow), NetworkPolicy::Allowed);
}

#[test]
fn require_hosting_denies_residential_in_requirements() {
    let filters = NodeFilters { hosting: FilterPolicy::Require, ..Default::default() };
    assert_eq!(requirements_from_filters(&filters).residential, NetworkPolicy::Denied);
}
