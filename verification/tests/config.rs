use p2proxy::config::{
    choose_country, default_idle_timeout_secs, default_max_retries, default_max_total, default_min_bandwidth_bps,
    default_min_idle, default_open_timeout_secs, default_pool_enabled, default_sticky, parse_country_alpha2,
    ConfigValidationError, DestinationPeerEntry, PoolConfigOptions, ServerPeerOptions, StickyReconnect,
};
use p2proxy::filters::FilterPolicy;
use p2proxy::route::{PeerKey, Route};

fn random_peer() -> PeerKey {
    PeerKey::new(libp2p::identity::Keypair::generate_ed25519().public().to_peer_id().to_string())
}

fn options(destination_peers: Option<Vec<DestinationPeerEntry>>) -> ServerPeerOptions {
    ServerPeerOptions {
        destination_peers,
        fallback_to_discovery: false,
        sticky: true,
        sticky_reconnect: StickyReconnect::WithBackoff,
        country: None,
        min_bandwidth_bps: default_min_bandwidth_bps(),
        city: None,
        isp: None,
        asn: None,
        proxy: FilterPolicy::Allow,
        mobile: FilterPolicy::Allow,
        hosting: FilterPolicy::Allow,
    }
}

#[test]
fn bare_peer_id_parses() {
    let id = random_peer();
    let entry: DestinationPeerEntry = id.id.parse().expect("parses");
    assert_eq!(entry.peer_id, id);
    assert_eq!(entry.address, None);
}

#[test]
fn full_multiaddr_extracts_last_p2p_and_keeps_address() {
    let relay = random_peer();
    let dest = random_peer();
    let raw = format!("/dns4/hub.example.com/tcp/31515/p2p/{}/p2p-circuit/p2p/{}", relay.id, dest.id);
    let entry: DestinationPeerEntry = raw.parse().expect("parses");
    assert_eq!(entry.peer_id, dest, "destination is the LAST /p2p/");
    assert_eq!(entry.address, Some(Route::parse(&raw).expect("multiaddr")));
    assert_eq!(entry.to_text(), raw);
}

#[test]
fn bare_p2p_multiaddr_pins_identity_only() {
    let id = random_peer();
    let entry: DestinationPeerEntry = format!("/p2p/{}", id.id).parse().expect("parses");
    assert_eq!(entry.peer_id, id);
    assert_eq!(entry.address, None, "bare /p2p/<id> has no dialable address");
}

#[test]
fn multiaddr_without_p2p_rejected() {
    let err = "/ip4/1.2.3.4/tcp/443".parse::<DestinationPeerEntry>().expect_err("no peer identity");
    assert!(err.contains("/p2p/"));
}

#[test]
fn garbage_rejected() {
    assert!("not-a-peer".parse::<DestinationPeerEntry>().is_err());
    assert!("".parse::<DestinationPeerEntry>().is_err());
}

#[test]
fn entry_errors_name_the_problem() {
    assert_eq!("   ".parse::<DestinationPeerEntry>().unwrap_err(), "destination peer entry is empty");
    let e = "not-a-peer".parse::<DestinationPeerEntry>().unwrap_err();
    assert!(e.starts_with("invalid peer id \"not-a-peer\": "), "{e}");
    let e = "/ip4/1.2.3.4/tcp/443".parse::<DestinationPeerEntry>().unwrap_err();
    assert_eq!(e, "multiaddr \"/ip4/1.2.3.4/tcp/443\" must end with /p2p/<peer-id>");
    let e = "/nope".parse::<DestinationPeerEntry>().unwrap_err();
    assert!(e.starts_with("invalid multiaddr \"/nope\": "), "{e}");
}

#[test]
fn surrounding_whitespace_is_ignored() {
    let id = random_peer();
    let entry: DestinationPeerEntry = format!("  {}\n", id.id).parse().expect("parses");
    assert_eq!(entry.peer_id, id);
    assert_eq!(entry.to_text(), id.id);
}

#[test]
fn validate_rejects_empty_pinned_list() {
    let opts = options(Some(vec![]));
    assert!(matches!(opts.validate(1080), Err(ConfigValidationError::EmptyPinnedList { port: 1080 })));
    assert_eq!(
        opts.validate(1080).unwrap_err().message(),
        "server :1080: destination_peers is present but empty — list at least one peer or remove the key"
    );
    assert!(options(None).validate(1080).is_ok());
    let one = DestinationPeerEntry { peer_id: random_peer(), address: None };
    assert!(options(Some(vec![one])).validate(1080).is_ok());
}

#[test]
fn pinned_empty_for_discovery_servers() {
    assert!(options(None).pinned().is_empty());
}

#[test]
fn pinned_keeps_the_configured_order() {
    let (a, b) = (random_peer(), random_peer());
    let list = vec![
        DestinationPeerEntry { peer_id: a.clone(), address: None },
        DestinationPeerEntry { peer_id: b.clone(), address: None },
    ];
    let pinned = options(Some(list)).pinned();
    assert_eq!(pinned.len(), 2);
    assert_eq!(pinned[0].peer_id, a, "order preserved — rank 0 first");
    assert_eq!(pinned[1].peer_id, b);
}

#[test]
fn fingerprint_changes_on_each_filter_dimension() {
    let base = options(None);
    let fp = base.filter_fingerprint(1080);
    assert_ne!(fp, base.filter_fingerprint(1081), "port changes fp");

    let mut with_country = options(None);
    with_country.country = Some("NL".to_string());
    assert_ne!(fp, with_country.filter_fingerprint(1080));

    let mut with_bw = options(None);
    with_bw.min_bandwidth_bps = 100_000_000;
    assert_ne!(fp, with_bw.filter_fingerprint(1080));

    assert_eq!(fp, options(None).filter_fingerprint(1080), "stable");
}

#[test]
fn fingerprint_format() {
    let mut o = options(None);
    assert_eq!(o.filter_fingerprint(1080), "v1|1080||50000000");
    o.country = Some("RU".into());
    o.min_bandwidth_bps = 1000;
    assert_eq!(o.filter_fingerprint(8080), "v1|8080|RU|1000");
}

#[test]
fn summary_names_pins_or_country() {
    assert_eq!(options(None).summary(), "Unknown");
    let mut c = options(None);
    c.country = Some("NL".into());
    assert_eq!(c.summary(), "Country: NL");
    let a = PeerKey::new("12D3KooWA".into());
    let b = PeerKey::new("12D3KooWB".into());
    let one = options(Some(vec![DestinationPeerEntry { peer_id: a.clone(), address: None }]));
    assert_eq!(one.summary(), "Pinned: 12D3KooWA");
    let two = options(Some(vec![
        DestinationPeerEntry { peer_id: a, address: None },
        DestinationPeerEntry { peer_id: b, address: None },
    ]));
    assert_eq!(two.summary(), "Pinned: 12D3KooWA +1 more");
}

#[test]
fn defaults_match_the_documentation() {
    assert!(default_pool_enabled());
    assert_eq!(default_min_idle(), 5);
    assert_eq!(default_max_total(), 30);
    assert_eq!(default_idle_timeout_secs(), 60);
    assert_eq!(default_open_timeout_secs(), 20);
    assert_eq!(default_max_retries(), 3);
    assert!(default_sticky());
    assert_eq!(default_min_bandwidth_bps(), 50_000_000);
    let p = PoolConfigOptions::default();
    assert_eq!(p.max_total, 30);
    assert_eq!(p.open_timeout_secs, 20);
    assert_eq!(StickyReconnect::default(), StickyReconnect::WithBackoff);
}

#[test]
fn alpha2_passthrough() {
    assert_eq!(parse_country_alpha2("RU").as_deref(), Some("RU"));
    assert_eq!(parse_country_alpha2("ru").as_deref(), Some("RU"));
}

#[test]
fn alpha3_converts() {
    assert_eq!(parse_country_alpha2("RUS").as_deref(), Some("RU"));
}

#[test]
fn iso_short_name() {
    assert_eq!(parse_country_alpha2("Russian Federation").as_deref(), Some("RU"));
}

#[test]
fn config_rejects_garbage() {
    assert!(parse_country_alpha2("Atlantis").is_none());
}

#[test]
fn country_lookup_prefers_codes_by_length() {
    let s = |x: &str| Some(x.to_string());
    assert_eq!(choose_country(2, s("A2"), s("A3"), s("S"), s("L")), s("A2"));
    assert_eq!(choose_country(3, s("A2"), s("A3"), s("S"), s("L")), s("A3"));
    assert_eq!(choose_country(4, s("A2"), s("A3"), s("S"), s("L")), s("S"));
    assert_eq!(choose_country(2, None, s("A3"), None, s("L")), s("L"));
    assert_eq!(choose_country(5, None, None, None, None), None);
    assert_eq!(parse_country_alpha2("  nl  ").as_deref(), Some("NL"));
}

#[test]
fn serialize_roundtrips_original_string_form() {
    let id = random_peer();
    for raw in [id.id.clone(), format!("/ip4/9.9.9.9/tcp/31515/p2p/{}", id.id)] {
        let entry = DestinationPeerEntry::parse(&raw).expect("parses");
        let text = entry.to_text();
        assert_eq!(text, raw);
        let back = DestinationPeerEntry::parse(&text).expect("parses again");
        assert_eq!(back.peer_id, entry.peer_id);
        assert_eq!(back.address, entry.address);
    }
}
