use p2proxy::config::{PoolConfigOptions, ProxyProtocols, Server, ServerPeerOptions, StickyReconnect};
use p2proxy::events::{BandwidthEvents, ConnectionEvents, Events, SessionEvents};
use p2proxy::filters::FilterPolicy;
use p2proxy::route::PeerKey;
use p2proxy::server_state::{ConnectionStatus, ServerContainer};

fn server(port: u16) -> Server {
    Server {
        protocol: ProxyProtocols::Socks5,
        port,
        peer_options: ServerPeerOptions {
            destination_peers: None,
            fallback_to_discovery: false,
            sticky: true,
            sticky_reconnect: StickyReconnect::WithBackoff,
            country: None,
            min_bandwidth_bps: 50_000_000,
            city: None,
            isp: None,
            asn: None,
            proxy: FilterPolicy::Allow,
            mobile: FilterPolicy::Allow,
            hosting: FilterPolicy::Allow,
        },
        pool: PoolConfigOptions::default(),
    }
}

#[test]
fn events_update_the_counters() {
    let mut c = ServerContainer::new(vec![server(1080), server(1081)]);
    assert_eq!(c.get_connection_status(), "Disconnected");
    c.handle_event(&Events::LocalPeerId(PeerKey::new("me".into())));
    c.handle_event(&Events::Connection(ConnectionEvents::Connected(PeerKey::new("x".into()))));
    c.handle_event(&Events::Connection(ConnectionEvents::Connected(PeerKey::new("y".into()))));
    c.handle_event(&Events::Session(SessionEvents::New(7, "example.com:443".into(), PeerKey::new("x".into()))));
    c.handle_event(&Events::Session(SessionEvents::New(8, "example.com:443".into(), PeerKey::new("x".into()))));
    c.handle_event(&Events::Session(SessionEvents::End(7)));
    c.handle_event(&Events::Bandwidth(BandwidthEvents::Upload(8, 100)));
    c.handle_event(&Events::Bandwidth(BandwidthEvents::Download(8, 250)));
    assert_eq!(c.get_connection_status(), "Connected");
    let st = c.get_stats();
    assert_eq!(st.total_sessions, 1);
    assert_eq!(st.total_peers, 4, "every server counts peer connections");
    assert_eq!(st.total_upload, 100);
    assert_eq!(st.total_download, 250);
    assert_eq!(st.local_peer_id, Some(PeerKey::new("me".into())));
    let states = c.get_server_states();
    assert_eq!(states[0].server_id, "socks5:1080");
    assert_eq!(states[1].server_id, "socks5:1081");
    assert_eq!(states[0].protocol, "Socks5");
    assert_eq!(states[1].state.client_connections, 0, "sessions count against the first server");
    c.handle_event(&Events::Connection(ConnectionEvents::Disconnected(PeerKey::new("x".into()))));
    assert_eq!(c.get_stats().total_peers, 0);
    assert_eq!(c.get_server_states()[0].state.connection_status, ConnectionStatus::Disconnected);
}

#[test]
fn ending_a_session_never_goes_below_zero() {
    let mut c = ServerContainer::new(vec![server(1080)]);
    c.handle_event(&Events::Session(SessionEvents::End(1)));
    assert_eq!(c.get_stats().total_sessions, 0);
}

#[test]
fn no_servers_reports_so() {
    let c = ServerContainer::new(vec![]);
    assert_eq!(c.get_connection_status(), "No servers configured");
    assert_eq!(c.get_stats().connection_status, "No servers configured");
}
