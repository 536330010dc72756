//! Per-server counters the user interface reads, kept up to date from the
//! proxy's events.
use vstd::prelude::*;

use crate::config::{ProxyProtocols, Server};
use crate::events::{BandwidthEvents, ConnectionEvents, Events, SessionEvents};
use crate::route::PeerKey;
use crate::text::{concat, decimal, decimal_string};

verus! {

#[derive(Debug, Clone, Copy, PartialEq, Eq, Structural)]
pub enum ConnectionStatus {
    Disconnected,
    Connected,
}

/// One server's counters.
#[derive(Debug, Clone)]
pub struct ServerState {
    pub connection_status: ConnectionStatus,
    pub client_connections: usize,
    pub peer_connections: usize,
    pub total_upload: u64,
    pub total_download: u64,
    pub local_peer_id: Option<PeerKey>,
}

pub struct StateView {
    pub connection_status: ConnectionStatus,
    pub client_connections: usize,
    pub peer_connections: usize,
    pub total_upload: u64,
    pub total_download: u64,
    pub local_peer_id: Option<Seq<char>>,
}

impl View for ServerState {
    type V = StateView;

    open spec fn view(&self) -> StateView {
        StateView {
            connection_status: self.connection_status,
            client_connections: self.client_connections,
            peer_connections: self.peer_connections,
            total_upload: self.total_upload,
            total_download: self.total_download,
            local_peer_id: match &self.local_peer_id {
                Some(k) => Some(k@),
                None => None,
            },
        }
    }
}

impl Default for ServerState {
    fn default() -> (s: ServerState)
        ensures
            s@ == (StateView {
                connection_status: ConnectionStatus::Disconnected,
                client_connections: 0,
                peer_connections: 0,
                total_upload: 0,
                total_download: 0,
                local_peer_id: None,
            }),
    {
        ServerState {
            connection_status: ConnectionStatus::Disconnected,
            client_connections: 0,
            peer_connections: 0,
            total_upload: 0,
            total_download: 0,
            local_peer_id: None,
        }
    }
}

/// The proxy's servers and their counters, in configuration order.
pub struct ServerContainer {
    servers: Vec<Server>,
    states: Vec<ServerState>,
}

pub open spec fn states_view(v: Seq<ServerState>) -> Seq<StateView> {
    v.map_values(|s: ServerState| s@)
}

/// The event's effect on one server's counters; `first` says whether it is
/// the first server, which alone counts sessions and bandwidth.
pub open spec fn apply_event(s: StateView, first: bool, e: Events) -> StateView {
    match e {
        Events::LocalPeerId(p) => StateView { local_peer_id: Some(p@), ..s },
        Events::Connection(ConnectionEvents::Connecting) => StateView {
            connection_status: ConnectionStatus::Disconnected,
            ..s
        },
        Events::Connection(ConnectionEvents::Connected(_)) => StateView {
            connection_status: ConnectionStatus::Connected,
            peer_connections: (s.peer_connections + 1) as usize,
            ..s
        },
        Events::Connection(ConnectionEvents::Disconnected(_)) => StateView {
            connection_status: ConnectionStatus::Disconnected,
            peer_connections: 0,
            ..s
        },
        Events::Session(SessionEvents::New(..)) => if first {
            StateView { client_connections: (s.client_connections + 1) as usize, ..s }
        } else {
            s
        },
        Events::Session(SessionEvents::End(_)) => if first && s.client_connections > 0 {
            StateView { client_connections: (s.client_connections - 1) as usize, ..s }
        } else {
            s
        },
        Events::Bandwidth(BandwidthEvents::Upload(_, b)) => if first {
            StateView { total_upload: (s.total_upload + b) as u64, ..s }
        } else {
            s
        },
        Events::Bandwidth(BandwidthEvents::Download(_, b)) => if first {
            StateView { total_download: (s.total_download + b) as u64, ..s }
        } else {
            s
        },
        _ => s,
    }
}

/// The event's counters fit: no count it raises overflows.
pub open spec fn fits(s: StateView, first: bool, e: Events) -> bool {
    match e {
        Events::Connection(ConnectionEvents::Connected(_)) => s.peer_connections < usize::MAX,
        Events::Session(SessionEvents::New(..)) => first ==> s.client_connections < usize::MAX,
        Events::Bandwidth(BandwidthEvents::Upload(_, b)) => first ==> s.total_upload + b <= u64::MAX,
        Events::Bandwidth(BandwidthEvents::Download(_, b)) => first ==> s.total_download + b <= u64::MAX,
        _ => true,
    }
}

pub open spec fn sum_clients(v: Seq<StateView>) -> nat
    decreases v.len(),
{
    if v.len() == 0 { 0 } else { sum_clients(v.drop_last()) + v.last().client_connections as nat }
}

pub open spec fn sum_peers(v: Seq<StateView>) -> nat
    decreases v.len(),
{
    if v.len() == 0 { 0 } else { sum_peers(v.drop_last()) + v.last().peer_connections as nat }
}

pub open spec fn sum_upload(v: Seq<StateView>) -> nat
    decreases v.len(),
{
    if v.len() == 0 { 0 } else { sum_upload(v.drop_last()) + v.last().total_upload as nat }
}

pub open spec fn sum_download(v: Seq<StateView>) -> nat
    decreases v.len(),
{
    if v.len() == 0 { 0 } else { sum_download(v.drop_last()) + v.last().total_download as nat }
}

/// The status text of the first server, or the note that there is none.
pub open spec fn status_text(v: Seq<StateView>) -> Seq<char> {
    if v.len() == 0 {
        "No servers configured"@
    } else {
        match v[0].connection_status {
            ConnectionStatus::Connected => "Connected"@,
            ConnectionStatus::Disconnected => "Disconnected"@,
        }
    }
}

/// Totals over every server.
#[derive(Debug, Clone)]
pub struct ProxyStats {
    pub total_sessions: usize,
    pub total_peers: usize,
    pub total_upload: u64,
    pub total_download: u64,
    pub connection_status: String,
    pub local_peer_id: Option<PeerKey>,
}

/// One server's identity and counters.
#[derive(Debug, Clone)]
pub struct ServerStateInfo {
    pub server_id: String,
    pub protocol: String,
    pub port: u16,
    pub state: ServerState,
}

fn copy_state(s: &ServerState) -> (c: ServerState)
    ensures
        c@ == s@,
{
    ServerState {
        connection_status: s.connection_status,
        client_connections: s.client_connections,
        peer_connections: s.peer_connections,
        total_upload: s.total_upload,
        total_download: s.total_download,
        local_peer_id: match &s.local_peer_id {
            Some(k) => Some(k.duplicate()),
            None => None,
        },
    }
}

impl ServerContainer {
    /// The counters, in configuration order.
    pub closed spec fn states(&self) -> Seq<StateView> {
        states_view(self.states@)
    }

    /// The configured servers.
    pub closed spec fn servers(&self) -> Seq<Server> {
        self.servers@
    }

    pub open spec fn wf(&self) -> bool {
        self.states().len() == self.servers().len()
    }

    /// Every server starts disconnected with zero counters.
    pub fn new(sessions: Vec<Server>) -> (c: ServerContainer)
        ensures
            c.wf(),
            c.servers() == sessions@,
            forall|i: int| 0 <= i < c.states().len() ==> #[trigger] c.states()[i] == (StateView {
                connection_status: ConnectionStatus::Disconnected,
                client_connections: 0,
                peer_connections: 0,
                total_upload: 0,
                total_download: 0,
                local_peer_id: None,
            }),
    {
        let mut states: Vec<ServerState> = Vec::new();
        let mut i: usize = 0;
        while i < sessions.len()
            invariant
                i <= sessions.len(),
                states@.len() == i,
                forall|j: int| 0 <= j < i ==> #[trigger] states@[j]@ == (StateView {
                    connection_status: ConnectionStatus::Disconnected,
                    client_connections: 0,
                    peer_connections: 0,
                    total_upload: 0,
                    total_download: 0,
                    local_peer_id: None,
                }),
            decreases sessions.len() - i,
        {
            states.push(ServerState::default());
            i = i + 1;
        }
        ServerContainer { servers: sessions, states }
    }

    /// Whether `e` can be applied without a counter overflowing.
    pub open spec fn accepts(&self, e: Events) -> bool {
        forall|i: int| 0 <= i < self.states().len() ==> fits(#[trigger] self.states()[i], i == 0, e)
    }

    /// Update the counters for `event`: the local peer id and connection
    /// status apply to every server; sessions and bandwidth count against
    /// the first server.
    pub fn handle_event(&mut self, event: &Events)
        requires
            old(self).wf(),
            old(self).accepts(*event),
        ensures
            final(self).wf(),
            final(self).servers() == old(self).servers(),
            final(self).states().len() == old(self).states().len(),
            forall|i: int| 0 <= i < old(self).states().len() ==> #[trigger] final(self).states()[i] == apply_event(
                old(self).states()[i],
                i == 0,
                *event,
            ),
    {
        let ghost before = states_view(self.states@);
        let n = self.states.len();
        let mut i: usize = 0;
        while i < n
            invariant
                n == self.states@.len(),
                i <= n,
                before.len() == n,
                self.servers@ == old(self).servers@,
                forall|j: int| 0 <= j < n ==> fits(#[trigger] before[j], j == 0, *event),
                forall|j: int| 0 <= j < n ==> #[trigger] states_view(self.states@)[j] == (if j < i {
                    apply_event(before[j], j == 0, *event)
                } else {
                    before[j]
                }),
            decreases n - i,
        {
            let ghost pre = states_view(self.states@);
            assert(states_view(self.states@)[i as int] == before[i as int]);
            let mut s = copy_state(&self.states[i]);
            assert(s@ == before[i as int]);
            let first = i == 0;
            match event {
                Events::LocalPeerId(p) => {
                    s.local_peer_id = Some(p.duplicate());
                },
                Events::Connection(ConnectionEvents::Connecting) => {
                    s.connection_status = ConnectionStatus::Disconnected;
                },
                Events::Connection(ConnectionEvents::Connected(_)) => {
                    s.connection_status = ConnectionStatus::Connected;
                    s.peer_connections = s.peer_connections + 1;
                },
                Events::Connection(ConnectionEvents::Disconnected(_)) => {
                    s.connection_status = ConnectionStatus::Disconnected;
                    s.peer_connections = 0;
                },
                Events::Session(SessionEvents::New(..)) => {
                    if first {
                        s.client_connections = s.client_connections + 1;
                    }
                },
                Events::Session(SessionEvents::End(_)) => {
                    if first && s.client_connections > 0 {
                        s.client_connections = s.client_connections - 1;
                    }
                },
                Events::Bandwidth(BandwidthEvents::Upload(_, b)) => {
                    if first {
                        s.total_upload = s.total_upload + *b;
                    }
                },
                Events::Bandwidth(BandwidthEvents::Download(_, b)) => {
                    if first {
                        s.total_download = s.total_download + *b;
                    }
                },
                _ => {},
            }
            assert(s@ == apply_event(before[i as int], i == 0, *event));
            self.states.set(i, s);
            assert(states_view(self.states@) =~= pre.update(i as int, s@));
            i = i + 1;
        }
        assert(states_view(self.states@) =~= states_view(self.states@));
    }

    /// The connection status of the first server, or the note that none is
    /// configured.
    pub fn get_connection_status(&self) -> (s: String)
        ensures
            s@ == status_text(self.states()),
    {
        if self.states.len() == 0 {
            "No servers configured".to_owned()
        } else {
            match self.states[0].connection_status {
                ConnectionStatus::Connected => "Connected".to_owned(),
                ConnectionStatus::Disconnected => "Disconnected".to_owned(),
            }
        }
    }

    /// Totals over every server, with the first server's status and local
    /// peer id.
    pub fn get_stats(&self) -> (st: ProxyStats)
        requires
            sum_clients(self.states()) <= usize::MAX,
            sum_peers(self.states()) <= usize::MAX,
            sum_upload(self.states()) <= u64::MAX,
            sum_download(self.states()) <= u64::MAX,
        ensures
            st.total_sessions == sum_clients(self.states()),
            st.total_peers == sum_peers(self.states()),
            st.total_upload == sum_upload(self.states()),
            st.total_download == sum_download(self.states()),
            st.connection_status@ == status_text(self.states()),
            st.local_peer_id is Some <==> (self.states().len() > 0 && self.states()[0].local_peer_id is Some),
            st.local_peer_id is Some ==> st.local_peer_id->0@ == self.states()[0].local_peer_id->0,
    {
        let ghost all = states_view(self.states@);
        let mut sessions: usize = 0;
        let mut peers: usize = 0;
        let mut up: u64 = 0;
        let mut down: u64 = 0;
        let mut i: usize = 0;
        while i < self.states.len()
            invariant
                i <= self.states.len(),
                all == states_view(self.states@),
                sum_clients(all) <= usize::MAX,
                sum_peers(all) <= usize::MAX,
                sum_upload(all) <= u64::MAX,
                sum_download(all) <= u64::MAX,
                sessions == sum_clients(all.subrange(0, i as int)),
                peers == sum_peers(all.subrange(0, i as int)),
                up == sum_upload(all.subrange(0, i as int)),
                down == sum_download(all.subrange(0, i as int)),
            decreases self.states.len() - i,
        {
            let ghost pre = all.subrange(0, i + 1);
            assert(pre.drop_last() =~= all.subrange(0, i as int));
            proof { lemma_sums_grow(all, i + 1); }
            sessions = sessions + self.states[i].client_connections;
            peers = peers + self.states[i].peer_connections;
            up = up + self.states[i].total_upload;
            down = down + self.states[i].total_download;
            i = i + 1;
        }
        assert(all.subrange(0, all.len() as int) =~= all);
        let local = if self.states.len() > 0 {
            match &self.states[0].local_peer_id {
                Some(k) => Some(k.duplicate()),
                None => None,
            }
        } else {
            None
        };
        ProxyStats {
            total_sessions: sessions,
            total_peers: peers,
            total_upload: up,
            total_download: down,
            connection_status: self.get_connection_status(),
            local_peer_id: local,
        }
    }

    /// Each server's identity (`socks5:<port>`, its protocol's name, its
    /// port) and counters, in configuration order.
    pub fn get_server_states(&self) -> (v: Vec<ServerStateInfo>)
        requires
            self.wf(),
        ensures
            v@.len() == self.servers().len(),
            forall|i: int| 0 <= i < v@.len() ==> {
                &&& (#[trigger] v@[i]).server_id@ == "socks5:"@ + decimal(self.servers()[i].port as nat)
                &&& v@[i].protocol@ == "Socks5"@
                &&& v@[i].port == self.servers()[i].port
                &&& v@[i].state@ == self.states()[i]
            },
    {
        let mut v: Vec<ServerStateInfo> = Vec::new();
        let mut i: usize = 0;
        while i < self.servers.len()
            invariant
                i <= self.servers.len(),
                self.wf(),
                v@.len() == i,
                forall|j: int| 0 <= j < i ==> {
                    &&& (#[trigger] v@[j]).server_id@ == "socks5:"@ + decimal(self.servers()[j].port as nat)
                    &&& v@[j].protocol@ == "Socks5"@
                    &&& v@[j].port == self.servers()[j].port
                    &&& v@[j].state@ == self.states()[j]
                },
            decreases self.servers.len() - i,
        {
            let port = self.servers[i].port;
            let d = decimal_string(port as u128);
            let name = match self.servers[i].protocol {
                ProxyProtocols::Socks5 => "socks5:",
            };
            let info = ServerStateInfo {
                server_id: concat(name, d.as_str()),
                protocol: "Socks5".to_owned(),
                port,
                state: copy_state(&self.states[i]),
            };
            v.push(info);
            i = i + 1;
        }
        v
    }
}

proof fn lemma_sums_grow(all: Seq<StateView>, k: int)
    requires
        0 <= k <= all.len(),
    ensures
        sum_clients(all.subrange(0, k)) <= sum_clients(all),
        sum_peers(all.subrange(0, k)) <= sum_peers(all),
        sum_upload(all.subrange(0, k)) <= sum_upload(all),
        sum_download(all.subrange(0, k)) <= sum_download(all),
    decreases all.len() - k,
{
    if k < all.len() {
        assert(all.drop_last().subrange(0, k) =~= all.subrange(0, k));
        lemma_sums_grow(all.drop_last(), k);
    } else {
        assert(all.subrange(0, k) =~= all);
    }
}

} // verus!
