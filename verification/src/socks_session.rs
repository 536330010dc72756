//! The decisions of one SOCKS5 client session up to its data phase: read
//! the greeting, answer it, read the connection request, answer it, open a
//! stream to the exit peer, initialise the proxied session. Each step
//! takes the outcome of the last action and names the next actions; every
//! failure is reported once, with the stage it happened in, and ends the
//! session.
use vstd::prelude::*;

use crate::errors::StreamError;
use crate::route::PeerKey;
use crate::socks::{
    greeting_outcome, greeting_reply, GreetingOutcome, SessionMessage, SessionStage, SOCKS5_NO_ACCEPTABLE_METHODS,
    SOCKS5_NO_AUTH, SOCKS5_VERSION,
};
use crate::text::concat;

verus! {

/// Where a session is.
#[derive(Debug, Clone, Copy, PartialEq, Eq, Structural)]
pub enum SocksPhase {
    /// Waiting for the client's greeting.
    Greeting,
    /// The greeting's answer is being written.
    GreetingReply,
    /// Waiting for the connection request.
    Request,
    /// The request's answer is being written.
    RequestReply,
    /// A stream to the exit peer is being opened.
    Open,
    /// The proxied session is being initialised over the stream.
    Init,
    /// Data flows (see `SessionLedger`).
    Transfer,
    /// The session has ended.
    Done,
}

/// The outcome of the last action, as the driver saw it.
#[derive(Debug)]
pub enum SocksEvent {
    /// The greeting was read: the methods it offers, or why it could not be.
    Greeting(Result<Vec<u8>, String>),
    /// The last reply was written, or why it could not be.
    Written(Result<(), String>),
    /// The connection request was read: its target as text, or why not.
    Request(Result<String, String>),
    /// The stream to the exit peer opened, or why not.
    Opened(Result<(), StreamError>),
    /// The proxied session was initialised, or why not.
    SessionInit(Result<(), String>),
}

/// What the driver does next.
#[derive(Debug, Clone)]
pub enum SocksAction {
    ReadGreeting,
    /// Write these bytes as the greeting's answer.
    ReplyGreeting(Vec<u8>),
    ReadRequest,
    /// Answer the request: succeeded, echoing its address.
    ReplySucceeded,
    /// Answer the request: general failure, unspecified address.
    ReplyFailure,
    /// Tell the exit's owner that the peer cannot proxy (evict it).
    EvictPeer,
    /// Take a stream slot and open a stream to the exit peer.
    OpenStream,
    InitSession,
    /// Send this report about the session.
    Report(SessionMessage),
    /// Start the data phase.
    StartTransfer,
    /// End the session.
    Stop,
}

pub enum ActionView {
    ReadGreeting,
    ReplyGreeting(Seq<u8>),
    ReadRequest,
    ReplySucceeded,
    ReplyFailure,
    EvictPeer,
    OpenStream,
    InitSession,
    ReportError(Option<u128>, Seq<char>, SessionStage),
    ReportInitialized(u128, Seq<char>, Seq<char>),
    ReportOther,
    StartTransfer,
    Stop,
}

pub open spec fn action_view(a: SocksAction) -> ActionView {
    match a {
        SocksAction::ReadGreeting => ActionView::ReadGreeting,
        SocksAction::ReplyGreeting(b) => ActionView::ReplyGreeting(b@),
        SocksAction::ReadRequest => ActionView::ReadRequest,
        SocksAction::ReplySucceeded => ActionView::ReplySucceeded,
        SocksAction::ReplyFailure => ActionView::ReplyFailure,
        SocksAction::EvictPeer => ActionView::EvictPeer,
        SocksAction::OpenStream => ActionView::OpenStream,
        SocksAction::InitSession => ActionView::InitSession,
        SocksAction::Report(SessionMessage::Error { session_id, error, stage }) => ActionView::ReportError(
            session_id,
            error@,
            stage,
        ),
        SocksAction::Report(SessionMessage::Initialized { session_id, target, peer }) => ActionView::ReportInitialized(
            session_id,
            target@,
            peer@,
        ),
        SocksAction::Report(_) => ActionView::ReportOther,
        SocksAction::StartTransfer => ActionView::StartTransfer,
        SocksAction::Stop => ActionView::Stop,
    }
}

pub open spec fn actions_view(v: Seq<SocksAction>) -> Seq<ActionView> {
    v.map_values(|a: SocksAction| action_view(a))
}

pub enum EventView {
    Greeting(Result<Seq<u8>, Seq<char>>),
    Written(Result<(), Seq<char>>),
    Request(Result<Seq<char>, Seq<char>>),
    Opened(Result<(), StreamError>),
    SessionInit(Result<(), Seq<char>>),
}

pub open spec fn event_view(e: SocksEvent) -> EventView {
    match e {
        SocksEvent::Greeting(Ok(m)) => EventView::Greeting(Ok(m@)),
        SocksEvent::Greeting(Err(s)) => EventView::Greeting(Err(s@)),
        SocksEvent::Written(Ok(())) => EventView::Written(Ok(())),
        SocksEvent::Written(Err(s)) => EventView::Written(Err(s@)),
        SocksEvent::Request(Ok(t)) => EventView::Request(Ok(t@)),
        SocksEvent::Request(Err(s)) => EventView::Request(Err(s@)),
        SocksEvent::Opened(r) => EventView::Opened(r),
        SocksEvent::SessionInit(Ok(())) => EventView::SessionInit(Ok(())),
        SocksEvent::SessionInit(Err(s)) => EventView::SessionInit(Err(s@)),
    }
}

/// The text of a stream error, as `StreamError::message` gives it.
pub open spec fn stream_error_text(e: StreamError) -> Seq<char> {
    match e {
        StreamError::UnsupportedProtocol { peer, protocol } => "remote peer "@ + peer@ + " does not support "@ + protocol@,
        StreamError::Io { peer, message } => "io error opening stream to "@ + peer@ + ": "@ + message@,
        StreamError::OpenTimeout { peer } => "timeout opening stream to "@ + peer@,
    }
}

pub struct SocksView {
    pub id: u128,
    pub peer: Seq<char>,
    pub target: Seq<char>,
    pub phase: SocksPhase,
}

/// Report a failure (`id` when the session has one) and stop.
pub open spec fn fail(s: SocksView, id: Option<u128>, text: Seq<char>, stage: SessionStage) -> (SocksView, Seq<ActionView>) {
    (SocksView { phase: SocksPhase::Done, ..s }, seq![ActionView::ReportError(id, text, stage), ActionView::Stop])
}

pub open spec fn go(s: SocksView, p: SocksPhase, a: Seq<ActionView>) -> (SocksView, Seq<ActionView>) {
    (SocksView { phase: p, ..s }, a)
}

/// One step of a session on the outcome of its last action. An outcome
/// that does not answer the last action ends the session.
pub open spec fn spec_socks_step(s: SocksView, e: EventView) -> (SocksView, Seq<ActionView>) {
    match (s.phase, e) {
        (SocksPhase::Greeting, EventView::Greeting(Err(m))) => fail(
            s,
            None,
            "Failed to read initial handshake: "@ + m,
            SessionStage::Handshake,
        ),
        (SocksPhase::Greeting, EventView::Greeting(Ok(methods))) => if methods.contains(SOCKS5_NO_AUTH) {
            go(s, SocksPhase::GreetingReply, seq![ActionView::ReplyGreeting(seq![SOCKS5_VERSION, SOCKS5_NO_AUTH])])
        } else {
            (
                SocksView { phase: SocksPhase::Done, ..s },
                seq![
                    ActionView::ReplyGreeting(seq![SOCKS5_VERSION, SOCKS5_NO_ACCEPTABLE_METHODS]),
                    ActionView::ReportError(None, "No acceptable authentication methods"@, SessionStage::Handshake),
                    ActionView::Stop,
                ],
            )
        },
        (SocksPhase::GreetingReply, EventView::Written(Err(m))) => fail(
            s,
            None,
            "Failed to write auth response: "@ + m,
            SessionStage::Handshake,
        ),
        (SocksPhase::GreetingReply, EventView::Written(Ok(()))) => go(s, SocksPhase::Request, seq![ActionView::ReadRequest]),
        (SocksPhase::Request, EventView::Request(Err(m))) => fail(
            s,
            None,
            "Failed to read connection request: "@ + m,
            SessionStage::ConnectionRequest,
        ),
        (SocksPhase::Request, EventView::Request(Ok(t))) => (
            SocksView { phase: SocksPhase::RequestReply, target: t, ..s },
            seq![ActionView::ReplySucceeded],
        ),
        (SocksPhase::RequestReply, EventView::Written(Err(m))) => fail(
            s,
            None,
            "Failed to write connection response: "@ + m,
            SessionStage::ConnectionRequest,
        ),
        (SocksPhase::RequestReply, EventView::Written(Ok(()))) => go(s, SocksPhase::Open, seq![ActionView::OpenStream]),
        (SocksPhase::Open, EventView::Opened(Err(err))) => {
            let tail = seq![
                ActionView::ReplyFailure,
                ActionView::ReportError(
                    Some(s.id),
                    "Failed to acquire stream: "@ + stream_error_text(err),
                    SessionStage::PeerConnection,
                ),
                ActionView::Stop,
            ];
            (
                SocksView { phase: SocksPhase::Done, ..s },
                if err is UnsupportedProtocol { seq![ActionView::EvictPeer] + tail } else { tail },
            )
        },
        (SocksPhase::Open, EventView::Opened(Ok(()))) => go(s, SocksPhase::Init, seq![ActionView::InitSession]),
        (SocksPhase::Init, EventView::SessionInit(Err(m))) => fail(
            s,
            Some(s.id),
            "Failed to initialize session: "@ + m,
            SessionStage::PeerConnection,
        ),
        (SocksPhase::Init, EventView::SessionInit(Ok(()))) => go(
            s,
            SocksPhase::Transfer,
            seq![ActionView::ReportInitialized(s.id, s.target, s.peer), ActionView::StartTransfer],
        ),
        _ => go(s, SocksPhase::Done, seq![ActionView::Stop]),
    }
}

/// One client session.
pub struct SocksSession {
    pub id: u128,
    pub peer: PeerKey,
    pub target: String,
    pub phase: SocksPhase,
}

impl View for SocksSession {
    type V = SocksView;

    open spec fn view(&self) -> SocksView {
        SocksView { id: self.id, peer: self.peer@, target: self.target@, phase: self.phase }
    }
}

impl SocksSession {
    /// A session `id` through exit `peer`: it starts by reading the
    /// greeting.
    pub fn new(id: u128, peer: PeerKey) -> (r: (SocksSession, Vec<SocksAction>))
        ensures
            r.0@ == (SocksView { id, peer: peer@, target: Seq::empty(), phase: SocksPhase::Greeting }),
            actions_view(r.1@) == seq![ActionView::ReadGreeting],
    {
        let s = SocksSession { id, peer, target: String::new(), phase: SocksPhase::Greeting };
        let v = vec![SocksAction::ReadGreeting];
        assert(actions_view(v@) =~= seq![ActionView::ReadGreeting]);
        (s, v)
    }

    fn fail(&mut self, id: Option<u128>, text: String, stage: SessionStage) -> (v: Vec<SocksAction>)
        ensures
            (final(self)@, actions_view(v@)) == fail(old(self)@, id, text@, stage),
    {
        self.phase = SocksPhase::Done;
        let v = vec![SocksAction::Report(SessionMessage::Error { session_id: id, error: text, stage }), SocksAction::Stop];
        assert(actions_view(v@) =~= seq![ActionView::ReportError(id, text@, stage), ActionView::Stop]);
        v
    }

    /// The next actions on the outcome of the last one (see
    /// `spec_socks_step`).
    pub fn step(&mut self, event: SocksEvent) -> (v: Vec<SocksAction>)
        ensures
            (final(self)@, actions_view(v@)) == spec_socks_step(old(self)@, event_view(event)),
    {
        proof {
            reveal_strlit("No acceptable authentication methods");
        }
        match (self.phase, event) {
            (SocksPhase::Greeting, SocksEvent::Greeting(Err(m))) => {
                let t = concat("Failed to read initial handshake: ", m.as_str());
                self.fail(None, t, SessionStage::Handshake)
            },
            (SocksPhase::Greeting, SocksEvent::Greeting(Ok(methods))) => {
                let o = greeting_outcome(methods.as_slice());
                let reply = greeting_reply(o);
                if o == GreetingOutcome::Proceed {
                    self.phase = SocksPhase::GreetingReply;
                    let v = vec![SocksAction::ReplyGreeting(reply)];
                    assert(actions_view(v@) =~= seq![ActionView::ReplyGreeting(seq![SOCKS5_VERSION, SOCKS5_NO_AUTH])]);
                    v
                } else {
                    self.phase = SocksPhase::Done;
                    let v = vec![
                        SocksAction::ReplyGreeting(reply),
                        SocksAction::Report(
                            SessionMessage::Error {
                                session_id: None,
                                error: "No acceptable authentication methods".to_owned(),
                                stage: SessionStage::Handshake,
                            },
                        ),
                        SocksAction::Stop,
                    ];
                    assert(actions_view(v@) =~= seq![
                        ActionView::ReplyGreeting(seq![SOCKS5_VERSION, SOCKS5_NO_ACCEPTABLE_METHODS]),
                        ActionView::ReportError(None, "No acceptable authentication methods"@, SessionStage::Handshake),
                        ActionView::Stop,
                    ]);
                    v
                }
            },
            (SocksPhase::GreetingReply, SocksEvent::Written(Err(m))) => {
                let t = concat("Failed to write auth response: ", m.as_str());
                self.fail(None, t, SessionStage::Handshake)
            },
            (SocksPhase::GreetingReply, SocksEvent::Written(Ok(()))) => {
                self.phase = SocksPhase::Request;
                let v = vec![SocksAction::ReadRequest];
                assert(actions_view(v@) =~= seq![ActionView::ReadRequest]);
                v
            },
            (SocksPhase::Request, SocksEvent::Request(Err(m))) => {
                let t = concat("Failed to read connection request: ", m.as_str());
                self.fail(None, t, SessionStage::ConnectionRequest)
            },
            (SocksPhase::Request, SocksEvent::Request(Ok(target))) => {
                self.phase = SocksPhase::RequestReply;
                self.target = target;
                let v = vec![SocksAction::ReplySucceeded];
                assert(actions_view(v@) =~= seq![ActionView::ReplySucceeded]);
                v
            },
            (SocksPhase::RequestReply, SocksEvent::Written(Err(m))) => {
                let t = concat("Failed to write connection response: ", m.as_str());
                self.fail(None, t, SessionStage::ConnectionRequest)
            },
            (SocksPhase::RequestReply, SocksEvent::Written(Ok(()))) => {
                self.phase = SocksPhase::Open;
                let v = vec![SocksAction::OpenStream];
                assert(actions_view(v@) =~= seq![ActionView::OpenStream]);
                v
            },
            (SocksPhase::Open, SocksEvent::Opened(Err(err))) => {
                self.phase = SocksPhase::Done;
                let terminal = err.is_terminal_for_peer();
                let m = err.message();
                let t = concat("Failed to acquire stream: ", m.as_str());
                let report = SocksAction::Report(
                    SessionMessage::Error { session_id: Some(self.id), error: t, stage: SessionStage::PeerConnection },
                );
                let ghost tail = seq![
                    ActionView::ReplyFailure,
                    action_view(report),
                    ActionView::Stop,
                ];
                if terminal {
                    let v = vec![SocksAction::EvictPeer, SocksAction::ReplyFailure, report, SocksAction::Stop];
                    assert(actions_view(v@) =~= seq![ActionView::EvictPeer] + tail);
                    v
                } else {
                    let v = vec![SocksAction::ReplyFailure, report, SocksAction::Stop];
                    assert(actions_view(v@) =~= tail);
                    v
                }
            },
            (SocksPhase::Open, SocksEvent::Opened(Ok(()))) => {
                self.phase = SocksPhase::Init;
                let v = vec![SocksAction::InitSession];
                assert(actions_view(v@) =~= seq![ActionView::InitSession]);
                v
            },
            (SocksPhase::Init, SocksEvent::SessionInit(Err(m))) => {
                let t = concat("Failed to initialize session: ", m.as_str());
                let id = self.id;
                self.fail(Some(id), t, SessionStage::PeerConnection)
            },
            (SocksPhase::Init, SocksEvent::SessionInit(Ok(()))) => {
                self.phase = SocksPhase::Transfer;
                let report = SocksAction::Report(
                    SessionMessage::Initialized {
                        session_id: self.id,
                        target: self.target.clone(),
                        peer: self.peer.duplicate(),
                    },
                );
                let v = vec![report, SocksAction::StartTransfer];
                assert(actions_view(v@) =~= seq![ActionView::ReportInitialized(self.id, self.target@, self.peer@), ActionView::StartTransfer]);
                v
            },
            _ => {
                self.phase = SocksPhase::Done;
                let v = vec![SocksAction::Stop];
                assert(actions_view(v@) =~= seq![ActionView::Stop]);
                v
            },
        }
    }
}

/// A session refused at the handshake is told so once, with no session id,
/// and ends before any stream slot is taken: a greeting without "no
/// authentication" is answered `[5, 0xFF]`, reported at the handshake
/// stage, and the session stops.
pub proof fn law_rejected_greeting_takes_no_stream(s: SocksView, methods: Seq<u8>)
    requires
        s.phase == SocksPhase::Greeting,
        !methods.contains(SOCKS5_NO_AUTH),
    ensures
        spec_socks_step(s, EventView::Greeting(Ok(methods))).1 == seq![
            ActionView::ReplyGreeting(seq![5u8, 0xFFu8]),
            ActionView::ReportError(None, "No acceptable authentication methods"@, SessionStage::Handshake),
            ActionView::Stop,
        ],
        spec_socks_step(s, EventView::Greeting(Ok(methods))).0.phase == SocksPhase::Done,
{
}

/// A stream slot is asked for only once the request has been answered:
/// no step from any other phase names `OpenStream`, and every failure
/// before it reports without a session id.
pub proof fn law_stream_only_after_request(s: SocksView, e: EventView)
    ensures
        spec_socks_step(s, e).1.contains(ActionView::OpenStream) ==> s.phase == SocksPhase::RequestReply,
        (s.phase == SocksPhase::Greeting || s.phase == SocksPhase::GreetingReply || s.phase == SocksPhase::Request
            || s.phase == SocksPhase::RequestReply) ==> forall|i: int|
            0 <= i < spec_socks_step(s, e).1.len() ==> !(#[trigger] spec_socks_step(s, e).1[i] matches ActionView::ReportError(
                Some(_),
                _,
                _,
            )),
{
    let r = spec_socks_step(s, e).1;
    if r.contains(ActionView::OpenStream) {
        let i = choose|i: int| 0 <= i < r.len() && r[i] == ActionView::OpenStream;
        assert(r[i] == ActionView::OpenStream);
    }
}

/// Only a peer that cannot serve the proxy protocol is evicted: a failed
/// stream open answers the client with a general failure, reports the
/// failure against the session, and stops; the exit peer is evicted first
/// exactly when the error is an unsupported protocol, never on an I/O
/// failure or a timeout. No other step ever evicts.
pub proof fn law_only_unsupported_protocol_evicts(s: SocksView, e: EventView)
    ensures
        spec_socks_step(s, e).1.contains(ActionView::EvictPeer) <==> (s.phase == SocksPhase::Open
            && (e matches EventView::Opened(Err(err)) && err is UnsupportedProtocol)),
        s.phase == SocksPhase::Open ==> (e matches EventView::Opened(Err(err)) ==> {
            let report = ActionView::ReportError(
                Some(s.id),
                "Failed to acquire stream: "@ + stream_error_text(err),
                SessionStage::PeerConnection,
            );
            let acts = spec_socks_step(s, e).1;
            &&& spec_socks_step(s, e).0.phase == SocksPhase::Done
            &&& (err is UnsupportedProtocol ==> acts == seq![ActionView::EvictPeer, ActionView::ReplyFailure, report, ActionView::Stop])
            &&& (!(err is UnsupportedProtocol) ==> acts == seq![ActionView::ReplyFailure, report, ActionView::Stop])
        }),
{
    let acts = spec_socks_step(s, e).1;
    if acts.contains(ActionView::EvictPeer) {
        let i = choose|i: int| 0 <= i < acts.len() && acts[i] == ActionView::EvictPeer;
        assert(acts[i] == ActionView::EvictPeer);
    }
    if s.phase == SocksPhase::Open {
        if let EventView::Opened(Err(err)) = e {
            let report = ActionView::ReportError(
                Some(s.id),
                "Failed to acquire stream: "@ + stream_error_text(err),
                SessionStage::PeerConnection,
            );
            let tail = seq![ActionView::ReplyFailure, report, ActionView::Stop];
            assert(seq![ActionView::EvictPeer] + tail =~= seq![ActionView::EvictPeer, ActionView::ReplyFailure, report, ActionView::Stop]);
            if err is UnsupportedProtocol {
                assert(acts[0] == ActionView::EvictPeer);
            }
        }
    }
}

} // verus!
