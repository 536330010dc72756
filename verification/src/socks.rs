//! The bookkeeping of one proxied SOCKS5 session: what the peer's
//! data-phase messages mean for the session, the byte counts, and the
//! BLAKE3 digests of each direction's traffic that the bandwidth report
//! carries; and the rule that keeps a listener's accept loop alive.
use vstd::prelude::*;

use crate::errors::StreamError;
use crate::events::{BandwidthEvents, Events, SessionEvents};
use crate::route::PeerKey;
use crate::text::concat;

verus! {

#[verifier::external_type_specification]
#[verifier::external_body]
pub struct ExBlake3Hasher(blake3::Hasher);

/// The bytes a BLAKE3 hasher has absorbed, in order.
pub uninterp spec fn absorbed(h: blake3::Hasher) -> Seq<u8>;

/// The BLAKE3 digest of `data`.
pub uninterp spec fn blake3_of(data: Seq<u8>) -> Seq<u8>;

/// Trusted: `blake3::Hasher::new`. A fresh hasher has absorbed nothing.
#[verifier::external_body]
fn hasher_new() -> (h: blake3::Hasher)
    ensures
        absorbed(h) == Seq::<u8>::empty(),
{
    blake3::Hasher::new()
}

/// Trusted: `blake3::Hasher::update`. The hasher absorbs `data` after
/// what it held.
#[verifier::external_body]
fn hasher_update(h: &mut blake3::Hasher, data: &[u8])
    ensures
        absorbed(*final(h)) == absorbed(*old(h)) + data@,
{
    h.update(data);
}

/// Trusted: `blake3::Hasher::finalize`, read as its 32 bytes. The
/// digest of everything absorbed, as the crate documents that the
/// incremental hasher and the one-shot hash agree.
#[verifier::external_body]
fn hasher_digest(h: &blake3::Hasher) -> (d: Vec<u8>)
    ensures
        d@ == blake3_of(absorbed(*h)),
        d@.len() == 32,
{
    h.finalize().as_bytes().to_vec()
}

/// A lower-case hexadecimal digit.
pub open spec fn hex_digit(n: nat) -> char {
    if n < 10 {
        ((48 + n) as u32) as char
    } else {
        ((87 + n) as u32) as char
    }
}

/// `bytes` in lower-case hexadecimal, two digits per byte, high nibble
/// first.
pub open spec fn hex_text(bytes: Seq<u8>) -> Seq<char>
    decreases bytes.len(),
{
    if bytes.len() == 0 {
        Seq::empty()
    } else {
        hex_text(bytes.drop_last()) + seq![
            hex_digit((bytes.last() / 16) as nat),
            hex_digit((bytes.last() % 16) as nat),
        ]
    }
}

/// Trusted: `hex::encode`. Each byte becomes two lower-case hexadecimal
/// digits, high nibble first (the crate's `HEX_CHARS_LOWER` table).
#[verifier::external_body]
fn hex_encode(bytes: &[u8]) -> (s: String)
    ensures
        s@ == hex_text(bytes@),
{
    hex::encode(bytes)
}

/// A data-phase message from the peer.
#[derive(Debug, Clone)]
pub enum DataPhase {
    /// Bytes for the session with this id.
    Transfer { id: String, bytes: Vec<u8> },
    Error(String),
    /// The peer closed the session with this id.
    Close(String),
}

/// What a peer message asks of the session.
#[derive(Debug, Clone)]
pub enum PeerAction {
    /// Write the transfer's bytes to the client.
    Deliver,
    /// Not for this session.
    Ignore,
    /// End the session with this error.
    Fail(String),
    /// Acknowledge the close and end the session.
    Close,
}

/// The session's totals for its bandwidth report.
#[derive(Debug, Clone)]
pub struct SessionSummary {
    pub incoming_hash: String,
    pub outgoing_hash: String,
    pub incoming_bytes: usize,
    pub outgoing_bytes: usize,
}

/// One SOCKS5 session's counts and digests.
pub struct SessionLedger {
    session_id: String,
    incoming_bytes: usize,
    outgoing_bytes: usize,
    incoming: blake3::Hasher,
    outgoing: blake3::Hasher,
}

impl SessionLedger {
    pub closed spec fn session_id(&self) -> Seq<char> {
        self.session_id@
    }

    /// Bytes delivered to the client.
    pub closed spec fn incoming_bytes(&self) -> nat {
        self.incoming_bytes as nat
    }

    /// Bytes sent to the peer.
    pub closed spec fn outgoing_bytes(&self) -> nat {
        self.outgoing_bytes as nat
    }

    /// Everything hashed from the peer.
    pub closed spec fn incoming_data(&self) -> Seq<u8> {
        absorbed(self.incoming)
    }

    /// Everything hashed from the client.
    pub closed spec fn outgoing_data(&self) -> Seq<u8> {
        absorbed(self.outgoing)
    }

    /// A session with nothing transferred.
    pub fn new(session_id: String) -> (l: SessionLedger)
        ensures
            l.session_id() == session_id@,
            l.incoming_bytes() == 0,
            l.outgoing_bytes() == 0,
            l.incoming_data() == Seq::<u8>::empty(),
            l.outgoing_data() == Seq::<u8>::empty(),
    {
        SessionLedger {
            session_id,
            incoming_bytes: 0,
            outgoing_bytes: 0,
            incoming: hasher_new(),
            outgoing: hasher_new(),
        }
    }

    /// A chunk read from the client, hashed before it is sent on.
    pub fn client_chunk(&mut self, data: &[u8])
        ensures
            final(self).outgoing_data() == old(self).outgoing_data() + data@,
            final(self).incoming_data() == old(self).incoming_data(),
            final(self).incoming_bytes() == old(self).incoming_bytes(),
            final(self).outgoing_bytes() == old(self).outgoing_bytes(),
            final(self).session_id() == old(self).session_id(),
    {
        hasher_update(&mut self.outgoing, data);
    }

    /// The last client chunk, `n` bytes, reached the peer.
    pub fn client_chunk_sent(&mut self, n: usize)
        requires
            old(self).outgoing_bytes() + n <= usize::MAX,
        ensures
            final(self).outgoing_bytes() == old(self).outgoing_bytes() + n,
            final(self).incoming_bytes() == old(self).incoming_bytes(),
            final(self).outgoing_data() == old(self).outgoing_data(),
            final(self).incoming_data() == old(self).incoming_data(),
            final(self).session_id() == old(self).session_id(),
    {
        self.outgoing_bytes = self.outgoing_bytes + n;
    }

    /// What a peer message asks: this session's transfer is hashed and
    /// delivered, another session's is ignored; an error ends the session;
    /// this session's close is acknowledged, another's ignored.
    pub fn peer_message(&mut self, msg: &DataPhase) -> (a: PeerAction)
        ensures
            final(self).incoming_bytes() == old(self).incoming_bytes(),
            final(self).outgoing_bytes() == old(self).outgoing_bytes(),
            final(self).outgoing_data() == old(self).outgoing_data(),
            final(self).session_id() == old(self).session_id(),
            match msg {
                DataPhase::Transfer { id, bytes } => if id@ == old(self).session_id() {
                    a is Deliver && final(self).incoming_data() == old(self).incoming_data() + bytes@
                } else {
                    a is Ignore && final(self).incoming_data() == old(self).incoming_data()
                },
                DataPhase::Error(e) => (a matches PeerAction::Fail(m) && m@ == "Received error message: "@ + e@)
                    && final(self).incoming_data() == old(self).incoming_data(),
                DataPhase::Close(id) => (if id@ == old(self).session_id() { a is Close } else { a is Ignore })
                    && final(self).incoming_data() == old(self).incoming_data(),
            },
    {
        match msg {
            DataPhase::Transfer { id, bytes } => {
                if *id == self.session_id {
                    hasher_update(&mut self.incoming, bytes.as_slice());
                    PeerAction::Deliver
                } else {
                    PeerAction::Ignore
                }
            },
            DataPhase::Error(e) => PeerAction::Fail(concat("Received error message: ", e.as_str())),
            DataPhase::Close(id) => {
                if *id == self.session_id {
                    PeerAction::Close
                } else {
                    PeerAction::Ignore
                }
            },
        }
    }

    /// A delivered transfer of `n` bytes was written and flushed to the
    /// client.
    pub fn peer_chunk_delivered(&mut self, n: usize)
        requires
            old(self).incoming_bytes() + n <= usize::MAX,
        ensures
            final(self).incoming_bytes() == old(self).incoming_bytes() + n,
            final(self).outgoing_bytes() == old(self).outgoing_bytes(),
            final(self).outgoing_data() == old(self).outgoing_data(),
            final(self).incoming_data() == old(self).incoming_data(),
            final(self).session_id() == old(self).session_id(),
    {
        self.incoming_bytes = self.incoming_bytes + n;
    }

    /// The session's report: each direction's BLAKE3 digest in hexadecimal
    /// and its byte count.
    pub fn finish(&self) -> (s: SessionSummary)
        ensures
            s.incoming_hash@ == hex_text(blake3_of(self.incoming_data())),
            s.outgoing_hash@ == hex_text(blake3_of(self.outgoing_data())),
            s.incoming_bytes == self.incoming_bytes(),
            s.outgoing_bytes == self.outgoing_bytes(),
            s.incoming_hash@.len() == 64,
            s.outgoing_hash@.len() == 64,
    {
        let i = hasher_digest(&self.incoming);
        let o = hasher_digest(&self.outgoing);
        proof {
            lemma_hex_len(i@);
            lemma_hex_len(o@);
        }
        SessionSummary {
            incoming_hash: hex_encode(i.as_slice()),
            outgoing_hash: hex_encode(o.as_slice()),
            incoming_bytes: self.incoming_bytes,
            outgoing_bytes: self.outgoing_bytes,
        }
    }
}

proof fn lemma_hex_len(b: Seq<u8>)
    ensures
        hex_text(b).len() == 2 * b.len(),
    decreases b.len(),
{
    if b.len() > 0 {
        lemma_hex_len(b.drop_last());
    }
}

/// How a listener's accept loop ended.
#[derive(Debug, Clone, Copy, PartialEq, Eq, Structural)]
pub enum AcceptLoopEnd {
    /// It returned cleanly.
    Clean,
    /// It returned an error (the listener is unusable).
    Failed,
    /// It panicked.
    Panicked,
}

/// What the listener's supervisor does next.
#[derive(Debug, Clone, Copy, PartialEq, Eq, Structural)]
pub enum SupervisorStep {
    /// Stop supervising.
    Exit,
    /// Wait this many milliseconds, then bind again and restart the loop.
    Rebind { after_ms: u64 },
}

/// A clean return ends supervision; an error or a panic restarts the
/// accept loop on a fresh listener a second later, so the port never goes
/// dark silently.
pub fn supervise(end: AcceptLoopEnd) -> (s: SupervisorStep)
    ensures
        s == (if end == AcceptLoopEnd::Clean { SupervisorStep::Exit } else { SupervisorStep::Rebind { after_ms: 1000 } }),
{
    match end {
        AcceptLoopEnd::Clean => SupervisorStep::Exit,
        _ => SupervisorStep::Rebind { after_ms: 1000 },
    }
}

/// After a failed rebind the supervisor retries in five seconds.
pub fn rebind_retry_ms() -> (ms: u64)
    ensures
        ms == 5000,
{
    5000
}

/// Which way data moved: towards the client, or towards the peer.
#[derive(Debug, Clone, Copy, PartialEq, Eq, Structural)]
pub enum DataDirection {
    Incoming,
    Outgoing,
}

/// Where in its life a session failed.
#[derive(Debug, Clone, Copy, PartialEq, Eq, Structural)]
pub enum SessionStage {
    Handshake,
    ConnectionRequest,
    PeerConnection,
    DataTransfer,
    Shutdown,
}

/// What a session reports about itself.
#[derive(Debug, Clone)]
pub enum SessionMessage {
    /// The session opened to `target` through `peer`.
    Initialized { session_id: u128, target: String, peer: PeerKey },
    DataTransferred { session_id: u128, direction: DataDirection, bytes: usize },
    Error { session_id: Option<u128>, error: String, stage: SessionStage },
    Finished { session_id: u128 },
}

/// The user-interface event a session message becomes: an opened session,
/// a bandwidth sample (incoming data is a download, outgoing an upload), a
/// finished session; errors are only logged.
pub fn ui_event(msg: &SessionMessage) -> (e: Option<Events>)
    ensures
        match msg {
            SessionMessage::Initialized { session_id, target, peer } => e matches Some(
                Events::Session(SessionEvents::New(id, t, p)),
            ) && id == *session_id && t@ == target@ && p@ == peer@,
            SessionMessage::DataTransferred { session_id, direction, bytes } => match direction {
                DataDirection::Incoming => e matches Some(Events::Bandwidth(BandwidthEvents::Download(id, n)))
                    && id == *session_id && n == *bytes,
                DataDirection::Outgoing => e matches Some(Events::Bandwidth(BandwidthEvents::Upload(id, n)))
                    && id == *session_id && n == *bytes,
            },
            SessionMessage::Error { .. } => e is None,
            SessionMessage::Finished { session_id } => e matches Some(Events::Session(SessionEvents::End(id)))
                && id == *session_id,
        },
{
    match msg {
        SessionMessage::Initialized { session_id, target, peer } => Some(
            Events::Session(SessionEvents::New(*session_id, target.clone(), peer.duplicate())),
        ),
        SessionMessage::DataTransferred { session_id, direction, bytes } => match direction {
            DataDirection::Incoming => Some(Events::Bandwidth(BandwidthEvents::Download(*session_id, *bytes as u64))),
            DataDirection::Outgoing => Some(Events::Bandwidth(BandwidthEvents::Upload(*session_id, *bytes as u64))),
        },
        SessionMessage::Error { .. } => None,
        SessionMessage::Finished { session_id } => Some(Events::Session(SessionEvents::End(*session_id))),
    }
}

/// The SOCKS protocol version.
pub const SOCKS5_VERSION: u8 = 5;

/// The "no authentication" method.
pub const SOCKS5_NO_AUTH: u8 = 0x00;

/// The "no acceptable methods" answer.
pub const SOCKS5_NO_ACCEPTABLE_METHODS: u8 = 0xff;

/// The "general failure" reply code.
pub const SOCKS5_GENERAL_FAILURE: u8 = 0x01;

/// How a session goes on after the client's greeting.
#[derive(Debug, Clone, Copy, PartialEq, Eq, Structural)]
pub enum GreetingOutcome {
    /// No authentication was offered: the session continues with it.
    Proceed,
    /// The client offered no method the proxy accepts: the session ends.
    Reject,
}

/// The session's answer to a greeting offering `methods`: it proceeds
/// when "no authentication" is among them, and is rejected otherwise.
pub fn greeting_outcome(methods: &[u8]) -> (o: GreetingOutcome)
    ensures
        (o == GreetingOutcome::Proceed) == methods@.contains(SOCKS5_NO_AUTH),
{
    let mut i: usize = 0;
    while i < methods.len()
        invariant
            i <= methods.len(),
            forall|j: int| 0 <= j < i ==> methods@[j] != SOCKS5_NO_AUTH,
        decreases methods.len() - i,
    {
        if methods[i] == SOCKS5_NO_AUTH {
            assert(methods@[i as int] == SOCKS5_NO_AUTH);
            return GreetingOutcome::Proceed;
        }
        i = i + 1;
    }
    GreetingOutcome::Reject
}

/// The bytes answering the greeting: the version, then the chosen method
/// (no authentication) or "no acceptable methods".
pub fn greeting_reply(o: GreetingOutcome) -> (reply: Vec<u8>)
    ensures
        reply@ == seq![SOCKS5_VERSION, if o == GreetingOutcome::Proceed { SOCKS5_NO_AUTH } else { SOCKS5_NO_ACCEPTABLE_METHODS }],
{
    let m = match o {
        GreetingOutcome::Proceed => SOCKS5_NO_AUTH,
        GreetingOutcome::Reject => SOCKS5_NO_ACCEPTABLE_METHODS,
    };
    let reply = vec![SOCKS5_VERSION, m];
    assert(reply@ =~= seq![SOCKS5_VERSION, m]);
    reply
}

/// What a session does when its stream to the exit fails to open.
#[derive(Debug, Clone, Copy, PartialEq, Eq, Structural)]
pub struct OpenFailurePlan {
    /// Drop the peer from every pool and rediscover: it cannot proxy.
    pub evict_peer: bool,
    /// The SOCKS reply code sent to the client before the session ends.
    pub reply: u8,
}

/// The plan for a failed open: a peer that does not speak the proxy
/// protocol is evicted; the client always gets "general failure".
pub fn open_failure_plan(e: &StreamError) -> (p: OpenFailurePlan)
    ensures
        p.evict_peer == (e is UnsupportedProtocol),
        p.reply == SOCKS5_GENERAL_FAILURE,
{
    OpenFailurePlan { evict_peer: e.is_terminal_for_peer(), reply: SOCKS5_GENERAL_FAILURE }
}

} // verus!
