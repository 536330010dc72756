//! WireGuard forwarding rules: per-type minimum packet sizes, the
//! per-client packet budget (a token bucket) and session expiry. Times are
//! the driver's monotonic milliseconds.
use vstd::prelude::*;

use crate::text::{concat, decimal, decimal_string};

verus! {

pub const WIREGUARD_MESSAGE_HANDSHAKE_INITIATION: u8 = 1;
pub const WIREGUARD_MESSAGE_HANDSHAKE_RESPONSE: u8 = 2;
pub const WIREGUARD_MESSAGE_COOKIE_REPLY: u8 = 3;
pub const WIREGUARD_MESSAGE_DATA: u8 = 4;

pub const MIN_HANDSHAKE_INITIATION_SIZE: usize = 148;
pub const MIN_HANDSHAKE_RESPONSE_SIZE: usize = 92;
pub const MIN_COOKIE_REPLY_SIZE: usize = 64;
pub const MIN_DATA_PACKET_SIZE: usize = 32;

/// Packets per second a client may send.
pub const MAX_PACKETS_PER_SEC_PER_CLIENT: u32 = 1000;

/// The bucket refills no more often than this, in milliseconds.
pub const RATE_LIMIT_REFILL_INTERVAL_MS: u64 = 100;

/// A session idle longer than this, in milliseconds, is expired.
pub const DEFAULT_SESSION_TIMEOUT_MS: u64 = 90_000;

/// Concurrent sessions per server.
pub const MAX_SESSIONS_PER_SERVER: usize = 10000;

/// WireGuard forwarding failures; client addresses are given as text.
#[derive(Debug, Clone)]
pub enum WireguardError {
    SessionNotFound(String),
    MaxSessionsReached(usize),
    RateLimitExceeded(String),
    InvalidPacketSize { msg_type: u8, size: usize },
    StreamAcquisitionFailed(String),
    StreamWriteFailed(String),
    StreamReadFailed(String),
    UdpSocketError(String),
}

/// The smallest valid packet of a message type; `None` for a type the
/// forwarder does not check.
pub open spec fn min_packet_size(message_type: u8) -> Option<usize> {
    if message_type == WIREGUARD_MESSAGE_HANDSHAKE_INITIATION {
        Some(MIN_HANDSHAKE_INITIATION_SIZE)
    } else if message_type == WIREGUARD_MESSAGE_HANDSHAKE_RESPONSE {
        Some(MIN_HANDSHAKE_RESPONSE_SIZE)
    } else if message_type == WIREGUARD_MESSAGE_COOKIE_REPLY {
        Some(MIN_COOKIE_REPLY_SIZE)
    } else if message_type == WIREGUARD_MESSAGE_DATA {
        Some(MIN_DATA_PACKET_SIZE)
    } else {
        None
    }
}

/// A packet of a known type shorter than that type's minimum is refused;
/// unknown types pass unchecked.
pub fn validate_packet_size(message_type: u8, size: usize) -> (r: Result<(), WireguardError>)
    ensures
        r is Err <==> (min_packet_size(message_type) matches Some(m) && size < m),
        r is Err ==> (r matches Err(WireguardError::InvalidPacketSize { msg_type, size: s }) && msg_type == message_type
            && s == size),
{
    let min_size = if message_type == WIREGUARD_MESSAGE_HANDSHAKE_INITIATION {
        MIN_HANDSHAKE_INITIATION_SIZE
    } else if message_type == WIREGUARD_MESSAGE_HANDSHAKE_RESPONSE {
        MIN_HANDSHAKE_RESPONSE_SIZE
    } else if message_type == WIREGUARD_MESSAGE_COOKIE_REPLY {
        MIN_COOKIE_REPLY_SIZE
    } else if message_type == WIREGUARD_MESSAGE_DATA {
        MIN_DATA_PACKET_SIZE
    } else {
        return Ok(());
    };
    if size < min_size {
        return Err(WireguardError::InvalidPacketSize { msg_type: message_type, size });
    }
    Ok(())
}

impl WireguardError {
    /// The error's message (client addresses as given).
    pub fn message(&self) -> (m: String)
        ensures
            self matches WireguardError::InvalidPacketSize { msg_type, size } ==> m@ == "Invalid packet size "@
                + decimal(size as nat) + " for message type "@ + decimal(msg_type as nat),
            self matches WireguardError::MaxSessionsReached(n) ==> m@ == "Maximum session limit ("@ + decimal(
                n as nat,
            ) + ") reached"@,
            self matches WireguardError::RateLimitExceeded(a) ==> m@ == "Rate limit exceeded for client "@ + a@,
            self matches WireguardError::SessionNotFound(a) ==> m@ == "Session not found for address "@ + a@,
    {
        match self {
            WireguardError::SessionNotFound(a) => concat("Session not found for address ", a.as_str()),
            WireguardError::MaxSessionsReached(n) => {
                let d = decimal_string(*n as u128);
                concat(concat("Maximum session limit (", d.as_str()).as_str(), ") reached")
            },
            WireguardError::RateLimitExceeded(a) => concat("Rate limit exceeded for client ", a.as_str()),
            WireguardError::InvalidPacketSize { msg_type, size } => {
                let s = decimal_string(*size as u128);
                let t = decimal_string(*msg_type as u128);
                concat(
                    concat(concat("Invalid packet size ", s.as_str()).as_str(), " for message type ").as_str(),
                    t.as_str(),
                )
            },
            WireguardError::StreamAcquisitionFailed(e) => concat("Failed to acquire stream: ", e.as_str()),
            WireguardError::StreamWriteFailed(e) => concat("Failed to write to stream: ", e.as_str()),
            WireguardError::StreamReadFailed(e) => concat("Failed to read from stream: ", e.as_str()),
            WireguardError::UdpSocketError(e) => concat("UDP socket error: ", e.as_str()),
        }
    }
}

/// A client's packet budget: a bucket of up to 1000 tokens refilled at
/// 1000 per second, one token per packet.
#[derive(Debug, Clone, Copy)]
pub struct RateLimiter {
    tokens: u32,
    last_refill: u64,
}

/// The tokens a refill after `elapsed` milliseconds adds: the per-second
/// rate for each elapsed second, pro rata, but never more than a full
/// bucket (so a long idle period refills the bucket instead of wrapping).
pub open spec fn refill_tokens(elapsed: u64) -> u32 {
    if elapsed >= 1000 {
        MAX_PACKETS_PER_SEC_PER_CLIENT
    } else {
        ((elapsed as nat * MAX_PACKETS_PER_SEC_PER_CLIENT as nat) / 1000) as u32
    }
}

impl RateLimiter {
    pub closed spec fn tokens(&self) -> u32 {
        self.tokens
    }

    pub closed spec fn last_refill(&self) -> u64 {
        self.last_refill
    }

    pub open spec fn wf(&self) -> bool {
        self.tokens() <= MAX_PACKETS_PER_SEC_PER_CLIENT
    }

    /// A full bucket, last refilled at `now`.
    pub fn new(max_tokens: u32, now: u64) -> (r: RateLimiter)
        requires
            max_tokens <= MAX_PACKETS_PER_SEC_PER_CLIENT,
        ensures
            r.wf(),
            r.tokens() == max_tokens,
            r.last_refill() == now,
    {
        RateLimiter { tokens: max_tokens, last_refill: now }
    }

    /// Spend one token for a packet at `now`, after refilling: once at
    /// least the refill interval has passed, the bucket gains
    /// `refill_tokens(elapsed)`, capped at the per-second rate, and, when
    /// that is more than zero, the refill time moves to `now`. `false`
    /// when the bucket is empty.
    pub fn try_acquire(&mut self, now: u64) -> (ok: bool)
        requires
            old(self).wf(),
        ensures
            final(self).wf(),
            ({
                let elapsed: u64 = if now >= old(self).last_refill() { (now - old(self).last_refill()) as u64 } else { 0 };
                let add: nat = if elapsed >= RATE_LIMIT_REFILL_INTERVAL_MS { refill_tokens(elapsed) as nat } else { 0 };
                let filled: nat = if old(self).tokens() + add > MAX_PACKETS_PER_SEC_PER_CLIENT {
                    MAX_PACKETS_PER_SEC_PER_CLIENT as nat
                } else {
                    (old(self).tokens() + add) as nat
                };
                &&& ok == (filled > 0)
                &&& final(self).tokens() == (if ok { (filled - 1) as nat } else { 0 })
                &&& final(self).last_refill() == (if add > 0 { now } else { old(self).last_refill() })
            }),
            now >= old(self).last_refill() + 100 ==> ({
                let gap: nat = (now - old(self).last_refill()) as nat;
                let filled: nat = if gap >= 1000 || old(self).tokens() + gap >= 1000 {
                    1000
                } else {
                    (old(self).tokens() + gap) as nat
                };
                &&& ok
                &&& final(self).tokens() == filled - 1
                &&& final(self).last_refill() == now
            }),
    {
        let elapsed: u64 = if now >= self.last_refill { now - self.last_refill } else { 0 };
        proof { law_refill_is_per_second_rate(elapsed); }
        if elapsed >= RATE_LIMIT_REFILL_INTERVAL_MS {
            let add: u32 = if elapsed >= 1000 {
                MAX_PACKETS_PER_SEC_PER_CLIENT
            } else {
                (elapsed as u32) * MAX_PACKETS_PER_SEC_PER_CLIENT / 1000
            };
            if add > 0 {
                let room = MAX_PACKETS_PER_SEC_PER_CLIENT - self.tokens;
                self.tokens = if add >= room { MAX_PACKETS_PER_SEC_PER_CLIENT } else { self.tokens + add };
                self.last_refill = now;
            }
        }
        if self.tokens > 0 {
            self.tokens = self.tokens - 1;
            true
        } else {
            false
        }
    }
}

/// The bucket refills at 1000 packets per second, pro rata: a refill after
/// `elapsed` milliseconds (at least the 100 ms refill interval) adds one
/// token per elapsed millisecond up to a second, and a full bucket of 1000
/// after a second or more.
pub proof fn law_refill_is_per_second_rate(elapsed: u64)
    ensures
        elapsed < 1000 ==> refill_tokens(elapsed) == elapsed,
        elapsed >= 1000 ==> refill_tokens(elapsed) == 1000,
{
}

/// Whether a session last active at `last_activity` has expired at `now`.
pub fn session_expired(last_activity: u64, now: u64) -> (e: bool)
    ensures
        e == (now >= last_activity && now - last_activity > DEFAULT_SESSION_TIMEOUT_MS),
{
    now >= last_activity && now - last_activity > DEFAULT_SESSION_TIMEOUT_MS
}

/// A client may not send more packets than its bucket holds: whatever
/// the timing, the bucket never holds more than one second's budget.
pub proof fn law_bucket_bounded(r: RateLimiter)
    requires
        r.wf(),
    ensures
        r.tokens() <= MAX_PACKETS_PER_SEC_PER_CLIENT,
{
}

/// Which way a WireGuard datagram moved.
#[derive(Debug, Clone, Copy, PartialEq, Eq, Structural)]
pub enum DataDirection {
    Incoming,
    Outgoing,
}

/// Where in its life a WireGuard session failed.
#[derive(Debug, Clone, Copy, PartialEq, Eq, Structural)]
pub enum SessionStage {
    Handshake,
    KeyExchange,
    PeerConnection,
    DataTransfer,
    Shutdown,
}

/// A new session is refused once the server holds its maximum.
pub fn admit_session(active: usize) -> (r: Result<(), WireguardError>)
    ensures
        r is Ok <==> active < MAX_SESSIONS_PER_SERVER,
        r is Err ==> (r matches Err(WireguardError::MaxSessionsReached(n)) && n == MAX_SESSIONS_PER_SERVER),
{
    if active >= MAX_SESSIONS_PER_SERVER {
        Err(WireguardError::MaxSessionsReached(MAX_SESSIONS_PER_SERVER))
    } else {
        Ok(())
    }
}

} // verus!
