//! The WireGuard forwarder's sessions, one per client address: which exit
//! peer carries it, when it was last active, how much went out, and its
//! packet budget. The streams themselves are held by the driver, by
//! session id.
use vstd::prelude::*;

use crate::filters::texts;
use crate::keyed::{distinct, holds, lemma_view_at, lemma_view_push, lemma_view_remove, lemma_view_update, table_view};
use crate::route::PeerKey;
use crate::wireguard::{
    session_expired, RateLimiter, WireguardError, DEFAULT_SESSION_TIMEOUT_MS, MAX_PACKETS_PER_SEC_PER_CLIENT,
    refill_tokens, RATE_LIMIT_REFILL_INTERVAL_MS,
};

verus! {

/// One client's session.
#[derive(Debug, Clone)]
pub struct SessionInfo {
    pub session_id: u128,
    pub peer: PeerKey,
    /// Monotonic milliseconds of the last packet or lookup.
    pub last_activity: u64,
    pub incoming_bytes: u64,
    pub outgoing_bytes: u64,
    pub limiter: RateLimiter,
}

pub struct SessionView {
    pub session_id: u128,
    pub peer: Seq<char>,
    pub last_activity: u64,
    pub incoming_bytes: u64,
    pub outgoing_bytes: u64,
    pub tokens: u32,
    pub last_refill: u64,
}

impl View for SessionInfo {
    type V = SessionView;

    open spec fn view(&self) -> SessionView {
        SessionView {
            session_id: self.session_id,
            peer: self.peer@,
            last_activity: self.last_activity,
            incoming_bytes: self.incoming_bytes,
            outgoing_bytes: self.outgoing_bytes,
            tokens: self.limiter.tokens(),
            last_refill: self.limiter.last_refill(),
        }
    }
}

/// Whether a session last active at `last` has outlived the idle timeout
/// at `now`.
pub open spec fn is_expired(last: u64, now: u64) -> bool {
    now >= last && now - last > DEFAULT_SESSION_TIMEOUT_MS
}

/// `v` with its activity time moved to `now`.
pub open spec fn touched(v: SessionView, now: u64) -> SessionView {
    SessionView { last_activity: now, ..v }
}

/// A session opened at `now`: nothing transferred, a full packet budget.
pub open spec fn opened(session_id: u128, peer: Seq<char>, now: u64) -> SessionView {
    SessionView {
        session_id,
        peer,
        last_activity: now,
        incoming_bytes: 0,
        outgoing_bytes: 0,
        tokens: MAX_PACKETS_PER_SEC_PER_CLIENT,
        last_refill: now,
    }
}

/// The packet budget of `v` after a refill at `now` (see
/// `RateLimiter::try_acquire`), before a token is spent.
pub open spec fn refilled(v: SessionView, now: u64) -> (nat, bool) {
    let elapsed: u64 = if now >= v.last_refill { (now - v.last_refill) as u64 } else { 0 };
    let add: nat = if elapsed >= RATE_LIMIT_REFILL_INTERVAL_MS { refill_tokens(elapsed) as nat } else { 0 };
    let filled: nat = if v.tokens + add > MAX_PACKETS_PER_SEC_PER_CLIENT {
        MAX_PACKETS_PER_SEC_PER_CLIENT as nat
    } else {
        (v.tokens + add) as nat
    };
    (filled, add > 0)
}

/// `v` after a packet asked for a token at `now`: refilled, one token spent
/// when there was one, and touched when the packet may pass.
pub open spec fn after_packet(v: SessionView, now: u64) -> SessionView {
    let (filled, moved) = refilled(v, now);
    SessionView {
        tokens: if filled > 0 { (filled - 1) as u32 } else { 0 },
        last_refill: if moved { now } else { v.last_refill },
        last_activity: if filled > 0 { now } else { v.last_activity },
        ..v
    }
}

/// All sessions of one forwarder, keyed by the client address's text.
pub struct SessionTable {
    entries: Vec<(String, SessionInfo)>,
}

impl View for SessionTable {
    type V = Map<Seq<char>, SessionView>;

    closed spec fn view(&self) -> Map<Seq<char>, SessionView> {
        table_view(self.entries@)
    }
}

impl SessionTable {
    #[verifier::type_invariant]
    closed spec fn inv(self) -> bool {
        &&& distinct(self.entries@)
        &&& forall|i: int| 0 <= i < self.entries@.len() ==> (#[trigger] self.entries@[i]).1.limiter.wf()
    }

    /// No sessions.
    pub fn new() -> (t: SessionTable)
        ensures
            t@ == Map::<Seq<char>, SessionView>::empty(),
    {
        let t = SessionTable { entries: Vec::new() };
        assert(t@ =~= Map::<Seq<char>, SessionView>::empty());
        t
    }

    fn find(&self, client: &String) -> (r: Option<usize>)
        ensures
            match r {
                Some(i) => i < self.entries@.len() && self.entries@[i as int].0@ == client@,
                None => !holds(self.entries@, client@),
            },
    {
        let mut i: usize = 0;
        while i < self.entries.len()
            invariant
                i <= self.entries@.len(),
                forall|j: int| 0 <= j < i ==> (#[trigger] self.entries@[j]).0@ != client@,
            decreases self.entries@.len() - i,
        {
            if self.entries[i].0 == *client {
                return Some(i);
            }
            i = i + 1;
        }
        None
    }

    fn put_at(&mut self, i: usize, key: String, s: SessionInfo)
        requires
            i < old(self).entries@.len(),
            key@ == old(self).entries@[i as int].0@,
            s.limiter.wf(),
        ensures
            final(self)@ == old(self)@.insert(key@, s@),
    {
        proof { use_type_invariant(&*self); }
        let mut es: Vec<(String, SessionInfo)> = Vec::new();
        std::mem::swap(&mut es, &mut self.entries);
        proof { lemma_view_update(es@, i as int, key, s); }
        es.set(i, (key, s));
        proof {
            assert forall|j: int| 0 <= j < es@.len() implies (#[trigger] es@[j]).1.limiter.wf() by {
                if j != i as int {
                    assert(es@[j] == old(self).entries@[j]);
                }
            }
        }
        self.entries = es;
    }

    fn append(&mut self, key: String, s: SessionInfo)
        requires
            !old(self)@.contains_key(key@),
            s.limiter.wf(),
        ensures
            final(self)@ == old(self)@.insert(key@, s@),
    {
        proof { use_type_invariant(&*self); }
        let mut es: Vec<(String, SessionInfo)> = Vec::new();
        std::mem::swap(&mut es, &mut self.entries);
        proof { lemma_view_push(es@, key, s); }
        es.push((key, s));
        proof {
            assert forall|j: int| 0 <= j < es@.len() implies (#[trigger] es@[j]).1.limiter.wf() by {
                if j < old(self).entries@.len() {
                    assert(es@[j] == old(self).entries@[j]);
                }
            }
        }
        self.entries = es;
    }

    /// How many sessions are open.
    pub fn len(&self) -> (n: usize)
        ensures
            n == self@.dom().len(),
    {
        proof {
            use_type_invariant(self);
            let keys = self.entries@.map_values(|e: (String, SessionInfo)| e.0@);
            assert(keys.no_duplicates()) by {
                assert forall|a: int, b: int| 0 <= a < keys.len() && 0 <= b < keys.len() && a != b implies keys[a]
                    != keys[b] by {
                    assert(self.entries@[a].0@ != self.entries@[b].0@);
                }
            }
            assert(self@.dom() =~= keys.to_set()) by {
                assert forall|k: Seq<char>| self@.dom().contains(k) <==> keys.to_set().contains(k) by {
                    if self@.dom().contains(k) {
                        let j = choose|j: int| 0 <= j < self.entries@.len() && (#[trigger] self.entries@[j]).0@ == k;
                        assert(keys[j] == k);
                    }
                    if keys.to_set().contains(k) {
                        let j = choose|j: int| 0 <= j < keys.len() && keys[j] == k;
                        assert(self.entries@[j].0@ == k);
                        assert(holds(self.entries@, k));
                    }
                }
            }
            keys.unique_seq_to_set();
        }
        self.entries.len()
    }

    /// The session of `client`, when it has one that has not expired at
    /// `now`: its activity time moves to `now` and its id is returned.
    /// Otherwise nothing changes.
    pub fn touch_live(&mut self, client: &String, now: u64) -> (r: Option<u128>)
        ensures
            (old(self)@.contains_key(client@) && !is_expired(old(self)@[client@].last_activity, now)) ==> {
                &&& r == Some(old(self)@[client@].session_id)
                &&& final(self)@ == old(self)@.insert(client@, touched(old(self)@[client@], now))
            },
            !(old(self)@.contains_key(client@) && !is_expired(old(self)@[client@].last_activity, now)) ==> {
                &&& r == None::<u128>
                &&& final(self)@ == old(self)@
            },
    {
        proof { use_type_invariant(&*self); }
        match self.find(client) {
            Some(i) => {
                proof { lemma_view_at(self.entries@, i as int); }
                if session_expired(self.entries[i].1.last_activity, now) {
                    None
                } else {
                    let e = &self.entries[i].1;
                    let s = SessionInfo {
                        session_id: e.session_id,
                        peer: e.peer.duplicate(),
                        last_activity: now,
                        incoming_bytes: e.incoming_bytes,
                        outgoing_bytes: e.outgoing_bytes,
                        limiter: e.limiter,
                    };
                    let id = e.session_id;
                    let key = client.clone();
                    self.put_at(i, key, s);
                    Some(id)
                }
            },
            None => None,
        }
    }

    /// Record the session opened for `client` at `now` over `peer` — unless,
    /// meanwhile, `client` got a session that has not expired: that one is
    /// touched and kept, and its id returned. An expired session is
    /// replaced.
    pub fn install(&mut self, client: &String, session_id: u128, peer: PeerKey, now: u64) -> (r: u128)
        ensures
            (old(self)@.contains_key(client@) && !is_expired(old(self)@[client@].last_activity, now)) ==> {
                &&& r == old(self)@[client@].session_id
                &&& final(self)@ == old(self)@.insert(client@, touched(old(self)@[client@], now))
            },
            !(old(self)@.contains_key(client@) && !is_expired(old(self)@[client@].last_activity, now)) ==> {
                &&& r == session_id
                &&& final(self)@ == old(self)@.insert(client@, opened(session_id, peer@, now))
            },
    {
        match self.touch_live(client, now) {
            Some(id) => id,
            None => {
                proof { use_type_invariant(&*self); }
                let s = SessionInfo {
                    session_id,
                    peer,
                    last_activity: now,
                    incoming_bytes: 0,
                    outgoing_bytes: 0,
                    limiter: RateLimiter::new(MAX_PACKETS_PER_SEC_PER_CLIENT, now),
                };
                let key = client.clone();
                match self.find(client) {
                    Some(i) => self.put_at(i, key, s),
                    None => self.append(key, s),
                }
                session_id
            },
        }
    }

    /// Let one packet from `client` through at `now`: refused when the
    /// client has no session, or when its packet budget is spent (the
    /// budget still refills); otherwise the session is touched and its id
    /// returned.
    pub fn admit_packet(&mut self, client: &String, now: u64) -> (r: Result<u128, WireguardError>)
        ensures
            !old(self)@.contains_key(client@) ==> {
                &&& final(self)@ == old(self)@
                &&& r matches Err(WireguardError::SessionNotFound(a)) && a@ == client@
            },
            old(self)@.contains_key(client@) ==> {
                let v = old(self)@[client@];
                &&& final(self)@ == old(self)@.insert(client@, after_packet(v, now))
                &&& (refilled(v, now).0 > 0 ==> r == Ok::<u128, WireguardError>(v.session_id))
                &&& (refilled(v, now).0 == 0 ==> (r matches Err(WireguardError::RateLimitExceeded(a)) && a@ == client@))
            },
    {
        proof { use_type_invariant(&*self); }
        match self.find(client) {
            None => Err(WireguardError::SessionNotFound(client.clone())),
            Some(i) => {
                proof { lemma_view_at(self.entries@, i as int); }
                let e = &self.entries[i].1;
                let mut limiter = e.limiter;
                let ok = limiter.try_acquire(now);
                let s = SessionInfo {
                    session_id: e.session_id,
                    peer: e.peer.duplicate(),
                    last_activity: if ok { now } else { e.last_activity },
                    incoming_bytes: e.incoming_bytes,
                    outgoing_bytes: e.outgoing_bytes,
                    limiter,
                };
                let id = e.session_id;
                let key = client.clone();
                self.put_at(i, key, s);
                if ok {
                    Ok(id)
                } else {
                    Err(WireguardError::RateLimitExceeded(client.clone()))
                }
            },
        }
    }

    /// Count `bytes` more sent to the peer on `client`'s session.
    pub fn add_outgoing(&mut self, client: &String, bytes: u64)
        requires
            old(self)@.contains_key(client@) ==> old(self)@[client@].outgoing_bytes + bytes <= u64::MAX,
        ensures
            old(self)@.contains_key(client@) ==> final(self)@ == old(self)@.insert(
                client@,
                SessionView {
                    outgoing_bytes: (old(self)@[client@].outgoing_bytes + bytes) as u64,
                    ..old(self)@[client@]
                },
            ),
            !old(self)@.contains_key(client@) ==> final(self)@ == old(self)@,
    {
        proof { use_type_invariant(&*self); }
        match self.find(client) {
            None => {},
            Some(i) => {
                proof { lemma_view_at(self.entries@, i as int); }
                let e = &self.entries[i].1;
                let s = SessionInfo {
                    session_id: e.session_id,
                    peer: e.peer.duplicate(),
                    last_activity: e.last_activity,
                    incoming_bytes: e.incoming_bytes,
                    outgoing_bytes: e.outgoing_bytes + bytes,
                    limiter: e.limiter,
                };
                let key = client.clone();
                self.put_at(i, key, s);
            },
        }
    }

    /// Close `client`'s session, handing back its peer and the bytes
    /// counted in and out.
    pub fn close(&mut self, client: &String) -> (r: Option<(PeerKey, u64, u64)>)
        ensures
            final(self)@ == old(self)@.remove(client@),
            old(self)@.contains_key(client@) ==> (r matches Some((p, i, o)) && p@ == old(self)@[client@].peer
                && i == old(self)@[client@].incoming_bytes && o == old(self)@[client@].outgoing_bytes),
            !old(self)@.contains_key(client@) ==> r == None::<(PeerKey, u64, u64)>,
    {
        proof { use_type_invariant(&*self); }
        match self.find(client) {
            None => {
                assert(old(self)@.remove(client@) =~= old(self)@);
                None
            },
            Some(i) => {
                proof { lemma_view_at(self.entries@, i as int); }
                let mut es: Vec<(String, SessionInfo)> = Vec::new();
                std::mem::swap(&mut es, &mut self.entries);
                proof { lemma_view_remove(es@, i as int); }
                let (_, e) = es.remove(i);
                proof {
                    assert forall|j: int| 0 <= j < es@.len() implies (#[trigger] es@[j]).1.limiter.wf() by {
                        let oj = if j < i as int { j } else { j + 1 };
                        assert(es@[j] == old(self).entries@[oj]);
                    }
                }
                self.entries = es;
                Some((e.peer, e.incoming_bytes, e.outgoing_bytes))
            },
        }
    }

    /// The clients whose sessions have expired at `now`, each once.
    pub fn expired(&self, now: u64) -> (v: Vec<String>)
        ensures
            texts(v@).no_duplicates(),
            forall|k: Seq<char>| #[trigger] texts(v@).contains(k) <==> (self@.contains_key(k) && is_expired(
                self@[k].last_activity,
                now,
            )),
    {
        proof { use_type_invariant(self); }
        let mut v: Vec<String> = Vec::new();
        let mut i: usize = 0;
        while i < self.entries.len()
            invariant
                i <= self.entries@.len(),
                distinct(self.entries@),
                texts(v@).no_duplicates(),
                forall|k: Seq<char>| #[trigger] texts(v@).contains(k) <==> exists|j: int|
                    0 <= j < i && (#[trigger] self.entries@[j]).0@ == k && is_expired(self.entries@[j].1.last_activity, now),
            decreases self.entries@.len() - i,
        {
            if session_expired(self.entries[i].1.last_activity, now) {
                let ghost before = texts(v@);
                let key = self.entries[i].0.clone();
                v.push(key);
                proof {
                    let after = texts(v@);
                    assert(after =~= before.push(self.entries@[i as int].0@));
                    assert forall|a: int, b: int| 0 <= a < after.len() && 0 <= b < after.len() && a != b implies after[a]
                        != after[b] by {
                        if a < before.len() && b < before.len() {
                        } else if a == before.len() {
                            assert(before.contains(after[b]));
                            let j = choose|j: int|
                                0 <= j < i && (#[trigger] self.entries@[j]).0@ == after[b] && is_expired(
                                    self.entries@[j].1.last_activity,
                                    now,
                                );
                            assert(j != i as int);
                        } else {
                            assert(before.contains(after[a]));
                            let j = choose|j: int|
                                0 <= j < i && (#[trigger] self.entries@[j]).0@ == after[a] && is_expired(
                                    self.entries@[j].1.last_activity,
                                    now,
                                );
                            assert(j != i as int);
                        }
                    }
                    assert forall|k: Seq<char>| #[trigger] after.contains(k) <==> exists|j: int|
                        0 <= j < i + 1 && (#[trigger] self.entries@[j]).0@ == k && is_expired(
                            self.entries@[j].1.last_activity,
                            now,
                        ) by {
                        if after.contains(k) {
                            let a = choose|a: int| 0 <= a < after.len() && after[a] == k;
                            if a == before.len() {
                                assert(self.entries@[i as int].0@ == k);
                            } else {
                                assert(before[a] == k);
                                assert(before.contains(k));
                            }
                        }
                        if exists|j: int|
                            0 <= j < i + 1 && (#[trigger] self.entries@[j]).0@ == k && is_expired(
                                self.entries@[j].1.last_activity,
                                now,
                            ) {
                            let j = choose|j: int|
                                0 <= j < i + 1 && (#[trigger] self.entries@[j]).0@ == k && is_expired(
                                    self.entries@[j].1.last_activity,
                                    now,
                                );
                            if j == i as int {
                                assert(after[before.len() as int] == k);
                            } else {
                                assert(before.contains(k));
                                let a = choose|a: int| 0 <= a < before.len() && before[a] == k;
                                assert(after[a] == k);
                            }
                        }
                    }
                }
            }
            i = i + 1;
        }
        proof {
            assert forall|k: Seq<char>| #[trigger] texts(v@).contains(k) <==> (self@.contains_key(k)
                && is_expired(self@[k].last_activity, now)) by {
                if self@.contains_key(k) {
                    let j = choose|j: int| 0 <= j < self.entries@.len() && (#[trigger] self.entries@[j]).0@ == k;
                    lemma_view_at(self.entries@, j);
                }
                if exists|j: int|
                    0 <= j < self.entries@.len() && (#[trigger] self.entries@[j]).0@ == k && is_expired(
                        self.entries@[j].1.last_activity,
                        now,
                    ) {
                    let j = choose|j: int|
                        0 <= j < self.entries@.len() && (#[trigger] self.entries@[j]).0@ == k && is_expired(
                            self.entries@[j].1.last_activity,
                            now,
                        );
                    lemma_view_at(self.entries@, j);
                }
            }
        }
        v
    }
}

/// A session just installed at `now` is live at `now`: the next lookup
/// from the same client finds it instead of opening another.
pub proof fn law_installed_session_is_live(session_id: u128, peer: Seq<char>, now: u64)
    ensures
        !is_expired(opened(session_id, peer, now).last_activity, now),
        !is_expired(touched(opened(session_id, peer, now), now).last_activity, now),
{
}

/// Touching a session keeps its id, peer and byte counts.
pub proof fn law_touch_keeps_identity(v: SessionView, now: u64)
    ensures
        touched(v, now).session_id == v.session_id,
        touched(v, now).peer == v.peer,
        touched(v, now).outgoing_bytes == v.outgoing_bytes,
        touched(v, now).incoming_bytes == v.incoming_bytes,
{
}

} // verus!
