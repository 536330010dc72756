//! Per-peer accounting of the stream pool: how many streams each peer has
//! open, a sliding window of recent outcomes, and whether the peer is
//! currently considered healthy.
//!
//! The error rate itself is a ratio compared against a fractional
//! threshold; the caller computes it from the window that the recording
//! operations hand back and reports the verdict with `set_healthy`.
use vstd::prelude::*;

use crate::keyed::{distinct, holds, lemma_view_at, lemma_view_push, lemma_view_update, table_view};
use crate::route::PeerKey;

verus! {

/// Once the window holds more outcomes than this, both halves are halved.
pub const MAX_WINDOW_SIZE: u64 = 100;

/// What the pool knows of one peer.
#[derive(Debug, Clone, Copy, PartialEq, Eq, Structural)]
pub struct PeerStats {
    pub total_opened: u64,
    pub total_failed: u64,
    pub current_active: usize,
    pub recent_successes: u64,
    pub recent_failures: u64,
    pub is_healthy: bool,
}

/// The window after one more outcome: halved once it outgrows its size.
pub open spec fn slide(successes: nat, failures: nat) -> (nat, nat) {
    if successes + failures > MAX_WINDOW_SIZE {
        (successes / 2, failures / 2)
    } else {
        (successes, failures)
    }
}

/// A peer seen for the first time: nothing counted, taken to be healthy.
pub open spec fn fresh_stats() -> PeerStats {
    PeerStats {
        total_opened: 0,
        total_failed: 0,
        current_active: 0,
        recent_successes: 0,
        recent_failures: 0,
        is_healthy: true,
    }
}

/// `s` after a stream opened successfully.
pub open spec fn after_success(s: PeerStats) -> PeerStats {
    let w = slide((s.recent_successes + 1) as nat, s.recent_failures as nat);
    PeerStats {
        total_opened: (s.total_opened + 1) as u64,
        recent_successes: w.0 as u64,
        recent_failures: w.1 as u64,
        ..s
    }
}

/// `s` after a stream failed to open: the failure is counted and the slot
/// that was taken for it is given back.
pub open spec fn after_failure(s: PeerStats) -> PeerStats {
    let w = slide(s.recent_successes as nat, (s.recent_failures + 1) as nat);
    PeerStats {
        total_failed: (s.total_failed + 1) as u64,
        recent_successes: w.0 as u64,
        recent_failures: w.1 as u64,
        current_active: if s.current_active > 0 { (s.current_active - 1) as usize } else { 0 },
        ..s
    }
}

/// `s` after one of its streams closed.
pub open spec fn after_close(s: PeerStats) -> PeerStats {
    PeerStats { current_active: if s.current_active > 0 { (s.current_active - 1) as usize } else { 0 }, ..s }
}

/// `s` with one more stream taken.
pub open spec fn after_take(s: PeerStats) -> PeerStats {
    PeerStats { current_active: (s.current_active + 1) as usize, ..s }
}

impl View for PeerStats {
    type V = PeerStats;

    open spec fn view(&self) -> PeerStats {
        *self
    }
}

impl PeerStats {
    /// The window of recent outcomes stays within its size.
    pub open spec fn wf(&self) -> bool {
        self.recent_successes + self.recent_failures <= MAX_WINDOW_SIZE
    }

    /// Counters for a peer seen for the first time.
    pub fn new() -> (s: PeerStats)
        ensures
            s == fresh_stats(),
            s.wf(),
    {
        PeerStats {
            total_opened: 0,
            total_failed: 0,
            current_active: 0,
            recent_successes: 0,
            recent_failures: 0,
            is_healthy: true,
        }
    }

    /// Keep the window at most `MAX_WINDOW_SIZE` outcomes long: when it
    /// has grown past that, both counts are halved.
    pub fn reset_recent_stats(&mut self)
        requires
            old(self).recent_successes + old(self).recent_failures <= MAX_WINDOW_SIZE + 1,
        ensures
            final(self).wf(),
            (final(self).recent_successes as nat, final(self).recent_failures as nat)
                == slide(old(self).recent_successes as nat, old(self).recent_failures as nat),
            final(self).total_opened == old(self).total_opened,
            final(self).total_failed == old(self).total_failed,
            final(self).current_active == old(self).current_active,
            final(self).is_healthy == old(self).is_healthy,
    {
        let total = self.recent_successes + self.recent_failures;
        if total > MAX_WINDOW_SIZE {
            self.recent_successes = self.recent_successes / 2;
            self.recent_failures = self.recent_failures / 2;
        }
    }

    /// Count a stream that opened.
    pub fn note_success(&mut self)
        requires
            old(self).wf(),
            old(self).total_opened < u64::MAX,
        ensures
            final(self).wf(),
            *final(self) == after_success(*old(self)),
    {
        self.total_opened = self.total_opened + 1;
        self.recent_successes = self.recent_successes + 1;
        self.reset_recent_stats();
    }

    /// Count a stream that failed to open, and give back its slot.
    pub fn note_failure(&mut self)
        requires
            old(self).wf(),
            old(self).total_failed < u64::MAX,
        ensures
            final(self).wf(),
            *final(self) == after_failure(*old(self)),
    {
        self.total_failed = self.total_failed + 1;
        self.recent_failures = self.recent_failures + 1;
        self.reset_recent_stats();
        if self.current_active > 0 {
            self.current_active = self.current_active - 1;
        }
    }

    /// Give back one stream slot; the count never goes below zero.
    pub fn release_active(&mut self)
        ensures
            *final(self) == after_close(*old(self)),
    {
        if self.current_active > 0 {
            self.current_active = self.current_active - 1;
        }
    }
}

/// The stream pool's record of every peer it has opened streams to.
pub struct PeerTable {
    entries: Vec<(PeerKey, PeerStats)>,
}

impl View for PeerTable {
    type V = Map<Seq<char>, PeerStats>;

    closed spec fn view(&self) -> Map<Seq<char>, PeerStats> {
        table_view(self.entries@)
    }
}

impl PeerTable {
    #[verifier::type_invariant]
    closed spec fn inv(self) -> bool {
        &&& distinct(self.entries@)
        &&& forall|i: int| 0 <= i < self.entries@.len() ==> (#[trigger] self.entries@[i]).1.wf()
    }

    /// A table that tracks no peer.
    pub fn new() -> (t: PeerTable)
        ensures
            t@ == Map::<Seq<char>, PeerStats>::empty(),
    {
        let t = PeerTable { entries: Vec::new() };
        assert(t@ =~= Map::<Seq<char>, PeerStats>::empty());
        t
    }

    fn find(&self, peer: &PeerKey) -> (r: Option<usize>)
        ensures
            match r {
                Some(i) => i < self.entries@.len() && self.entries@[i as int].0@ == peer@,
                None => !holds(self.entries@, peer@),
            },
    {
        let mut i: usize = 0;
        while i < self.entries.len()
            invariant
                i <= self.entries@.len(),
                forall|j: int| 0 <= j < i ==> (#[trigger] self.entries@[j]).0@ != peer@,
            decreases self.entries@.len() - i,
        {
            if self.entries[i].0.same(peer) {
                return Some(i);
            }
            i = i + 1;
        }
        None
    }

    fn put_at(&mut self, i: usize, key: PeerKey, s: PeerStats)
        requires
            i < old(self).entries@.len(),
            key@ == old(self).entries@[i as int].0@,
            s.wf(),
        ensures
            final(self)@ == old(self)@.insert(key@, s),
    {
        proof { use_type_invariant(&*self); }
        let mut es: Vec<(PeerKey, PeerStats)> = Vec::new();
        std::mem::swap(&mut es, &mut self.entries);
        proof { lemma_view_update(es@, i as int, key, s); }
        es.set(i, (key, s));
        proof {
            assert forall|j: int| 0 <= j < es@.len() implies (#[trigger] es@[j]).1.wf() by {
                if j != i as int {
                    assert(es@[j] == old(self).entries@[j]);
                }
            }
        }
        self.entries = es;
    }

    fn append(&mut self, key: PeerKey, s: PeerStats)
        requires
            !old(self)@.contains_key(key@),
            s.wf(),
        ensures
            final(self)@ == old(self)@.insert(key@, s),
    {
        proof { use_type_invariant(&*self); }
        let mut es: Vec<(PeerKey, PeerStats)> = Vec::new();
        std::mem::swap(&mut es, &mut self.entries);
        proof { lemma_view_push(es@, key, s); }
        es.push((key, s));
        proof {
            assert forall|j: int| 0 <= j < es@.len() implies (#[trigger] es@[j]).1.wf() by {
                if j < old(self).entries@.len() {
                    assert(es@[j] == old(self).entries@[j]);
                }
            }
        }
        self.entries = es;
    }

    /// The counters of `peer`, if the pool has seen it.
    pub fn get(&self, peer: &PeerKey) -> (r: Option<PeerStats>)
        ensures
            r == (if self@.contains_key(peer@) { Some(self@[peer@]) } else { None::<PeerStats> }),
            r matches Some(s) ==> s.wf(),
    {
        proof { use_type_invariant(self); }
        match self.find(peer) {
            Some(i) => {
                proof { lemma_view_at(self.entries@, i as int); }
                Some(self.entries[i].1)
            },
            None => None,
        }
    }

    /// Take a stream slot for `peer`, tracking the peer from now on if it
    /// was not tracked yet.
    pub fn begin_acquire(&mut self, peer: &PeerKey)
        requires
            old(self)@.contains_key(peer@) ==> old(self)@[peer@].current_active < usize::MAX,
        ensures
            final(self)@ == old(self)@.insert(
                peer@,
                after_take(if old(self)@.contains_key(peer@) { old(self)@[peer@] } else { fresh_stats() }),
            ),
    {
        proof { use_type_invariant(&*self); }
        match self.find(peer) {
            Some(i) => {
                proof { lemma_view_at(self.entries@, i as int); }
                let mut s = self.entries[i].1;
                s.current_active = s.current_active + 1;
                let key = peer.duplicate();
                self.put_at(i, key, s);
            },
            None => {
                let mut s = PeerStats::new();
                s.current_active = 1;
                let key = peer.duplicate();
                self.append(key, s);
            },
        }
    }

    /// Count a stream to `peer` that opened, and hand back the peer's
    /// counters afterwards; a peer the pool does not track is left alone.
    pub fn record_success(&mut self, peer: &PeerKey) -> (r: Option<PeerStats>)
        requires
            old(self)@.contains_key(peer@) ==> old(self)@[peer@].total_opened < u64::MAX,
        ensures
            old(self)@.contains_key(peer@) ==> {
                &&& final(self)@ == old(self)@.insert(peer@, after_success(old(self)@[peer@]))
                &&& r == Some(after_success(old(self)@[peer@]))
            },
            !old(self)@.contains_key(peer@) ==> final(self)@ == old(self)@ && r == None::<PeerStats>,
    {
        proof { use_type_invariant(&*self); }
        match self.find(peer) {
            Some(i) => {
                proof { lemma_view_at(self.entries@, i as int); }
                let mut s = self.entries[i].1;
                s.note_success();
                let key = peer.duplicate();
                self.put_at(i, key, s);
                Some(s)
            },
            None => None,
        }
    }

    /// Count a stream to `peer` that failed to open (giving back its slot),
    /// and hand back the peer's counters afterwards; a peer the pool does
    /// not track is left alone.
    pub fn record_failure(&mut self, peer: &PeerKey) -> (r: Option<PeerStats>)
        requires
            old(self)@.contains_key(peer@) ==> old(self)@[peer@].total_failed < u64::MAX,
        ensures
            old(self)@.contains_key(peer@) ==> {
                &&& final(self)@ == old(self)@.insert(peer@, after_failure(old(self)@[peer@]))
                &&& r == Some(after_failure(old(self)@[peer@]))
            },
            !old(self)@.contains_key(peer@) ==> final(self)@ == old(self)@ && r == None::<PeerStats>,
    {
        proof { use_type_invariant(&*self); }
        match self.find(peer) {
            Some(i) => {
                proof { lemma_view_at(self.entries@, i as int); }
                let mut s = self.entries[i].1;
                s.note_failure();
                let key = peer.duplicate();
                self.put_at(i, key, s);
                Some(s)
            },
            None => None,
        }
    }

    /// A stream to `peer` closed: give its slot back.
    pub fn stream_closed(&mut self, peer: &PeerKey)
        ensures
            old(self)@.contains_key(peer@) ==> final(self)@ == old(self)@.insert(peer@, after_close(old(self)@[peer@])),
            !old(self)@.contains_key(peer@) ==> final(self)@ == old(self)@,
    {
        proof { use_type_invariant(&*self); }
        match self.find(peer) {
            Some(i) => {
                proof { lemma_view_at(self.entries@, i as int); }
                let mut s = self.entries[i].1;
                s.release_active();
                let key = peer.duplicate();
                self.put_at(i, key, s);
            },
            None => {},
        }
    }

    /// Record the verdict on `peer`'s error rate.
    pub fn set_healthy(&mut self, peer: &PeerKey, healthy: bool)
        ensures
            old(self)@.contains_key(peer@) ==> final(self)@ == old(self)@.insert(
                peer@,
                PeerStats { is_healthy: healthy, ..old(self)@[peer@] },
            ),
            !old(self)@.contains_key(peer@) ==> final(self)@ == old(self)@,
    {
        proof { use_type_invariant(&*self); }
        match self.find(peer) {
            Some(i) => {
                proof { lemma_view_at(self.entries@, i as int); }
                let mut s = self.entries[i].1;
                s.is_healthy = healthy;
                let key = peer.duplicate();
                self.put_at(i, key, s);
            },
            None => {},
        }
    }

    /// Whether `peer` is healthy; a peer the pool has not seen yet is.
    pub fn is_peer_healthy(&self, peer: &PeerKey) -> (b: bool)
        ensures
            b == (!self@.contains_key(peer@) || self@[peer@].is_healthy),
    {
        match self.get(peer) {
            Some(s) => s.is_healthy,
            None => true,
        }
    }

    /// Every tracked peer with its counters.
    pub fn get_stats(&self) -> (v: Vec<(PeerKey, PeerStats)>)
        ensures
            distinct(v@),
            table_view(v@) == self@,
    {
        proof { use_type_invariant(self); }
        let mut v: Vec<(PeerKey, PeerStats)> = Vec::new();
        let mut i: usize = 0;
        while i < self.entries.len()
            invariant
                i <= self.entries@.len(),
                v@.len() == i,
                distinct(self.entries@),
                forall|j: int| 0 <= j < i ==> (#[trigger] v@[j]).0@ == self.entries@[j].0@ && v@[j].1 == self.entries@[j].1,
            decreases self.entries@.len() - i,
        {
            let key = self.entries[i].0.duplicate();
            v.push((key, self.entries[i].1));
            i = i + 1;
        }
        proof {
            assert forall|a: int, b: int|
                0 <= a < v@.len() && 0 <= b < v@.len() && a != b implies (#[trigger] v@[a]).0@ != (#[trigger] v@[b]).0@ by {
                assert(self.entries@[a].0@ != self.entries@[b].0@);
            }
            assert forall|k: Seq<char>| holds(v@, k) <==> holds(self.entries@, k) by {
                if holds(v@, k) {
                    let j = choose|j: int| 0 <= j < v@.len() && (#[trigger] v@[j]).0@ == k;
                    assert(self.entries@[j].0@ == k);
                }
                if holds(self.entries@, k) {
                    let j = choose|j: int| 0 <= j < self.entries@.len() && (#[trigger] self.entries@[j]).0@ == k;
                    assert(v@[j].0@ == k);
                }
            }
            assert forall|k: Seq<char>| #[trigger] table_view(v@).contains_key(k) implies table_view(v@)[k]
                == table_view(self.entries@)[k] by {
                let j = choose|j: int| 0 <= j < v@.len() && (#[trigger] v@[j]).0@ == k;
                assert(self.entries@[j].0@ == k);
                lemma_view_at(v@, j);
                lemma_view_at(self.entries@, j);
            }
            assert(table_view(v@) =~= table_view(self.entries@));
        }
        v
    }
}

/// A slot taken and then given back leaves the peer's active count as it
/// was (zero for a peer the pool had not seen).
pub proof fn law_take_then_close_restores(m: Map<Seq<char>, PeerStats>, k: Seq<char>)
    requires
        m.contains_key(k) ==> m[k].current_active < usize::MAX,
    ensures
        ({
            let before = if m.contains_key(k) { m[k] } else { fresh_stats() };
            after_close(after_take(before)).current_active == before.current_active
        }),
{
}

/// A failed open gives back the slot it took: the active count is where
/// it was before the attempt.
pub proof fn law_failed_open_restores_active(s: PeerStats)
    requires
        s.current_active < usize::MAX,
    ensures
        after_failure(after_take(s)).current_active == s.current_active,
{
}

/// Recording outcomes never changes the health verdict; only
/// `set_healthy` does.
pub proof fn law_outcomes_keep_verdict(s: PeerStats)
    ensures
        after_success(s).is_healthy == s.is_healthy,
        after_failure(s).is_healthy == s.is_healthy,
        after_close(s).is_healthy == s.is_healthy,
{
}

} // verus!
