//! A clock for driving the connect flow in tests: it sleeps instantly and
//! records every sleep.
use std::time::Duration;
use vstd::prelude::*;

verus! {

/// Something that can wait.
pub trait Clock {
    fn sleep(&mut self, d: Duration);
}

/// A clock that records the sleeps asked of it instead of sleeping.
pub struct FakeClock {
    sleeps: Vec<Duration>,
}

impl FakeClock {
    /// The sleeps recorded so far, in order.
    pub closed spec fn recorded(&self) -> Seq<Duration> {
        self.sleeps@
    }

    /// A clock with no sleeps recorded.
    pub fn new() -> (c: FakeClock)
        ensures
            c.recorded() == Seq::<Duration>::empty(),
    {
        FakeClock { sleeps: Vec::new() }
    }

    /// Record a sleep of `d`.
    pub fn record(&mut self, d: Duration)
        ensures
            final(self).recorded() == old(self).recorded().push(d),
    {
        self.sleeps.push(d);
    }

    /// The sleeps recorded so far, in order.
    pub fn sleeps(&self) -> (v: Vec<Duration>)
        ensures
            v@ == self.recorded(),
    {
        let mut v: Vec<Duration> = Vec::new();
        let mut i: usize = 0;
        while i < self.sleeps.len()
            invariant
                i <= self.sleeps.len(),
                v@ == self.sleeps@.subrange(0, i as int),
            decreases self.sleeps.len() - i,
        {
            v.push(self.sleeps[i]);
            i = i + 1;
            assert(v@ =~= self.sleeps@.subrange(0, i as int));
        }
        assert(self.sleeps@.subrange(0, self.sleeps@.len() as int) =~= self.sleeps@);
        v
    }
}

impl Clock for FakeClock {
    fn sleep(&mut self, d: Duration)
        ensures
            final(self).recorded() == old(self).recorded().push(d),
    {
        self.sleeps.push(d);
    }
}

/// The record after sleeping each of `ds`, in order, with `record` holding
/// what was recorded before (each sleep appends, as `Clock::sleep` does).
pub open spec fn after_sleeps(record: Seq<Duration>, ds: Seq<Duration>) -> Seq<Duration>
    decreases ds.len(),
{
    if ds.len() == 0 {
        record
    } else {
        after_sleeps(record, ds.drop_last()).push(ds.last())
    }
}

/// A fresh clock asked to sleep `d1, ..., dn` records exactly those
/// sleeps, in call order.
pub proof fn law_sleeps_in_call_order(ds: Seq<Duration>)
    ensures
        after_sleeps(Seq::empty(), ds) == ds,
    decreases ds.len(),
{
    if ds.len() > 0 {
        law_sleeps_in_call_order(ds.drop_last());
        assert(ds.drop_last().push(ds.last()) =~= ds);
    }
}

} // verus!
