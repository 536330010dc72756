//! Capped exponential delay schedule.
use std::time::Duration;
use vstd::prelude::*;

use crate::time::{duration_from_nanos, duration_from_nanos_exec, duration_to_nanos, max_duration_nanos};

verus! {

/// Exponential delay schedule, capped. The caller sleeps for `next_delay()`
/// through its clock; the schedule itself holds no clock, so it is pure.
#[derive(Debug, Clone)]
pub struct Backoff {
    initial: u128,
    current: u128,
    factor: u32,
    max: u128,
}

/// The schedule's state, every length in nanoseconds.
pub struct BackoffView {
    pub initial: nat,
    pub current: nat,
    pub factor: nat,
    pub max: nat,
}

/// `a * f`, saturating at the longest representable duration.
pub open spec fn saturating_scale(a: nat, f: nat) -> nat {
    if a * f > max_duration_nanos() {
        max_duration_nanos()
    } else {
        a * f
    }
}

pub open spec fn min_nat(a: nat, b: nat) -> nat {
    if a <= b { a } else { b }
}

impl View for Backoff {
    type V = BackoffView;

    closed spec fn view(&self) -> BackoffView {
        BackoffView {
            initial: self.initial as nat,
            current: self.current as nat,
            factor: self.factor as nat,
            max: self.max as nat,
        }
    }
}

impl Backoff {
    /// Every length fits a `Duration` and the factor is at least one.
    pub open spec fn wf(&self) -> bool {
        &&& self@.initial <= max_duration_nanos()
        &&& self@.current <= max_duration_nanos()
        &&& self@.max <= max_duration_nanos()
        &&& self@.factor >= 1
    }

    /// A schedule starting at `initial`, multiplied by `factor` after each
    /// delay and capped at `max`. A `factor` of zero is treated as one.
    pub fn new(initial: Duration, factor: u32, max: Duration) -> (b: Self)
        ensures
            b.wf(),
            initial == duration_from_nanos(b@.initial),
            b@.current == b@.initial,
            b@.current == current_after(start_of(b@), 0),
            b@.factor == (if factor == 0 { 1 } else { factor as nat }),
            max == duration_from_nanos(b@.max),
            forall|n: nat| n <= max_duration_nanos() && initial == #[trigger] duration_from_nanos(n) ==> b@.initial == n,
            forall|n: nat| n <= max_duration_nanos() && max == #[trigger] duration_from_nanos(n) ==> b@.max == n,
    {
        let i = duration_to_nanos(&initial);
        let m = duration_to_nanos(&max);
        let f = if factor == 0 { 1 } else { factor };
        Backoff { initial: i, current: i, factor: f, max: m }
    }

    /// A schedule given in nanoseconds: starting at `initial`, multiplied
    /// by `factor` after each delay and capped at `max`. A `factor` of zero
    /// is treated as one.
    pub fn from_nanos(initial: u128, factor: u32, max: u128) -> (b: Self)
        requires
            initial <= max_duration_nanos(),
            max <= max_duration_nanos(),
        ensures
            b.wf(),
            b@ == (BackoffView {
                initial: initial as nat,
                current: initial as nat,
                factor: if factor == 0 { 1 } else { factor as nat },
                max: max as nat,
            }),
    {
        let f = if factor == 0 { 1 } else { factor };
        Backoff { initial, current: initial, factor: f, max }
    }

    /// The next delay, `min(current, max)`; the schedule then advances to
    /// `min(current * factor, max)`, saturating rather than overflowing.
    pub fn next_delay(&mut self) -> (delay: Duration)
        requires
            old(self).wf(),
        ensures
            final(self).wf(),
            delay == duration_from_nanos(min_nat(old(self)@.current, old(self)@.max)),
            final(self)@.current == min_nat(
                saturating_scale(old(self)@.current, old(self)@.factor),
                old(self)@.max,
            ),
            delay == duration_from_nanos(delay_after(old(self)@, 0)),
            final(self)@.current == current_after(old(self)@, 1),
            final(self)@.initial == old(self)@.initial,
            final(self)@.factor == old(self)@.factor,
            final(self)@.max == old(self)@.max,
            forall|k: nat| old(self)@.current == #[trigger] current_after(start_of(old(self)@), k) ==> {
                &&& delay == duration_from_nanos(
                    min_nat(scaled_pow(old(self)@.initial, old(self)@.factor, k), old(self)@.max),
                )
                &&& final(self)@.current == current_after(start_of(old(self)@), k + 1)
            },
    {
        let ghost b0 = self@;
        assert(current_after(b0, 0) == b0.current);
        proof {
            assert forall|k: nat| b0.current == #[trigger] current_after(start_of(b0), k) implies
                min_nat(b0.current, b0.max) == min_nat(scaled_pow(b0.initial, b0.factor, k), b0.max) by {
                law_backoff_closed_form(start_of(b0), k);
            }
        }
        let delay_nanos = if self.current <= self.max { self.current } else { self.max };
        let delay = duration_from_nanos_exec(delay_nanos);
        let limit: u128 = 18_446_744_073_709_551_615u128 * 1_000_000_000u128 + 999_999_999u128;
        assert(self.current * self.factor <= limit * 4_294_967_295u128) by (nonlinear_arith)
            requires
                self.current <= limit,
                self.factor <= 4_294_967_295u128,
        ;
        let product = self.current * (self.factor as u128);
        let scaled = if product > limit { limit } else { product };
        self.current = if scaled <= self.max { scaled } else { self.max };
        delay
    }

    /// Return to the initial delay.
    pub fn reset(&mut self)
        requires
            old(self).wf(),
        ensures
            final(self).wf(),
            final(self)@.current == old(self)@.initial,
            final(self)@.current == current_after(start_of(final(self)@), 0),
            final(self)@.initial == old(self)@.initial,
            final(self)@.factor == old(self)@.factor,
            final(self)@.max == old(self)@.max,
    {
        self.current = self.initial;
    }
}

/// The schedule as `new` or `reset` leaves it: back at its initial length.
pub open spec fn start_of(b: BackoffView) -> BackoffView {
    BackoffView { current: b.initial, ..b }
}

/// The schedule's current length after `k` delays.
pub open spec fn current_after(b: BackoffView, k: nat) -> nat
    decreases k,
{
    if k == 0 {
        b.current
    } else {
        min_nat(saturating_scale(current_after(b, (k - 1) as nat), b.factor), b.max)
    }
}

/// The `k`-th delay (from zero) of the schedule.
pub open spec fn delay_after(b: BackoffView, k: nat) -> nat {
    min_nat(current_after(b, k), b.max)
}

/// `i` multiplied by `g`, `k` times, saturating at the longest duration.
pub open spec fn scaled_pow(i: nat, g: nat, k: nat) -> nat
    decreases k,
{
    if k == 0 {
        i
    } else {
        saturating_scale(scaled_pow(i, g, (k - 1) as nat), g)
    }
}

proof fn lemma_scale_grows(a: nat, g: nat)
    requires
        a <= max_duration_nanos(),
        g >= 1,
    ensures
        a <= saturating_scale(a, g) <= max_duration_nanos(),
{
    assert(a * g >= a) by (nonlinear_arith)
        requires
            g >= 1,
    ;
}

proof fn lemma_scale_mono(a: nat, b: nat, g: nat)
    requires
        a <= b,
    ensures
        saturating_scale(a, g) <= saturating_scale(b, g),
{
    assert(a * g <= b * g) by (nonlinear_arith)
        requires
            a <= b,
    ;
}

proof fn lemma_current_closed(b: BackoffView, k: nat)
    requires
        b.current <= max_duration_nanos(),
        b.max <= max_duration_nanos(),
        b.factor >= 1,
    ensures
        scaled_pow(b.current, b.factor, k) <= max_duration_nanos(),
        k > 0 ==> current_after(b, k) == min_nat(scaled_pow(b.current, b.factor, k), b.max),
    decreases k,
{
    if k > 0 {
        let k1 = (k - 1) as nat;
        lemma_current_closed(b, k1);
        let p = scaled_pow(b.current, b.factor, k1);
        lemma_scale_grows(p, b.factor);
        let c = current_after(b, k1);
        if k1 > 0 {
            if p <= b.max {
            } else {
                lemma_scale_grows(b.max, b.factor);
                lemma_scale_mono(b.max, p, b.factor);
            }
        }
    } else {
    }
}

/// The schedule in closed form: the `k`-th delay is the starting length
/// multiplied by the factor `k` times (saturating), capped at the maximum.
pub proof fn law_backoff_closed_form(b: BackoffView, k: nat)
    requires
        b.current <= max_duration_nanos(),
        b.max <= max_duration_nanos(),
        b.factor >= 1,
    ensures
        delay_after(b, k) == min_nat(scaled_pow(b.current, b.factor, k), b.max),
{
    lemma_current_closed(b, k);
}

/// Delays never shrink and never exceed the cap.
pub proof fn law_backoff_monotone(b: BackoffView, k: nat)
    requires
        b.current <= max_duration_nanos(),
        b.max <= max_duration_nanos(),
        b.factor >= 1,
    ensures
        delay_after(b, k) <= delay_after(b, k + 1),
        delay_after(b, k + 1) <= b.max,
{
    lemma_current_closed(b, k);
    lemma_current_closed(b, k + 1);
    lemma_scale_grows(scaled_pow(b.current, b.factor, k), b.factor);
}

/// A factor of zero behaves as one: the two schedules agree at every step
/// (each delay is the starting length, capped).
pub proof fn law_factor_zero_is_one(current: nat, max: nat, k: nat)
    requires
        current <= max_duration_nanos(),
        max <= max_duration_nanos(),
    ensures
        delay_after(BackoffView { initial: current, current, factor: 1, max }, k) == min_nat(current, max),
    decreases k,
{
    let b = BackoffView { initial: current, current, factor: 1, max };
    lemma_current_closed(b, k);
    lemma_scaled_pow_one(current, k);
}

proof fn lemma_scaled_pow_one(i: nat, k: nat)
    requires
        i <= max_duration_nanos(),
    ensures
        scaled_pow(i, 1, k) == i,
    decreases k,
{
    if k > 0 {
        lemma_scaled_pow_one(i, (k - 1) as nat);
    }
}

/// Successive calls compose: the schedule left by one `next_delay` gives,
/// at its `k`-th delay, the original schedule's `k + 1`-th. So after `new`
/// or `reset` (current = initial), the `k`-th call returns
/// `delay_after(b, k)`, which `law_backoff_closed_form` gives in closed form.
pub proof fn law_backoff_shift(b: BackoffView, k: nat)
    ensures
        current_after(BackoffView { current: current_after(b, 1), ..b }, k) == current_after(b, k + 1),
        delay_after(BackoffView { current: current_after(b, 1), ..b }, k) == delay_after(b, k + 1),
    decreases k,
{
    if k > 0 {
        law_backoff_shift(b, (k - 1) as nat);
    }
}

} // verus!
