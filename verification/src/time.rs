//! Durations and wall-clock time as plain values.
use std::time::Duration;
use vstd::prelude::*;

verus! {

/// Nanoseconds in one second.
pub const NANOS_PER_SEC: u64 = 1_000_000_000;

/// The longest `Duration`, in nanoseconds: `u64::MAX` seconds plus
/// 999 999 999 nanoseconds.
pub open spec fn max_duration_nanos() -> nat {
    (u64::MAX as nat) * 1_000_000_000 + 999_999_999
}

/// The `Duration` that `Duration::new(secs, nanos)` builds.
pub uninterp spec fn duration_of(secs: u64, nanos: u32) -> Duration;

/// The `Duration` whose length is `n` nanoseconds.
pub open spec fn duration_from_nanos(n: nat) -> Duration {
    duration_of((n / 1_000_000_000) as u64, (n % 1_000_000_000) as u32)
}

/// Trusted: `std::time::Duration::new`. For `nanos` below one second it
/// neither carries nor panics, and builds the duration `secs` seconds plus
/// `nanos` nanoseconds long.
#[verifier::external_body]
fn std_duration_new(secs: u64, nanos: u32) -> (d: Duration)
    requires
        nanos < 1_000_000_000,
    ensures
        d == duration_of(secs, nanos),
{
    Duration::new(secs, nanos)
}

/// Trusted: `Duration::as_secs` and `Duration::subsec_nanos`. The
/// whole seconds and the fractional nanoseconds of `d`, which rebuild `d`
/// through `Duration::new`; for a duration built by `Duration::new(secs,
/// nanos)` with `nanos` below one second they are `secs` and `nanos`.
#[verifier::external_body]
fn std_duration_parts(d: &Duration) -> (parts: (u64, u32))
    ensures
        parts.1 < 1_000_000_000,
        *d == duration_of(parts.0, parts.1),
        forall|secs: u64, nanos: u32| nanos < 1_000_000_000 && *d == #[trigger] duration_of(secs, nanos) ==> parts == (secs, nanos),
{
    (d.as_secs(), d.subsec_nanos())
}

/// The length of `d` in nanoseconds: the one length whose duration is `d`.
pub fn duration_to_nanos(d: &Duration) -> (n: u128)
    ensures
        n as nat <= max_duration_nanos(),
        *d == duration_from_nanos(n as nat),
        forall|m: nat| m <= max_duration_nanos() && *d == #[trigger] duration_from_nanos(m) ==> m == n,
{
    let (secs, nanos) = std_duration_parts(d);
    let n = (secs as u128) * (NANOS_PER_SEC as u128) + (nanos as u128);
    assert(n as nat / 1_000_000_000 == secs && n as nat % 1_000_000_000 == nanos) by (nonlinear_arith)
        requires
            n == (secs as u128) * 1_000_000_000 + (nanos as u128),
            nanos < 1_000_000_000,
    ;
    assert forall|m: nat| m <= max_duration_nanos() && *d == #[trigger] duration_from_nanos(m) implies m == n by {
        let s = (m / 1_000_000_000) as u64;
        let f = (m % 1_000_000_000) as u32;
        assert(m / 1_000_000_000 <= u64::MAX) by (nonlinear_arith)
            requires
                m <= (u64::MAX as nat) * 1_000_000_000 + 999_999_999,
        ;
        assert(*d == duration_of(s, f));
        assert((s, f) == (secs, nanos));
        assert(m == (m / 1_000_000_000) * 1_000_000_000 + m % 1_000_000_000) by (nonlinear_arith);
    }
    n
}

/// The duration `n` nanoseconds long.
pub fn duration_from_nanos_exec(n: u128) -> (d: Duration)
    requires
        n as nat <= max_duration_nanos(),
    ensures
        d == duration_from_nanos(n as nat),
{
    let secs = n / (NANOS_PER_SEC as u128);
    let nanos = n % (NANOS_PER_SEC as u128);
    assert(secs <= u64::MAX) by (nonlinear_arith)
        requires
            n <= (u64::MAX as nat) * 1_000_000_000 + 999_999_999,
            secs == n / 1_000_000_000,
    ;
    std_duration_new(secs as u64, nanos as u32)
}

} // verus!

verus! {

/// Trusted: `chrono::Utc::now`, read as microseconds since the Unix
/// epoch (`DateTime::timestamp_micros`). The wall clock: nothing is
/// promised of the value.
#[verifier::external_body]
pub(crate) fn now_unix_micros() -> (t: i64) {
    chrono::Utc::now().timestamp_micros()
}

} // verus!
