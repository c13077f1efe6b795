//! Lengths of time, as whole nanoseconds.

use std::time::Duration;

use vstd::prelude::*;

verus! {

/// Nanoseconds in one second.
pub const NANOS_PER_SEC: u128 = 1_000_000_000;

/// The longest `Duration`, in nanoseconds: `u64::MAX` seconds and 999,999,999 nanoseconds.
pub const MAX_DURATION_NANOS: u128 = 18_446_744_073_709_551_615_999_999_999;

/// The length of a `Duration` in nanoseconds, as `Duration::as_nanos` returns it.
pub uninterp spec fn duration_nanos(duration: Duration) -> nat;

/// `Duration::from_secs`: the duration is that many whole seconds.
pub assume_specification[ Duration::from_secs ](secs: u64) -> (duration: Duration)
    ensures
        duration_nanos(duration) == secs * 1_000_000_000,
;

/// `Duration::new`: the duration is the seconds and the nanoseconds together. With less than a
/// second of nanoseconds there is nothing to carry, so the call does not panic.
pub assume_specification[ Duration::new ](secs: u64, nanos: u32) -> (duration: Duration)
    requires
        nanos < 1_000_000_000,
    ensures
        duration_nanos(duration) == secs * 1_000_000_000 + nanos,
;

/// `Duration::as_nanos`: the whole length in nanoseconds, which is at most that of `Duration::MAX`.
pub assume_specification[ Duration::as_nanos ](duration: &Duration) -> (nanos: u128)
    ensures
        nanos == duration_nanos(*duration),
        nanos <= MAX_DURATION_NANOS,
;

/// What `SystemTime::elapsed` of the Unix epoch may return, `None` standing for the error: a reading
/// of the clock of the machine. There may be several, and nothing is said of which ones.
pub uninterp spec fn clock_may_show(elapsed: Option<Duration>) -> bool;

/// `SystemTime::elapsed` of the Unix epoch: the time since then, by the clock of the machine, or
/// `None` if that clock stands before it. Nothing is said of what the clock shows.
#[verifier::external_body]
pub(crate) fn since_unix_epoch() -> (elapsed: Option<Duration>)
    ensures
        clock_may_show(elapsed),
{
    std::time::UNIX_EPOCH.elapsed().ok()
}

/// The length of a number of nanoseconds, cut off at the longest `Duration`.
pub open spec fn capped_nanos(nanos: nat) -> nat {
    if nanos <= MAX_DURATION_NANOS {
        nanos
    } else {
        MAX_DURATION_NANOS as nat
    }
}

/// The duration of so many nanoseconds, or the longest `Duration` if there are more.
pub fn from_nanos(nanos: u128) -> (duration: Duration)
    ensures
        duration_nanos(duration) == capped_nanos(nanos as nat),
        nanos <= 18_446_744_073_709_551_615_999_999_999 ==> duration_nanos(duration) == nanos,
        nanos > 18_446_744_073_709_551_615_999_999_999 ==> duration_nanos(duration)
            == 18_446_744_073_709_551_615_999_999_999,
{
    if nanos > MAX_DURATION_NANOS {
        return Duration::new(18_446_744_073_709_551_615, 999_999_999);
    }
    let secs: u128 = nanos / NANOS_PER_SEC;
    let rest: u128 = nanos % NANOS_PER_SEC;
    Duration::new(secs as u64, rest as u32)
}

} // verus!
