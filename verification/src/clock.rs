//! The system clock. What the clock shows is not known to the verifier:
//! nothing is claimed of any reading.

use vstd::prelude::*;
use std::time::{Duration, Instant, SystemTime};

verus! {

/// `std::time::SystemTime`, a reading of the system clock.
#[verifier::external_type_specification]
#[verifier::external_body]
pub struct ExSystemTime(SystemTime);

/// `std::time::Instant`, a reading of the monotonic clock.
#[verifier::external_type_specification]
#[verifier::external_body]
pub struct ExInstant(Instant);

/// `Instant::now`: the time that the monotonic clock shows. Nothing is
/// claimed of it.
#[verifier::external_body]
pub(crate) fn instant_now() -> Instant {
    Instant::now()
}

/// `Instant::elapsed`: the time that has passed since the instant. Nothing
/// is claimed of it.
#[verifier::external_body]
pub(crate) fn elapsed(since: &Instant) -> Duration {
    since.elapsed()
}

/// `Duration::as_secs`: the whole seconds of a duration. Nothing is claimed
/// of it.
#[verifier::external_body]
pub(crate) fn whole_secs(duration: &Duration) -> u64 {
    duration.as_secs()
}

/// `SystemTime::now`: the time that the system clock shows. Nothing is
/// claimed of it.
#[verifier::external_body]
pub(crate) fn now() -> SystemTime {
    SystemTime::now()
}

/// `SystemTime::UNIX_EPOCH`: the start of 1970, from which the system
/// clock counts. Nothing is claimed of it.
#[verifier::external_body]
pub(crate) fn epoch() -> SystemTime {
    SystemTime::UNIX_EPOCH
}

/// `SystemTime::duration_since`: the time from `earlier` to `later`, or
/// nothing where the clock went backwards between the two. Nothing is
/// claimed of it.
#[verifier::external_body]
pub(crate) fn duration_between(later: &SystemTime, earlier: &SystemTime) -> Option<Duration> {
    later.duration_since(*earlier).ok()
}

/// `Duration::as_micros`: the whole microseconds of a duration. Nothing is
/// claimed of it.
#[verifier::external_body]
pub(crate) fn whole_micros(duration: &Duration) -> u128 {
    duration.as_micros()
}

/// `Duration::as_millis`: the whole milliseconds of a duration. Nothing is
/// claimed of it.
#[verifier::external_body]
pub(crate) fn whole_millis(duration: &Duration) -> u128 {
    duration.as_millis()
}

/// Whether one time is later than another, in the order that `SystemTime`
/// has.
pub uninterp spec fn later(a: SystemTime, b: SystemTime) -> bool;

/// The order of `SystemTime`: whether `a` is later than `b`. The order is
/// that of the two times alone; what the clock shows has no part in it.
#[verifier::external_body]
pub(crate) fn is_later(a: &SystemTime, b: &SystemTime) -> (r: bool)
    ensures
        r == later(*a, *b),
{
    a > b
}

} // verus!
