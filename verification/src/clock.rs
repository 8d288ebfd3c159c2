//! The time of the system clock.
use std::time::SystemTime;
use std::time::UNIX_EPOCH;
use vstd::prelude::*;

verus! {

/// The time by `SystemTime::now`, as the seconds since `UNIX_EPOCH` and the
/// nanoseconds of the second; none where the clock is set before the epoch.
/// Nothing is known of the numbers: the clock may say anything, and two calls
/// may say the same or go backwards.
#[verifier::external_body]
pub(crate) fn since_epoch() -> Option<(u64, u32)> {
    SystemTime::now().duration_since(UNIX_EPOCH).ok().map(|d| (d.as_secs(), d.subsec_nanos()))
}

} // verus!
