//! Wall-clock readings for transfer rates. Nothing is known of them but
//! their type: the time is the machine's.
use std::time::{Duration, Instant};
use vstd::prelude::*;

verus! {

/// `std::time::Instant`, carried through opaquely.
#[verifier::external_type_specification]
#[verifier::external_body]
pub struct ExInstant(std::time::Instant);

/// `Instant::now`. The reading depends on the clock alone.
#[verifier::external_body]
pub(crate) fn instant_now() -> Instant {
    Instant::now()
}

/// `Instant::duration_since`: the time from `earlier` to `later` (zero when
/// `later` is not after `earlier`).
#[verifier::external_body]
pub(crate) fn elapsed_between(earlier: &Instant, later: &Instant) -> Duration {
    later.duration_since(*earlier)
}

/// `Duration::as_micros`.
#[verifier::external_body]
pub(crate) fn duration_micros(d: &Duration) -> u128 {
    d.as_micros()
}

/// A count of microseconds as a `u64`, capped at `u64::MAX`.
pub(crate) fn cap_micros(m: u128) -> (r: u64)
    ensures
        r == if m > u64::MAX {
            u64::MAX as int
        } else {
            m as int
        },
{
    if m > 0xFFFF_FFFF_FFFF_FFFFu128 {
        0xFFFF_FFFF_FFFF_FFFFu64
    } else {
        m as u64
    }
}

/// Whole microseconds from `earlier` to `later`, capped at `u64::MAX`. The
/// reading is the clock's, so nothing is stated of the result.
pub(crate) fn micros_between(earlier: &Instant, later: &Instant) -> u64 {
    let d = elapsed_between(earlier, later);
    cap_micros(duration_micros(&d))
}

} // verus!
