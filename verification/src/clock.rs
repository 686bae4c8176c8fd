//! The wall clock, behind trusted wrappers: the one thing the scan
//! executor reports that is not a function of its inputs. Nothing is
//! promised of the values, so no proof rests on them.

use vstd::prelude::*;

verus! {

#[verifier::external_type_specification]
#[verifier::external_body]
pub struct ExInstant(std::time::Instant);

/// Relies on std::time::Instant::now: an opaque monotonic timestamp;
/// which instant comes back depends on the machine, so nothing is stated.
#[verifier::external_body]
pub(crate) fn clock_now() -> std::time::Instant {
    std::time::Instant::now()
}

/// Relies on std::time::Instant::elapsed: the time since `start`, here
/// converted to whole milliseconds and truncated to 64 bits; the value
/// depends on the clock, so nothing is stated.
#[verifier::external_body]
pub(crate) fn elapsed_ms(start: &std::time::Instant) -> u64 {
    start.elapsed().as_millis() as u64
}

} // verus!
