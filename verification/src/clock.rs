//! Moments of the monotonic clock.

use vstd::prelude::*;

verus! {

/// A moment of the monotonic clock.
#[verifier::external_type_specification]
#[verifier::external_body]
pub struct ExInstant(std::time::Instant);

/// `Instant::now` reads the clock; nothing is claimed of the moment it gives.
pub assume_specification[ std::time::Instant::now ]() -> (r: std::time::Instant)
;

/// `Instant::elapsed` measures the time since a moment; nothing is claimed of it, for it rests on
/// the clock.
pub assume_specification[ std::time::Instant::elapsed ](moment: &std::time::Instant) -> (r:
    std::time::Duration)
;

/// `Duration::as_micros` counts whole microseconds; a duration is opaque here, so nothing is
/// claimed of the count.
pub assume_specification[ std::time::Duration::as_micros ](d: &std::time::Duration) -> (r: u128)
;

/// The microseconds since a moment.
pub(crate) fn micros_since(moment: &std::time::Instant) -> (r: u128) {
    moment.elapsed().as_micros()
}

} // verus!
