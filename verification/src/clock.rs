//! The monotonic clock of the standard library, as far as the registry reads
//! it. Nothing is claimed of a reading: whatever the clock says, the registry
//! is verified for it.

use vstd::prelude::*;

verus! {

/// `std::time::Instant`, a point on the monotonic clock. Opaque to the
/// verifier.
#[verifier::external_type_specification]
#[verifier::external_body]
pub struct ExInstant(std::time::Instant);

/// `Instant::now` returns the current point on the monotonic clock. Nothing
/// is assumed of it.
pub assume_specification[ std::time::Instant::now ]() -> (now: std::time::Instant)
;

/// `Instant::elapsed` returns the time that has passed since the instant.
/// Nothing is assumed of it.
pub assume_specification[ std::time::Instant::elapsed ](instant: &std::time::Instant) -> (elapsed:
    std::time::Duration)
;

/// `Duration::as_millis` returns the whole milliseconds of the duration.
/// Nothing is assumed of the number.
pub assume_specification[ std::time::Duration::as_millis ](duration: &std::time::Duration) -> (millis:
    u128)
;

} // verus!
