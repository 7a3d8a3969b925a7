//! The monotonic clock of the standard library, for the solvers' cooldowns.

use std::time::Instant;
use vstd::prelude::*;

verus! {

/// `std::time::Instant`, carried through as an opaque value.
#[verifier::external_type_specification]
#[verifier::external_body]
pub struct ExInstant(Instant);

/// Calls `Instant::now()`. Nothing is claimed of the result: it is the time
/// of the call.
#[verifier::external_body]
pub(crate) fn now() -> Instant {
    Instant::now()
}

/// Calls `Instant::elapsed` on `since` and gives the elapsed time in
/// nanoseconds (`Duration::as_nanos`). Nothing is claimed of the result: it
/// depends on when the call is made.
#[verifier::external_body]
pub(crate) fn nanos_since(since: &Instant) -> u128 {
    since.elapsed().as_nanos()
}

} // verus!
