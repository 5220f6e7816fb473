//! The clock: the only place where the current time is read.
use instant::Instant;
use vstd::prelude::*;

verus! {

#[verifier::external_type_specification]
#[verifier::external_body]
pub struct ExInstant(Instant);

/// Relies on `instant::Instant::now`: it reads the clock, so nothing is known
/// of the value it returns.
#[verifier::external_body]
pub(crate) fn now() -> (r: Instant) {
    Instant::now()
}

/// Relies on `instant::Instant::elapsed`, read in nanoseconds with
/// `Duration::as_nanos`: the time since `start`, which depends on the clock.
#[verifier::external_body]
pub(crate) fn elapsed_nanos(start: &Instant) -> (r: u128) {
    start.elapsed().as_nanos()
}

} // verus!
