//! The clock that times out a pending chord.

use vstd::prelude::*;

verus! {

#[verifier::external_type_specification]
#[verifier::external_body]
pub struct ExInstant(std::time::Instant);

/// Calls `Instant::now`. What comes back depends on when it is called, so
/// the contract claims nothing of it.
#[verifier::external_body]
pub(crate) fn now() -> (t: std::time::Instant) {
    std::time::Instant::now()
}

/// Calls `Instant::elapsed`: the time that has passed since `start`, or
/// zero where `start` lies in the future. It depends on when it is called,
/// so the contract claims nothing of it.
#[verifier::external_body]
pub(crate) fn elapsed_since(start: &std::time::Instant) -> (d: std::time::Duration) {
    start.elapsed()
}

/// Calls `Duration::as_millis`: the whole milliseconds in a duration.
#[verifier::external_body]
pub(crate) fn whole_millis(d: &std::time::Duration) -> (ms: u128) {
    d.as_millis()
}

} // verus!
