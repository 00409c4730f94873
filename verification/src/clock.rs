//! Readings of the clock.
//!
//! What the clock says depends on when it is asked, so nothing is claimed of
//! a reading. The functions of the session that need one take it from here
//! and hand it to a function that is proved for every value of it.

use tokio::time::Instant;
use vstd::prelude::*;

verus! {

#[verifier::external_type_specification]
#[verifier::external_body]
pub struct ExInstant(Instant);

/// Calls `Instant::now`. Nothing is claimed of the instant that comes back.
#[verifier::external_body]
pub(crate) fn now() -> (instant: Instant) {
    Instant::now()
}

/// Calls `Instant::elapsed` and gives the whole milliseconds that have gone
/// by since the instant, cut to 64 bits. Nothing is claimed of the number.
#[verifier::external_body]
pub(crate) fn elapsed_ms(since: &Instant) -> (ms: u64) {
    since.elapsed().as_millis() as u64
}

} // verus!
