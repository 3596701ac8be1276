//! The wall clock of the standard library, as far as the sequencer reads it.
//!
//! Nothing is claimed of what the clock says: the sequencer is verified for
//! every reading.

use std::time::{Duration, Instant};
use vstd::prelude::*;

verus! {

/// `std::time::Instant`: a reading of the monotonic clock. Its contents are
/// hidden; it is only handed back to the clock.
#[verifier::external_type_specification]
#[verifier::external_body]
pub struct ExInstant(Instant);

/// `Instant::now` reads the clock. The reading may be anything.
pub assume_specification[ Instant::now ]() -> (now: Instant)
;

/// `Instant::elapsed` gives the time since the reading was taken. It may
/// be anything.
pub assume_specification[ Instant::elapsed ](since: &Instant) -> (elapsed: Duration)
;

/// `Duration::as_nanos` gives the whole span in nanoseconds. Which number
/// belongs to which span is not stated.
pub assume_specification[ Duration::as_nanos ](span: &Duration) -> (nanos: u128)
;

} // verus!
