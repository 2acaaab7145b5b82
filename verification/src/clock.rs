//! Readings of the monotonic clock.
//!
//! A reading is carried along as it is; nothing is known of it. Functions that
//! depend on how much time has passed take that as a number.

use vstd::prelude::*;
use web_time::Instant;

verus! {

/// `web_time::Instant`, a reading of the monotonic clock.
#[verifier::external_type_specification]
#[verifier::external_body]
pub struct ExInstant(web_time::Instant);

/// `web_time::Instant::now`: a reading of the clock. Nothing is claimed of it.
#[verifier::external_body]
pub(crate) fn now() -> (t: Instant) {
    Instant::now()
}

/// `web_time::Instant::elapsed`: the time since an earlier reading, in
/// nanoseconds. Nothing is claimed of it.
#[verifier::external_body]
pub(crate) fn elapsed_nanos(since: &Instant) -> (ns: u128) {
    since.elapsed().as_nanos()
}

} // verus!
