use vstd::prelude::*;

verus! {

/// Relies on time::precise_time_ns: a reading of the monotonic clock in nanoseconds since
/// an unspecified origin. Nothing is promised of the value.
#[verifier::external_body]
pub(crate) fn clock_reading() -> (r: u64) {
    time::precise_time_ns()
}

} // verus!
