use vstd::prelude::*;

verus! {

/// Relies on `std::time::SystemTime::now`: a fresh reading of the wall
/// clock on every call, reduced to whole nanoseconds since the Unix epoch.
/// Nothing is assumed of the reading; every caller states what holds of its
/// result whatever value came back.
#[verifier::external_body]
pub(crate) fn clock_now() -> u64 {
    match std::time::SystemTime::now().duration_since(std::time::UNIX_EPOCH) {
        Ok(d) => d.as_nanos() as u64,
        Err(_) => 0,
    }
}

} // verus!
