//! The wall clock that stamps stored events.
use vstd::prelude::*;

verus! {

/// `std::time::SystemTime`, the time at which an event was stored.
#[verifier::external_type_specification]
#[verifier::external_body]
pub struct ExSystemTime(std::time::SystemTime);

/// Calls `std::time::SystemTime::now`. Nothing is claimed of the result: it
/// depends on the machine's clock.
#[verifier::external_body]
pub(crate) fn system_time_now() -> std::time::SystemTime {
    std::time::SystemTime::now()
}

} // verus!
