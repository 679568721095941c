//! Wall-clock readings for timestamps on events and task records.

use std::time::SystemTime;
use vstd::prelude::*;

verus! {

/// `std::time::SystemTime`, a reading of the system clock, held as an opaque value.
#[verifier::external_type_specification]
#[verifier::external_body]
pub struct ExSystemTime(SystemTime);

/// Calls `std::time::SystemTime::now`. The reading depends on the clock, so
/// nothing is promised about the value returned.
#[verifier::external_body]
pub(crate) fn now() -> SystemTime {
    SystemTime::now()
}

/// `Clone::clone` for `SystemTime`: the type is `Copy`, so the clone is the same reading.
pub assume_specification[ <SystemTime as Clone>::clone ](t: &SystemTime) -> (r: SystemTime)
    ensures
        r == *t,
;

} // verus!
