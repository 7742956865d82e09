//! The wall clock. Every decision in the library takes the time as an
//! argument; only the operations that must record "now" read it here.

use vstd::prelude::*;

verus! {

/// The current time in whole unix seconds.
///
/// Relies on time's `OffsetDateTime::now_utc` and `unix_timestamp`: the
/// system clock, so nothing is promised of the value.
#[verifier::external_body]
pub(crate) fn unix_now() -> i64 {
    time::OffsetDateTime::now_utc().unix_timestamp()
}

} // verus!
