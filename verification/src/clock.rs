//! The wall clock.

use vstd::prelude::*;

verus! {

/// `time::OffsetDateTime::now_utc` followed by `unix_timestamp_nanos`: the current
/// time in nanoseconds since the Unix epoch. Nothing is promised of a clock reading.
#[verifier::external_body]
pub(crate) fn now_nanos() -> i128 {
    time::OffsetDateTime::now_utc().unix_timestamp_nanos()
}

} // verus!
