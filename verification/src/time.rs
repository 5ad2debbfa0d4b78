//! The one clock access of the library.

use vstd::prelude::*;

verus! {

/// Relies on `chrono::Utc::now` / `chrono::DateTime::timestamp`: the current
/// wall-clock time in whole seconds since the Unix epoch.  The clock is an
/// environment reading, so nothing is assumed about the returned value; every
/// function that depends on it takes the timestamp as an argument and is
/// verified for all values.
#[verifier::external_body]
pub fn now_timestamp() -> i64 {
    chrono::Utc::now().timestamp()
}

} // verus!
