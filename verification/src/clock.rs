//! The wall clock.

use vstd::prelude::*;

verus! {

/// Reads the clock through `chrono::Utc::now` and `DateTime::timestamp`:
/// whole seconds since the Unix epoch.
///
/// Trusted, and nothing is claimed of the value: it is whatever the system
/// clock says at the moment of the call.
#[verifier::external_body]
pub(crate) fn unix_now() -> u64 {
    chrono::Utc::now().timestamp() as u64
}

} // verus!
