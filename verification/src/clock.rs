//! The wall clock, for the operations that stamp or compare expiry times
//! themselves rather than taking the moment of the call as an argument.

use vstd::prelude::*;

verus! {

/// Relies on `chrono::Utc::now` (and `DateTime::timestamp`): the current time
/// as whole seconds since the Unix epoch. Nothing can be promised of a
/// clock's reading.
#[verifier::external_body]
pub(crate) fn now_unix() -> i64 {
    chrono::Utc::now().timestamp()
}

} // verus!
