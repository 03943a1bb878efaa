//! A notification-subscription registry: projects that publish, subscribers
//! with a set of enabled notification types, and ephemeral watcher sessions
//! swept once expired. The registry state lives in [`records::Registry`];
//! every operation is one verified transition of it — idempotent upserts
//! keyed on unique columns, atomic replacement of a subscriber's scope set,
//! expiry-driven visibility — and [`laws`] proves the guarantees that span
//! several operations.

pub mod clock;
pub mod codec;
pub mod laws;
pub mod project_store;
pub mod queries;
pub mod records;
pub mod subscriber_store;
pub mod watcher_store;

use vstd::prelude::*;

verus! {

/// Error taxonomy for the registry: lookup misses and constraint violations
/// are distinguished from transport-level failures, which only the I/O layer
/// around this library can produce.
#[derive(Clone, Copy, Debug, PartialEq, Eq, Structural)]
pub enum StoreError {
    NotFound,
    Conflict,
    TransientStoreError,
    FatalStoreError,
}

/// Subscriptions are renewed for thirty days from the moment of the call.
pub const THIRTY_DAYS_SECS: i64 = 2592000;

/// Expiry timestamp granted by a subscriber upsert or update performed at
/// `now`: thirty days later, saturating at the far end of the clock.
pub open spec fn spec_expiry_after(now: i64) -> i64 {
    if now + THIRTY_DAYS_SECS > i64::MAX {
        i64::MAX
    } else {
        (now + THIRTY_DAYS_SECS) as i64
    }
}

pub fn expiry_after(now: i64) -> (r: i64)
    ensures
        r == spec_expiry_after(now),
{
    if now > i64::MAX - THIRTY_DAYS_SECS {
        i64::MAX
    } else {
        now + THIRTY_DAYS_SECS
    }
}

} // verus!
