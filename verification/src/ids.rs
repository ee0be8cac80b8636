//! Random record identifiers, behind a trusted wrapper.

use vstd::prelude::*;

verus! {

/// Relies on bson's `Uuid::new` (a random version-4 UUID) and `Uuid::bytes`:
/// a freshly generated identifier, carried as its sixteen bytes in one
/// integer. Nothing is promised of the value; it is random.
#[verifier::external_body]
pub(crate) fn fresh_uuid() -> u128 {
    u128::from_be_bytes(bson::Uuid::new().bytes())
}

} // verus!
