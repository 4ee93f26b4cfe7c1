//! Minting of identifiers and timestamps.
//!
//! Identifiers are the 128-bit value of a version-4 UUID; timestamps are
//! milliseconds since the Unix epoch.  Both depend on the outside world
//! (randomness, the clock), so nothing is promised of their values.

use vstd::prelude::*;

verus! {

/// Relies on uuid::Uuid::new_v4: a freshly drawn random identifier.
/// Randomness promises nothing; callers treat the value as arbitrary.
#[verifier::external_body]
pub fn fresh_id() -> u128 {
    uuid::Uuid::new_v4().as_u128()
}

/// Relies on std::time::SystemTime::now: the current time in milliseconds
/// since the Unix epoch.  The clock promises nothing; callers treat the
/// value as arbitrary.
#[verifier::external_body]
pub fn now_millis() -> i64 {
    match std::time::SystemTime::now().duration_since(std::time::UNIX_EPOCH) {
        Ok(d) => d.as_millis() as i64,
        Err(_) => 0,
    }
}

} // verus!
