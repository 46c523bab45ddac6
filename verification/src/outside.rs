//! Trusted wrappers around the outside crates the store leans on: the system
//! clock and the random id generator. Nothing can be promised of either
//! result, so their contracts say nothing; callers state what holds of every
//! outcome.

use vstd::prelude::*;

verus! {

/// Relies on chrono's `Utc::now` and `DateTime::timestamp_millis`: the
/// current wall-clock instant as milliseconds since the Unix epoch. The
/// result depends on the clock, so nothing is promised of it.
#[verifier::external_body]
pub(crate) fn now_millis() -> i64 {
    chrono::Utc::now().timestamp_millis()
}

/// Relies on uuid's `Uuid::new_v4` and `Uuid::as_u128`: a freshly drawn
/// random 128-bit id. The result is random, so nothing is promised of it.
#[verifier::external_body]
pub(crate) fn new_random_id() -> u128 {
    uuid::Uuid::new_v4().as_u128()
}

} // verus!
