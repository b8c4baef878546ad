//! Values drawn from the environment: fresh order identifiers, random draws
//! and clock readings.  Each call's result depends on chance or on the
//! machine, so nothing is promised of the values; every function of the
//! library that takes one states what holds whatever came back.

use vstd::prelude::*;

verus! {

/// Relies on uuid::Uuid::new_v4 and Uuid::as_u128: a freshly generated
/// version-4 identifier, carried as its 128-bit value.  The identifier is
/// random, so nothing is promised of it — in particular not uniqueness, which
/// callers check against their own tables.
#[verifier::external_body]
pub fn fresh_order_id() -> u128 {
    uuid::Uuid::new_v4().as_u128()
}

/// Relies on rand::random: one uniformly drawn 32-bit value.  Random, so
/// nothing is promised of it.
#[verifier::external_body]
pub fn random_u32() -> u32 {
    rand::random::<u32>()
}

/// Relies on chrono::Utc::now and DateTime::format: the current UTC time
/// written as `YYYY-MM-DD-HH-MM-SS`.  The result depends on the clock, so
/// nothing is promised of it.
#[verifier::external_body]
pub fn timestamp_string() -> String {
    chrono::Utc::now().format("%Y-%m-%d-%H-%M-%S").to_string()
}

} // verus!
