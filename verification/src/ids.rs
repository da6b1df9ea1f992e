//! Fresh identifiers and the wall clock: values that rest on chance and
//! time, of which nothing is stated.

use vstd::prelude::*;
use uuid::Uuid;
use chrono::Utc;

verus! {

/// `Uuid::new_v4`: a random identifier, as its 128-bit value.
#[verifier::external_body]
pub(crate) fn fresh_id() -> (r: u128) {
    Uuid::new_v4().as_u128()
}

/// `Utc::now`, in microseconds since the Unix epoch.
#[verifier::external_body]
pub(crate) fn now_micros() -> (r: i64) {
    Utc::now().timestamp_micros()
}

/// `Utc::now`, in milliseconds since the Unix epoch.
#[verifier::external_body]
pub(crate) fn now_millis() -> (r: i64) {
    Utc::now().timestamp_millis()
}

} // verus!
