//! The two values the relay draws from outside its own state: the current
//! time and fresh packet identifiers.
use vstd::prelude::*;

verus! {

/// Relies on `chrono::Utc::now` and `DateTime::timestamp`: the current UTC
/// time in whole seconds since the Unix epoch. Nothing is known of its value.
#[verifier::external_body]
pub(crate) fn now_seconds() -> (r: i64) {
    chrono::Utc::now().timestamp()
}

/// Relies on `uuid::Uuid::new_v4` and `Uuid::as_u128`: a random version-4
/// UUID as its 128-bit value. Nothing is known of its value.
#[verifier::external_body]
pub(crate) fn fresh_packet_id() -> (r: u128) {
    uuid::Uuid::new_v4().as_u128()
}

} // verus!
