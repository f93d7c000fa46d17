//! Identifiers and timestamps, which come from outside the library.

use vstd::prelude::*;

verus! {

/// The number is a random (version 4) identifier in the layout of RFC 9562:
/// its version field holds 4 and its variant field the bits `10`.
pub open spec fn is_random_id(id: u128) -> bool {
    id & 0x0000_0000_0000_f000_c000_0000_0000_0000 == 0x0000_0000_0000_4000_8000_0000_0000_0000
}

/// Calls `uuid::Uuid::new_v4`, which draws a random identifier, and returns
/// it as the 128-bit number that `Uuid::as_u128` gives. Of the number only
/// what `new_v4` fixes is claimed: the version and variant fields. The call
/// panics where the operating system cannot supply random bytes.
#[verifier::external_body]
pub(crate) fn fresh_id() -> (id: u128)
    ensures
        is_random_id(id),
{
    uuid::Uuid::new_v4().as_u128()
}

/// Calls `chrono::Utc::now`, which reads the system clock, and returns the
/// time as the milliseconds since the Unix epoch that
/// `DateTime::timestamp_millis` gives. Nothing is claimed of the result.
/// The call panics where the system clock is set before the Unix epoch.
#[verifier::external_body]
pub(crate) fn now_millis() -> (time: i64) {
    chrono::Utc::now().timestamp_millis()
}

} // verus!
