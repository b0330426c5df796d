//! The two points where the library calls outside crates: the wall
//! clock and fresh identifiers. Everything else in the crate is verified
//! against the contracts stated here.

use vstd::prelude::*;

verus! {

/// Relies on chrono's `Utc::now` and `DateTime::timestamp_millis`: the
/// current moment as non-leap milliseconds since the Unix epoch.
/// chrono's representable dates span roughly the years -262143 to
/// 262142, so the reading's magnitude stays below 9·10^15; nothing else
/// is promised of a clock reading. chrono aborts (an `expect` in its
/// source) if the system clock reads before the Unix epoch; the bound
/// holds of every normal return.
#[verifier::external_body]
pub fn now_unix_millis() -> (r: i64)
    ensures
        -9_000_000_000_000_000 <= r <= 9_000_000_000_000_000,
{
    chrono::Utc::now().timestamp_millis()
}

/// Relies on uuid's `Uuid::new_v4` and `Uuid::as_u128`: a freshly drawn
/// random version-4 identifier as a 128-bit integer. The value is
/// random; nothing is promised of it, and callers must cope with any
/// value coming back. uuid aborts if the operating system's randomness
/// source fails.
#[verifier::external_body]
pub fn fresh_id() -> u128 {
    uuid::Uuid::new_v4().as_u128()
}

} // verus!
