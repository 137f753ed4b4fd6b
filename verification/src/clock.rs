//! Trusted binding to the wall clock.

use vstd::prelude::*;

verus! {

/// Relies on chrono's `Utc::now`: seconds since the Unix epoch. Nothing
/// can be promised of a clock reading; callers state what holds of any
/// value. The call itself trusts the platform clock to stand at or past
/// the epoch — chrono aborts on a clock before it, so the reading that
/// comes back is in practice non-negative.
#[verifier::external_body]
fn now_seconds() -> i64 {
    chrono::Utc::now().timestamp()
}

/// The clock reading as an unsigned timestamp; the clamp only restates,
/// for the verifier, that a reading that came back is non-negative.
pub fn now_timestamp() -> u64 {
    let t: i64 = now_seconds();
    if t >= 0 {
        t as u64
    } else {
        0
    }
}

} // verus!
