//! The wall clock.

use vstd::prelude::*;

verus! {

/// The current time in milliseconds since the Unix epoch, read by
/// `chrono::Local::now().timestamp_millis()`. The value depends on the
/// machine's clock, so nothing is stated of it. (chrono panics where the
/// clock stands before the epoch.)
#[verifier::external_body]
pub(crate) fn now_millis() -> i64 {
    chrono::Local::now().timestamp_millis()
}

} // verus!
