//! Wall-clock time.

use vstd::prelude::*;
use crate::metrics::capped;

verus! {

/// `SystemTime::now`, as the whole seconds since 1970 and the nanoseconds above
/// them, which are less than a second. A clock before 1970 counts as 1970.
#[verifier::external_body]
fn system_clock() -> (time: (u64, u32))
    ensures
        time.1 < 1_000_000_000,
{
    let since = std::time::SystemTime::now().duration_since(std::time::UNIX_EPOCH);
    let since = since.unwrap_or_default();
    (since.as_secs(), since.subsec_nanos())
}

/// A time in whole milliseconds.
pub fn epoch_milliseconds(seconds: u64, nanoseconds: u32) -> (milliseconds: u64)
    ensures
        milliseconds == capped((seconds * 1000 + nanoseconds / 1_000_000) as nat),
{
    let whole = seconds as u128 * 1000 + (nanoseconds / 1_000_000) as u128;
    if whole > u64::MAX as u128 {
        u64::MAX
    } else {
        whole as u64
    }
}

/// The time now, in milliseconds since 1970.
pub fn now_milliseconds() -> (now: u64)
    ensures
        exists|seconds: u64, nanoseconds: u32|
            nanoseconds < 1_000_000_000 && now == #[trigger] capped(
                (seconds * 1000 + nanoseconds / 1_000_000) as nat,
            ),
{
    let (seconds, nanoseconds) = system_clock();
    epoch_milliseconds(seconds, nanoseconds)
}

} // verus!
