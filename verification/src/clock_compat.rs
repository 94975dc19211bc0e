//! The clock fallback for old Synology kernels, where `CLOCK_BOOTTIME` fails even
//! though the kernel nominally supports it.

use vstd::prelude::*;

verus! {

/// The `CLOCK_BOOTTIME` clock id.
pub const CLOCK_BOOTTIME: i32 = 7;

/// The `CLOCK_MONOTONIC` clock id.
pub const CLOCK_MONOTONIC: i32 = 1;

/// The clock to retry with after `clock_gettime(clk_id)` returned `ret`: a failed
/// `CLOCK_BOOTTIME` call is retried as `CLOCK_MONOTONIC`; every other outcome stands.
pub fn retry_clock(clk_id: i32, ret: i64) -> (r: Option<i32>)
    ensures
        r == (if ret < 0 && clk_id == CLOCK_BOOTTIME { Some(CLOCK_MONOTONIC) } else { None::<i32> }),
{
    if ret < 0 && clk_id == CLOCK_BOOTTIME {
        Some(CLOCK_MONOTONIC)
    } else {
        None
    }
}

} // verus!
