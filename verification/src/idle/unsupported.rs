//! Idle time on platforms without a known source.
use vstd::prelude::*;

verus! {

/// There is no idle source here.
pub fn idle_seconds() -> (r: Result<u64, String>)
    ensures
        r matches Err(e) && e@ == "Idle detection not supported on this platform"@,
{
    Err(String::from_str("Idle detection not supported on this platform"))
}

} // verus!
