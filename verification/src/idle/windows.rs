//! Idle time on Windows, from the tick counts that the system reports.
use vstd::prelude::*;

verus! {

/// Milliseconds from `last_input` to `tick` on the wrapping 32-bit tick counter.
pub open spec fn ticks_between(last_input: u32, tick: u32) -> u32 {
    if tick >= last_input {
        (tick - last_input) as u32
    } else {
        (tick + 0x1_0000_0000 - last_input) as u32
    }
}

/// Whole idle seconds, given the tick of the last input (nothing when the
/// system could not report it) and the current tick.
pub fn idle_seconds(last_input: Option<u32>, tick: u32) -> (r: Result<u64, String>)
    ensures
        match last_input {
            Some(t) => r == Ok::<u64, String>((ticks_between(t, tick) / 1000) as u64),
            None => r matches Err(e) && e@ == "GetLastInputInfo failed"@,
        },
{
    match last_input {
        None => Err(String::from_str("GetLastInputInfo failed")),
        Some(t) => {
            let idle_ms: u32 = if tick >= t {
                tick - t
            } else {
                ((tick as u64 + 0x1_0000_0000u64 - t as u64) as u32)
            };
            Ok((idle_ms / 1000) as u64)
        },
    }
}

} // verus!
