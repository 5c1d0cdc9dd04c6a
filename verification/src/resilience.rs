//! Load shedding: the admission decision taken before a request is served.
use vstd::prelude::*;

verus! {

/// Names the hedging pattern that `fanout` implements.
pub const HEDGING_NOTE: &'static str = "Pattern: Request Hedging — fan-out N×2 race";

/// Whether a request must be shed: more requests in flight than `threshold`,
/// or a memory limit is set and resident memory is over it.
pub fn should_shed(in_flight: u64, threshold: u64, mem_bytes: u64, mem_limit_bytes: u64) -> (r: bool)
    ensures
        r == (in_flight > threshold || (mem_limit_bytes > 0 && mem_bytes > mem_limit_bytes)),
{
    if in_flight > threshold {
        return true;
    }
    if mem_limit_bytes > 0 && mem_bytes > mem_limit_bytes {
        return true;
    }
    false
}

} // verus!
