//! Hardware performance counter kinds and their `perf_event_open` encoding.

use vstd::prelude::*;

verus! {

/// Hardware performance counter type.
#[derive(Debug, Clone, Copy, PartialEq, Eq, Structural)]
pub enum HwCounter {
    /// Total CPU cycles.
    Cycles,
    /// Total retired instructions.
    Instructions,
    /// L1 data cache misses.
    CacheMisses,
    /// Branch mispredictions.
    BranchMisses,
}

/// The size in bytes of the `perf_event_attr` that is handed to the kernel:
/// its `type`, `size` and `config` fields followed by 120 zero bytes.
pub const PERF_EVENT_ATTR_SIZE: u32 = 136;

impl HwCounter {
    /// The `config` of a `PERF_TYPE_HARDWARE` event that counts this:
    /// `PERF_COUNT_HW_CPU_CYCLES` (0), `PERF_COUNT_HW_INSTRUCTIONS` (1),
    /// `PERF_COUNT_HW_CACHE_MISSES` (3) or `PERF_COUNT_HW_BRANCH_MISSES` (5).
    pub fn config(&self) -> (c: u64)
        ensures
            c == (match self {
                HwCounter::Cycles => 0u64,
                HwCounter::Instructions => 1u64,
                HwCounter::CacheMisses => 3u64,
                HwCounter::BranchMisses => 5u64,
            }),
    {
        match self {
            HwCounter::Cycles => 0,
            HwCounter::Instructions => 1,
            HwCounter::CacheMisses => 3,
            HwCounter::BranchMisses => 5,
        }
    }
}

} // verus!
