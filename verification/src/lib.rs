//! Kernel optimization primitives: binary header and section decoding,
//! CPU cache topology parsing, NUMA node bookkeeping, anonymous memory
//! blocks and huge-page-friendly vectors, each with a verified contract.

pub mod affinity;
pub mod binformat;
pub mod corpus;
pub mod cpu_features;
pub mod error;
pub mod file_identity;
pub mod hugepages;
pub mod memory;
pub mod mmap;
pub mod mlock;
pub mod numa;
pub mod perf;
pub mod prefetch;
pub mod readahead;
mod outside;
pub mod text;

pub use binformat::FileHeader;
pub use cpu_features::CpuFeatures;
pub use error::Error;
pub use hugepages::HugePageVec;
pub use memory::{memory_pressure, MemoryStatus};
pub use mmap::MmapBlock;

use vstd::prelude::*;

verus! {

/// Result type used by `kernelkit`.
pub type Result<T> = core::result::Result<T, Error>;

/// The byte length of `count` values of `T`.
///
/// # Errors
///
/// Returns `Error::AllocationOverflow`, with `count` and the size of `T`, when
/// the length does not fit in `usize`.
pub fn checked_len<T>(count: usize) -> (r: Result<usize>)
    ensures
        match r {
            Ok(len) => len == count * vstd::layout::size_of::<T>(),
            Err(e) => count * vstd::layout::size_of::<T>() > usize::MAX
                && e == Error::AllocationOverflow { count, element_size: vstd::layout::size_of::<T>() as usize },
        },
{
    match count.checked_mul(core::mem::size_of::<T>()) {
        Some(len) => Ok(len),
        None => Err(Error::AllocationOverflow { count, element_size: core::mem::size_of::<T>() }),
    }
}

/// The page size in bytes given what `sysconf(_SC_PAGESIZE)` reported: the
/// reported value when it is positive and fits in `usize`, else 4096.
pub fn page_size_from(reported: i64) -> (size: usize)
    ensures
        size == (if 0 < reported <= usize::MAX { reported as usize } else { 4096 }),
        size >= 1,
{
    if reported > 0 && reported as u64 <= usize::MAX as u64 {
        reported as usize
    } else {
        4096
    }
}

} // verus!
