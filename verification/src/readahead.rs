//! The argument checks made before the kernel is asked to read ahead or to
//! drop a file range from the page cache.

use vstd::prelude::*;

use crate::error::invalid_input_message;
use crate::Error;

verus! {

/// The `off64_t` offset of a `readahead` request.
///
/// # Errors
///
/// Returns `Error::System` for `readahead` when the offset exceeds `i64::MAX`.
pub fn readahead_offset(offset: u64) -> (r: crate::Result<i64>)
    ensures
        match r {
            Ok(off) => offset <= i64::MAX && off == offset,
            Err(e) => offset > i64::MAX && (e matches Error::System { operation, .. } && operation == "readahead"),
        },
{
    if offset > i64::MAX as u64 {
        return Err(Error::System {
            operation: "readahead",
            source: invalid_input_message(String::from_str("offset too large for off64_t")),
        });
    }
    Ok(offset as i64)
}

/// The `off_t` offset and length of a `posix_fadvise(DONTNEED)` request.
///
/// # Errors
///
/// Returns `Error::System` for `posix_fadvise(DONTNEED)` when the offset, or
/// else the length, exceeds `i64::MAX`.
pub fn evict_range(offset: u64, len: u64) -> (r: crate::Result<(i64, i64)>)
    ensures
        match r {
            Ok((off, n)) => offset <= i64::MAX && len <= i64::MAX && off == offset && n == len,
            Err(e) => (offset > i64::MAX || len > i64::MAX)
                && (e matches Error::System { operation, .. } && operation == "posix_fadvise(DONTNEED)"),
        },
{
    if offset > i64::MAX as u64 {
        return Err(Error::System {
            operation: "posix_fadvise(DONTNEED)",
            source: invalid_input_message(String::from_str("offset too large for off_t")),
        });
    }
    if len > i64::MAX as u64 {
        return Err(Error::System {
            operation: "posix_fadvise(DONTNEED)",
            source: invalid_input_message(String::from_str("len too large for off_t")),
        });
    }
    Ok((offset as i64, len as i64))
}

} // verus!
