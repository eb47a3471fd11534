//! The decision made before a memory region is locked or unlocked.

use vstd::prelude::*;

use crate::Error;

verus! {

/// Whether a lock or unlock request for a region must reach the kernel: a
/// zero-length region is a no-op (whatever its pointer), and a null pointer
/// with a non-zero length is refused.
///
/// # Errors
///
/// Returns `Error::NullPointer` for a null pointer with a non-zero length.
pub fn region_needs_call(is_null: bool, len: usize) -> (r: crate::Result<bool>)
    ensures
        len == 0 ==> r == Ok::<bool, Error>(false),
        len != 0 && is_null ==> r == Err::<bool, Error>(Error::NullPointer),
        len != 0 && !is_null ==> r == Ok::<bool, Error>(true),
{
    if len == 0 {
        return Ok(false);
    }
    if is_null {
        return Err(Error::NullPointer);
    }
    Ok(true)
}

} // verus!
