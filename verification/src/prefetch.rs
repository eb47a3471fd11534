//! Which cache lines a range prefetch touches.

use vstd::prelude::*;

verus! {

/// Maximum bytes to prefetch in a single call to prevent CPU exhaustion.
pub const MAX_PREFETCH_BYTES: usize = 2 * 1024 * 1024;

/// The number of bytes of a range that are prefetched.
pub open spec fn prefetch_limit(len: usize) -> nat {
    if len < MAX_PREFETCH_BYTES {
        len as nat
    } else {
        MAX_PREFETCH_BYTES as nat
    }
}

/// The distance between prefetched addresses: the cache line, at least 1.
pub open spec fn prefetch_stride(cache_line: usize) -> nat {
    if cache_line >= 1 {
        cache_line as nat
    } else {
        1
    }
}

/// The offsets, from the start of a range of `len` bytes, that a prefetch of
/// the range touches: every multiple of the cache line (at least 1) below the
/// range's length capped at `MAX_PREFETCH_BYTES`, in increasing order.
pub fn prefetch_offsets(len: usize, cache_line: usize) -> (offsets: Vec<usize>)
    ensures
        forall|k: int| 0 <= k < offsets@.len() ==> #[trigger] offsets@[k] == k * prefetch_stride(cache_line),
        forall|k: int| 0 <= k < offsets@.len() ==> #[trigger] offsets@[k] < prefetch_limit(len),
        offsets@.len() * prefetch_stride(cache_line) >= prefetch_limit(len),
{
    let limit = if len < MAX_PREFETCH_BYTES { len } else { MAX_PREFETCH_BYTES };
    let stride = if cache_line >= 1 { cache_line } else { 1 };
    let mut offsets: Vec<usize> = Vec::new();
    let mut offset: usize = 0;
    while offset < limit
        invariant
            limit == prefetch_limit(len),
            stride == prefetch_stride(cache_line),
            stride >= 1,
            limit <= MAX_PREFETCH_BYTES,
            offset <= limit,
            offset < limit ==> offset == offsets@.len() * stride,
            offsets@.len() * stride >= offset,
            forall|k: int| 0 <= k < offsets@.len() ==> #[trigger] offsets@[k] == k * stride,
            forall|k: int| 0 <= k < offsets@.len() ==> #[trigger] offsets@[k] < limit,
        decreases limit - offset,
    {
        offsets.push(offset);
        proof {
            assert((offsets@.len() - 1) * stride + stride == offsets@.len() * stride) by (nonlinear_arith);
        }
        if limit - offset <= stride {
            offset = limit;
        } else {
            offset = offset + stride;
        }
    }
    offsets
}

} // verus!
