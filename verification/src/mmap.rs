//! Anonymous memory blocks, and the checks made when a file is mapped.

use vstd::prelude::*;

use crate::Error;

verus! {

/// A writable memory map, owned and unmapped on drop by memmap2.
#[verifier::external_type_specification]
#[verifier::external_body]
pub struct ExMmapMut(memmap2::MmapMut);

/// The bytes that a memory map holds.
pub uninterp spec fn mapped_bytes(map: memmap2::MmapMut) -> Seq<u8>;

/// `memmap2::MmapMut::map_anon`: a private anonymous read-write mapping of
/// `len` bytes. On success it holds exactly `len` bytes; memmap2 documents an
/// error for lengths above `isize::MAX`. Whether the system grants other
/// lengths is not stated.
#[verifier::external_body]
fn map_anonymous(len: usize) -> (r: std::io::Result<memmap2::MmapMut>)
    ensures
        r matches Ok(map) ==> mapped_bytes(map).len() == len,
        len > isize::MAX ==> r is Err,
{
    memmap2::MmapMut::map_anon(len)
}

/// `memmap2::MmapMut::advise` with `Advice::HugePage`: asks the kernel to back
/// the mapping with transparent huge pages. The advice leaves the mapping's
/// contents unchanged; whether the kernel accepts it is not stated.
#[verifier::external_body]
fn advise_huge_pages(map: &memmap2::MmapMut) -> std::io::Result<()> {
    map.advise(memmap2::Advice::HugePage)
}

/// `Deref` of `memmap2::MmapMut`: the mapped bytes.
#[verifier::external_body]
fn mapped_slice(map: &memmap2::MmapMut) -> (s: &[u8])
    ensures
        s@ == mapped_bytes(*map),
{
    map
}

/// `DerefMut` of `memmap2::MmapMut`: the mapped bytes, writable; what is
/// written through the slice is what the mapping then holds. It builds the
/// slice from the mapping's pointer and length and does not panic.
#[verifier::external_body]
fn mapped_slice_mut(map: &mut memmap2::MmapMut) -> (s: &mut [u8])
    ensures
        s@ == mapped_bytes(*old(map)),
        mapped_bytes(*final(map)) == final(s)@,
        mapped_bytes(*final(map)).len() == mapped_bytes(*old(map)).len(),
    no_unwind
{
    map
}

/// A block of writable anonymous virtual memory allocated from the operating
/// system, unmapped when dropped.
#[derive(Debug)]
pub struct MmapBlock {
    map: memmap2::MmapMut,
    len: usize,
    numa_node: Option<u32>,
}

impl MmapBlock {
    /// The block holds `len` bytes, and `len` is not zero.
    #[verifier::type_invariant]
    spec fn well_formed(self) -> bool {
        &&& mapped_bytes(self.map).len() == self.len
        &&& self.len > 0
    }

    /// The bytes that the block holds.
    pub closed spec fn bytes(&self) -> Seq<u8> {
        mapped_bytes(self.map)
    }

    /// The NUMA node that the block was requested for, if any.
    pub closed spec fn node(&self) -> Option<u32> {
        self.numa_node
    }

    /// Map `len` bytes and ask for huge pages (a hint whose refusal is ignored).
    fn map_region(len: usize) -> (r: crate::Result<memmap2::MmapMut>)
        requires
            len > 0,
        ensures
            match r {
                Ok(map) => mapped_bytes(map).len() == len,
                Err(e) => e matches Error::System { operation, .. } && operation == "mmap",
            },
            len > isize::MAX ==> r is Err,
    {
        match map_anonymous(len) {
            Ok(map) => {
                let _ = advise_huge_pages(&map);
                Ok(map)
            },
            Err(source) => Err(Error::System { operation: "mmap", source }),
        }
    }

    /// Allocate a new anonymous writable mapping of `len` bytes, and ask the
    /// kernel to back it with transparent huge pages (a hint whose refusal is
    /// ignored, and of which nothing is stated).
    ///
    /// # Errors
    ///
    /// Returns `Error::NullPointer` when `len` is zero, and `Error::System`
    /// for `mmap` when the system refuses the mapping (always so above
    /// `isize::MAX` bytes).
    pub fn new(len: usize) -> (r: crate::Result<Self>)
        ensures
            match r {
                Ok(block) => block.bytes().len() == len && block.node() is None,
                Err(e) => if len == 0 {
                    e == Error::NullPointer
                } else {
                    e matches Error::System { operation, .. } && operation == "mmap"
                },
            },
            len == 0 || len > isize::MAX ==> r is Err,
    {
        if len == 0 {
            return Err(Error::NullPointer);
        }
        let map = Self::map_region(len)?;
        Ok(Self { map, len, numa_node: None })
    }

    /// Allocate a new mapping of `len` bytes meant for NUMA node `node`, one of
    /// `available` nodes. Binding the pages to the node with `mbind` is the
    /// caller's step; where no binding is made, the caller allocates with
    /// [`MmapBlock::new`] instead, and the node is neither checked nor recorded.
    ///
    /// # Errors
    ///
    /// Returns `Error::NullPointer` when `len` is zero, `Error::System` for
    /// `mmap` when the system refuses the mapping, and `Error::InvalidNode`
    /// when `node` is not below `available` (the mapping is then released).
    pub fn new_on_node(len: usize, node: u32, available: usize) -> (r: crate::Result<Self>)
        ensures
            match r {
                Ok(block) => block.bytes().len() == len && block.node() == Some(node) && (node as nat) < available,
                Err(e) => if len == 0 {
                    e == Error::NullPointer
                } else {
                    (e matches Error::System { operation, .. } && operation == "mmap")
                        || (e == Error::InvalidNode { node, available } && (node as nat) >= available)
                },
            },
            len == 0 || len > isize::MAX || (node as nat) >= available ==> r is Err,
    {
        if len == 0 {
            return Err(Error::NullPointer);
        }
        let map = Self::map_region(len)?;
        Self::from_mapping(map, len, node, available)
    }

    /// The block that a fresh mapping of `len` bytes makes for NUMA node
    /// `node`, one of `available` nodes: the mapping with the node recorded,
    /// or `Error::InvalidNode` (the mapping is then released) when the node is
    /// not below `available`.
    ///
    /// # Errors
    ///
    /// Returns `Error::InvalidNode` when `node` is not below `available`.
    pub fn from_mapping(map: memmap2::MmapMut, len: usize, node: u32, available: usize) -> (r: crate::Result<Self>)
        requires
            mapped_bytes(map).len() == len,
            len > 0,
        ensures
            (node as nat) < available ==> (r matches Ok(b) && b.bytes() == mapped_bytes(map) && b.node() == Some(
                node,
            )),
            (node as nat) >= available ==> r == Err::<Self, Error>(Error::InvalidNode { node, available }),
    {
        if (node as u64) >= (available as u64) {
            return Err(Error::InvalidNode { node, available });
        }
        Ok(Self { map, len, numa_node: Some(node) })
    }

    /// The mapped bytes, from the start of the mapping. (Raw pointers are not
    /// handed out; the slice starts at the mapping's first address.)
    pub fn as_ptr(&self) -> (s: &[u8])
        ensures
            s@ == self.bytes(),
    {
        mapped_slice(&self.map)
    }

    /// The mapped bytes, writable, from the start of the mapping.
    pub fn as_mut_ptr(&mut self) -> (s: &mut [u8])
        ensures
            s@ == old(self).bytes(),
            final(self).bytes() == final(s)@,
            final(self).node() == old(self).node(),
    {
        proof {
            use_type_invariant(&*self);
        }
        mapped_slice_mut(&mut self.map)
    }

    /// Length of the mapping in bytes.
    pub fn len(&self) -> (n: usize)
        ensures
            n == self.bytes().len(),
            n > 0,
    {
        proof {
            use_type_invariant(self);
        }
        self.len
    }

    /// Whether the mapping is empty; a block never is.
    pub fn is_empty(&self) -> (b: bool)
        ensures
            b == (self.bytes().len() == 0),
            !b,
    {
        proof {
            use_type_invariant(self);
        }
        self.len == 0
    }

    /// NUMA node this block was requested for, if any.
    pub fn numa_node(&self) -> (n: Option<u32>)
        ensures
            n == self.node(),
    {
        self.numa_node
    }
}

/// Kernel advice hints for memory-mapped files.
#[derive(Debug, Clone, Copy, PartialEq, Eq, Structural)]
pub enum MmapAdvice {
    /// Sequential access (kernel prefetches aggressively).
    Sequential,
    /// Random access (disable readahead).
    Random,
    /// Pages will be needed soon (prefault).
    WillNeed,
}

impl MmapAdvice {
    /// The name of the `madvise` operation that applies this advice, as
    /// reported in errors.
    pub fn operation(&self) -> (name: &'static str)
        ensures
            name == (match self {
                MmapAdvice::Sequential => "madvise(SEQUENTIAL)",
                MmapAdvice::Random => "madvise(RANDOM)",
                MmapAdvice::WillNeed => "madvise(WILLNEED)",
            }),
    {
        match self {
            MmapAdvice::Sequential => "madvise(SEQUENTIAL)",
            MmapAdvice::Random => "madvise(RANDOM)",
            MmapAdvice::WillNeed => "madvise(WILLNEED)",
        }
    }
}

} // verus!
