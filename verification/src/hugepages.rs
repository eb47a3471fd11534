//! Vectors of default-initialized values, and the length of the huge-page
//! mapping that would back them.
//!
//! [`HugePageVec`] is the ordinary-memory backing of a huge-page vector: a
//! `Vec<T>` of values made by `T::default()`, so the slices handed out are
//! always valid references. [`huge_map_len`] gives the length, a whole number
//! of 2 MiB huge pages, of the `MAP_HUGETLB` mapping that is tried first.

use vstd::prelude::*;

use crate::Error;

verus! {

/// Fill an empty vector with `count` values, each one that `T::default()`
/// returns.
pub(crate) fn fill_default<T: Default>(values: &mut Vec<T>, count: usize)
    requires
        old(values)@.len() == 0,
    ensures
        final(values)@.len() == count,
        forall|i: int| 0 <= i < count ==> call_ensures(T::default, (), #[trigger] final(values)@[i]),
{
    let mut i: usize = 0;
    while i < count
        invariant
            i <= count,
            values@.len() == i,
            forall|j: int| 0 <= j < i ==> call_ensures(T::default, (), #[trigger] values@[j]),
        decreases count - i,
    {
        values.push(T::default());
        i = i + 1;
    }
}

/// Whether `v` holds `count` values each made by `T::default()`.
pub open spec fn defaults<T: Default>(v: Seq<T>, count: nat) -> bool {
    &&& v.len() == count
    &&& forall|i: int| 0 <= i < count ==> call_ensures(T::default, (), #[trigger] v[i])
}

/// A vector-like allocation of default-initialized values in ordinary memory.
pub struct HugePageVec<T> {
    values: Vec<T>,
}

impl<T> View for HugePageVec<T> {
    type V = Seq<T>;

    closed spec fn view(&self) -> Seq<T> {
        self.values@
    }
}

impl<T> HugePageVec<T> {
    /// Number of elements in the allocation.
    pub fn len(&self) -> (n: usize)
        ensures
            n == self@.len(),
    {
        self.values.len()
    }

    /// Whether the allocation is empty.
    pub fn is_empty(&self) -> (b: bool)
        ensures
            b == (self@.len() == 0),
    {
        self.values.len() == 0
    }

    /// Borrow the allocation as a slice.
    pub fn as_slice(&self) -> (s: &[T])
        ensures
            s@ == self@,
    {
        self.values.as_slice()
    }

    /// Borrow the allocation as a mutable slice.
    pub fn as_mut_slice(&mut self) -> (s: &mut [T])
        ensures
            s@ == old(self)@,
            final(s)@ == final(self)@,
    {
        self.values.as_mut_slice()
    }
}

impl<T: Default> HugePageVec<T> {
    /// Allocate `count` elements, each initialized by `T::default()`.
    ///
    /// # Errors
    ///
    /// Returns `Error::AllocationOverflow` for `count` when `count` values of
    /// `T` take more than `isize::MAX` bytes or the allocator cannot reserve
    /// them. An allocation of no bytes always succeeds.
    pub fn new_fallible(count: usize) -> (r: crate::Result<Self>)
        ensures
            match r {
                Ok(v) => defaults(v@, count as nat),
                Err(e) => e == Error::AllocationOverflow { count, element_size: vstd::layout::size_of::<T>() as usize },
            },
            count * vstd::layout::size_of::<T>() > isize::MAX ==> r is Err,
            count * vstd::layout::size_of::<T>() == 0 ==> r is Ok,
    {
        let len = match crate::checked_len::<T>(count) {
            Ok(len) => len,
            Err(e) => {
                return Err(e);
            },
        };
        if len > isize::MAX as usize {
            return Err(Error::AllocationOverflow { count, element_size: core::mem::size_of::<T>() });
        }
        let mut values: Vec<T> = Vec::new();
        if len > 0 && values.try_reserve(count).is_err() {
            return Err(Error::AllocationOverflow { count, element_size: core::mem::size_of::<T>() });
        }
        fill_default(&mut values, count);
        Ok(Self { values })
    }

    /// Allocate `count` elements, each initialized by `T::default()`.
    pub fn new(count: usize) -> (v: Self)
        requires
            count * vstd::layout::size_of::<T>() <= isize::MAX,
        ensures
            defaults(v@, count as nat),
    {
        let mut values: Vec<T> = Vec::new();
        fill_default(&mut values, count);
        Self { values }
    }
}

/// The size in bytes of a huge page: 2 MiB.
pub const HUGEPAGE_BYTES: usize = 0x20_0000;

/// `value` rounded up to a multiple of `alignment`.
pub open spec fn round_up(value: nat, alignment: nat) -> nat {
    if value % alignment == 0 {
        value
    } else {
        value + (alignment - value % alignment) as nat
    }
}

/// `value` rounded up to a multiple of `alignment`, when that fits in `usize`.
pub fn align_up(value: usize, alignment: usize) -> (r: Option<usize>)
    requires
        alignment > 0,
    ensures
        match r {
            Some(m) => m == round_up(value as nat, alignment as nat),
            None => round_up(value as nat, alignment as nat) > usize::MAX,
        },
{
    let remainder = value % alignment;
    if remainder == 0 {
        Some(value)
    } else {
        value.checked_add(alignment - remainder)
    }
}

/// A multiple of the huge page size lies at or above `n` and less than one
/// huge page beyond it.
proof fn lemma_round_up_huge(n: nat)
    ensures
        round_up(n, HUGEPAGE_BYTES as nat) % (HUGEPAGE_BYTES as nat) == 0,
        n <= round_up(n, HUGEPAGE_BYTES as nat) < n + HUGEPAGE_BYTES,
{
    let h = HUGEPAGE_BYTES as int;
    let q = n as int / h;
    let r = n as int % h;
    vstd::arithmetic::div_mod::lemma_fundamental_div_mod(n as int, h);
    assert(0 <= r < h);
    if r != 0 {
        assert(n + (h - r) == (q + 1) * h) by (nonlinear_arith)
            requires
                n == h * q + r,
        ;
        vstd::arithmetic::div_mod::lemma_mod_multiples_basic(q + 1, h);
    }
}

/// The length of the huge-page mapping that holds `count` values of `T`: no
/// mapping for an empty allocation or a zero-sized type, else the byte length
/// rounded up to whole huge pages.
///
/// # Errors
///
/// Returns `Error::AllocationOverflow` for `count` when the byte length, or
/// its rounding, does not fit in `usize`.
pub fn huge_map_len<T>(count: usize) -> (r: crate::Result<Option<usize>>)
    ensures
        count == 0 || vstd::layout::size_of::<T>() == 0 ==> r matches Ok(None),
        count > 0 && vstd::layout::size_of::<T>() > 0 ==> match r {
            Ok(Some(m)) => {
                &&& m == round_up((count * vstd::layout::size_of::<T>()) as nat, HUGEPAGE_BYTES as nat)
                &&& m % HUGEPAGE_BYTES == 0
                &&& count * vstd::layout::size_of::<T>() <= m < count * vstd::layout::size_of::<T>() + HUGEPAGE_BYTES
            },
            Ok(None) => false,
            Err(e) => round_up((count * vstd::layout::size_of::<T>()) as nat, HUGEPAGE_BYTES as nat) > usize::MAX
                && (e == Error::AllocationOverflow { count, element_size: vstd::layout::size_of::<T>() as usize }),
        },
{
    if count == 0 || core::mem::size_of::<T>() == 0 {
        return Ok(None);
    }
    proof {
        lemma_round_up_huge((count * vstd::layout::size_of::<T>()) as nat);
    }
    let byte_len = crate::checked_len::<T>(count)?;
    match align_up(byte_len, HUGEPAGE_BYTES) {
        Some(m) => Ok(Some(m)),
        None => Err(Error::AllocationOverflow { count, element_size: core::mem::size_of::<T>() }),
    }
}

} // verus!
