//! NUMA node bookkeeping: how many nodes the machine has, which node ids are
//! valid, the `mbind` node mask of a node, and allocation for a node.

use vstd::prelude::*;

use crate::hugepages::{defaults, fill_default};
use crate::text::{
    chars_of, copy_range, find, parse_radix, parse_unsigned, split, split_chars, strip_prefix,
    trim, trim_chars, views, without_prefix,
};
use crate::Error;

verus! {

/// What the machine reports about its NUMA nodes, before interpretation.
pub struct NumaProbe {
    /// What libnuma's `numa_max_node()` returned, when libnuma could be loaded
    /// and `numa_available()` did not report failure.
    pub max_node: Option<i32>,
    /// Contents of `/sys/devices/system/node/online`, when it could be read.
    pub online: Option<String>,
    /// Names of the entries of `/sys/devices/system/node`.
    pub node_entries: Vec<String>,
}

/// `std::io::Error::other` wrapping a failed reservation, whose text it displays.
#[verifier::external_body]
fn reservation_error(e: std::collections::TryReserveError) -> std::io::Error {
    std::io::Error::other(e)
}

/// The highest node id that one piece of a node list (`N` or `A-B`) names.
pub open spec fn piece_highest(piece: Seq<char>) -> Option<nat> {
    match find(piece, '-') {
        Some(i) => match (
            parse_unsigned(piece.subrange(0, i as int), 10, u32::MAX as nat),
            parse_unsigned(piece.subrange(i as int + 1, piece.len() as int), 10, u32::MAX as nat),
        ) {
            (Some(a), Some(b)) => Some(if a >= b { a } else { b }),
            _ => None,
        },
        None => parse_unsigned(piece, 10, u32::MAX as nat),
    }
}

/// The highest node id that the pieces of a node list name, or nothing when a
/// piece is malformed.
pub open spec fn pieces_highest(pieces: Seq<Seq<char>>) -> Option<nat>
    decreases pieces.len(),
{
    if pieces.len() == 0 {
        None
    } else {
        let last = piece_highest(pieces[pieces.len() - 1]);
        if pieces.len() == 1 {
            last
        } else {
            match (pieces_highest(pieces.subrange(0, pieces.len() - 1)), last) {
                (Some(a), Some(b)) => Some(if a >= b { a } else { b }),
                _ => None,
            }
        }
    }
}

/// The highest node id of a sysfs node list such as `0-3,6`.
pub open spec fn list_highest(list: Seq<char>) -> Option<nat> {
    pieces_highest(split(trim(list), ','))
}

/// The node id of a sysfs entry named `node<N>`.
pub open spec fn entry_node(name: Seq<char>) -> Option<nat> {
    match strip_prefix(name, "node"@) {
        Some(rest) => parse_unsigned(rest, 10, u32::MAX as nat),
        None => None,
    }
}

/// The highest node id among the `node<N>` entries.
pub open spec fn entries_highest(names: Seq<Seq<char>>) -> Option<nat>
    decreases names.len(),
{
    if names.len() == 0 {
        None
    } else {
        let before = entries_highest(names.subrange(0, names.len() - 1));
        match (before, entry_node(names[names.len() - 1])) {
            (Some(a), Some(b)) => Some(if a >= b { a } else { b }),
            (None, b) => b,
            (a, None) => a,
        }
    }
}

/// One more than node id `h`, saturating at `usize::MAX`.
pub open spec fn after(h: nat) -> nat {
    if h + 1 <= usize::MAX {
        h + 1
    } else {
        usize::MAX as nat
    }
}

/// One more than node id `h`, saturating at `usize::MAX`.
fn count_after(h: u32) -> (n: usize)
    ensures
        n == after(h as nat),
{
    if (h as u64) + 1 > usize::MAX as u64 {
        usize::MAX
    } else {
        (h as usize) + 1
    }
}

/// The number of NUMA nodes: one more than the highest node id, taken from
/// libnuma when it reports a node, else from the sysfs online list, else from
/// the sysfs `node<N>` entries, and 1 when none of them names a node.
pub open spec fn node_count_of(max_node: Option<i32>, online: Option<Seq<char>>, entries: Seq<Seq<char>>) -> nat {
    match max_node {
        Some(m) if m >= 0 => after(m as nat),
        _ => match (match online { Some(list) => list_highest(list), None => None }) {
            Some(h) => after(h),
            None => match entries_highest(entries) {
                Some(h) => after(h),
                None => 1,
            },
        },
    }
}

/// The characters of a file's contents, when it could be read.
pub open spec fn opt_chars(f: Option<String>) -> Option<Seq<char>> {
    match f {
        Some(s) => Some(s@),
        None => None,
    }
}

/// The characters of each of the names.
pub open spec fn names_chars(names: Seq<String>) -> Seq<Seq<char>> {
    names.map_values(|s: String| s@)
}

/// The highest node id that one piece of a node list names.
fn piece_highest_exec(piece: &[char]) -> (r: Option<u32>)
    ensures
        match r {
            Some(v) => piece_highest(piece@) == Some(v as nat),
            None => piece_highest(piece@) is None,
        },
{
    let mut dash: usize = 0;
    while dash < piece.len() && piece[dash] != '-'
        invariant
            dash <= piece@.len(),
            forall|j: int| 0 <= j < dash ==> piece@[j] != '-',
        decreases piece@.len() - dash,
    {
        dash = dash + 1;
    }
    proof {
        crate::text::lemma_find_in_bounds(piece@, '-');
    }
    if dash < piece.len() {
        let low = copy_range(piece, 0, dash);
        let high = copy_range(piece, dash + 1, piece.len());
        match (parse_radix(low.as_slice(), 10, u32::MAX as u64), parse_radix(high.as_slice(), 10, u32::MAX as u64)) {
            (Some(a), Some(b)) => Some(if a >= b { a as u32 } else { b as u32 }),
            _ => None,
        }
    } else {
        match parse_radix(piece, 10, u32::MAX as u64) {
            Some(v) => Some(v as u32),
            None => None,
        }
    }
}

/// The highest node id of a sysfs node list such as `0-3,6`.
pub fn parse_node_list(list: &str) -> (r: Option<u32>)
    ensures
        match r {
            Some(v) => list_highest(list@) == Some(v as nat),
            None => list_highest(list@) is None,
        },
{
    let chars = chars_of(list);
    let trimmed = trim_chars(chars.as_slice());
    let pieces = split_chars(trimmed.as_slice(), ',');
    let ghost ps = views(pieces@);
    proof {
        crate::text::lemma_split_len(trimmed@, ',');
    }
    let mut highest = piece_highest_exec(pieces[0].as_slice());
    proof {
        assert(ps.subrange(0, 1) =~= seq![ps[0]]);
    }
    let mut i: usize = 1;
    while i < pieces.len()
        invariant
            ps == views(pieces@),
            1 <= i <= pieces@.len(),
            match highest {
                Some(v) => pieces_highest(ps.subrange(0, i as int)) == Some(v as nat),
                None => pieces_highest(ps.subrange(0, i as int)) is None,
            },
        decreases pieces@.len() - i,
    {
        let next = piece_highest_exec(pieces[i].as_slice());
        proof {
            let done = ps.subrange(0, i + 1);
            assert(done.subrange(0, done.len() - 1) =~= ps.subrange(0, i as int));
            assert(done[done.len() - 1] == pieces@[i as int]@);
        }
        highest = match (highest, next) {
            (Some(a), Some(b)) => Some(if a >= b { a } else { b }),
            _ => None,
        };
        i = i + 1;
    }
    proof {
        assert(ps.subrange(0, pieces@.len() as int) =~= ps);
    }
    highest
}

/// The node id of a sysfs entry named `node<N>`.
pub fn parse_node_entry(name: &str) -> (r: Option<u32>)
    ensures
        match r {
            Some(v) => entry_node(name@) == Some(v as nat),
            None => entry_node(name@) is None,
        },
{
    let chars = chars_of(name);
    let prefix = chars_of("node");
    match without_prefix(chars.as_slice(), prefix.as_slice()) {
        Some(rest) => match parse_radix(rest.as_slice(), 10, u32::MAX as u64) {
            Some(v) => Some(v as u32),
            None => None,
        },
        None => None,
    }
}

/// Return the number of NUMA nodes visible to the current process.
///
/// libnuma's highest node decides when it names one; otherwise the sysfs online
/// list, then the sysfs `node<N>` entries. The count is never 0.
pub fn node_count(probe: &NumaProbe) -> (n: usize)
    ensures
        n == node_count_of(probe.max_node, opt_chars(probe.online), names_chars(probe.node_entries@)),
        n >= 1,
{
    match probe.max_node {
        Some(m) => {
            if m >= 0 {
                return count_after(m as u32);
            }
        },
        None => {},
    }
    match &probe.online {
        Some(list) => match parse_node_list(list.as_str()) {
            Some(h) => {
                return count_after(h);
            },
            None => {},
        },
        None => {},
    }
    let ghost names = names_chars(probe.node_entries@);
    let mut highest: Option<u32> = None;
    let mut i: usize = 0;
    while i < probe.node_entries.len()
        invariant
            names == names_chars(probe.node_entries@),
            i <= probe.node_entries@.len(),
            match highest {
                Some(v) => entries_highest(names.subrange(0, i as int)) == Some(v as nat),
                None => entries_highest(names.subrange(0, i as int)) is None,
            },
        decreases probe.node_entries@.len() - i,
    {
        let node = parse_node_entry(probe.node_entries[i].as_str());
        proof {
            let done = names.subrange(0, i + 1);
            assert(done.subrange(0, done.len() - 1) =~= names.subrange(0, i as int));
            assert(done[done.len() - 1] == probe.node_entries@[i as int]@);
        }
        highest = match (highest, node) {
            (Some(a), Some(b)) => Some(if a >= b { a } else { b }),
            (None, b) => b,
            (a, None) => a,
        };
        i = i + 1;
    }
    proof {
        assert(names.subrange(0, probe.node_entries@.len() as int) =~= names);
    }
    match highest {
        Some(h) => count_after(h),
        None => 1,
    }
}

/// Whether the search for the NUMA library over its candidate names ends
/// after one attempt: a library that loaded and reports NUMA available ends
/// it, and so does any error other than a library that could not be loaded;
/// a library that could not be loaded, or that reports NUMA unavailable,
/// sends the search on to the next name.
pub fn ends_library_search<L>(attempt: &crate::Result<Option<L>>) -> (stop: bool)
    ensures
        stop == !(attempt matches Ok(None) || attempt matches Err(Error::LibraryLoad { .. })),
{
    match attempt {
        Ok(Some(_)) => true,
        Ok(None) => false,
        Err(Error::LibraryLoad { .. }) => false,
        Err(_) => true,
    }
}

/// Check that `node` is one of the `available` nodes.
///
/// # Errors
///
/// Returns `Error::InvalidNode` when `node` is not below `available`.
pub fn validate_node(node: u32, available: usize) -> (r: crate::Result<()>)
    ensures
        r is Ok <==> (node as nat) < available,
        r is Err ==> r == Err::<(), Error>(Error::InvalidNode { node, available }),
{
    if (node as u64) < (available as u64) {
        Ok(())
    } else {
        Err(Error::InvalidNode { node, available })
    }
}

/// The words of an `mbind` node mask, of `word_bits` bits each, that select
/// exactly `node`: one bit in word `node / word_bits`. Also returns the
/// `maxnode` argument, `node + 1`, so that the kernel reads exactly those bits.
pub fn nodemask_for_node(node: u32, word_bits: u32) -> (r: (Vec<u64>, usize))
    requires
        word_bits == 32 || word_bits == 64,
        node < usize::MAX,
    ensures
        r.0@.len() == node / word_bits + 1,
        forall|i: int| 0 <= i < r.0@.len() ==> r.0@[i] == (if i == node / word_bits {
            1u64 << ((node % word_bits) as u64)
        } else {
            0u64
        }),
        r.1 == node + 1,
{
    let index = (node / word_bits) as usize;
    let bit = (node % word_bits) as u64;
    let mut mask: Vec<u64> = Vec::new();
    let mut i: usize = 0;
    while i <= index
        invariant
            index == node / word_bits,
            bit == node % word_bits,
            word_bits == 32 || word_bits == 64,
            i <= index + 1,
            mask@.len() == i,
            forall|j: int| 0 <= j < i ==> mask@[j] == (if j == index { 1u64 << bit } else { 0u64 }),
        decreases index + 1 - i,
    {
        if i == index {
            mask.push(1u64 << bit);
        } else {
            mask.push(0);
        }
        i = i + 1;
    }
    (mask, (node as usize) + 1)
}

/// Allocate `count` values made by `T::default()` for NUMA node `node`, one of
/// `available` nodes. Moving the pages onto the node is up to the caller.
///
/// # Errors
///
/// Returns `Error::InvalidNode` when `node` is not below `available`,
/// `Error::AllocationOverflow` when the byte length does not fit in `usize`,
/// and `Error::System` when the values cannot be reserved. An allocation of
/// no bytes on an available node always succeeds.
pub fn alloc_on_node<T: Default>(count: usize, node: u32, available: usize) -> (r: crate::Result<Vec<T>>)
    ensures
        match r {
            Ok(v) => (node as nat) < available && defaults(v@, count as nat),
            Err(e) => {
                if (node as nat) >= available {
                    e == Error::InvalidNode { node, available }
                } else if count * vstd::layout::size_of::<T>() > usize::MAX {
                    e == Error::AllocationOverflow { count, element_size: vstd::layout::size_of::<T>() as usize }
                } else {
                    e matches Error::System { operation, .. } && operation == "numa alloc try_reserve"
                }
            },
        },
        (node as nat) < available && count * vstd::layout::size_of::<T>() == 0 ==> r is Ok,
        count * vstd::layout::size_of::<T>() > usize::MAX ==> r is Err,
{
    validate_node(node, available)?;
    let len = crate::checked_len::<T>(count)?;
    let mut values: Vec<T> = Vec::new();
    if len > 0 {
        match values.try_reserve(count) {
            Ok(()) => {},
            Err(e) => {
                return Err(Error::System { operation: "numa alloc try_reserve", source: reservation_error(e) });
            },
        }
    }
    fill_default(&mut values, count);
    Ok(values)
}

} // verus!
