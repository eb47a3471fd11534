//! The rules of a memory-mapped corpus: which directory entries it takes and
//! how much it may map.

use vstd::prelude::*;

use crate::error::{invalid_data_error, invalid_input_message};
use crate::text::{decimal, push_decimal};
use crate::Error;

verus! {

/// The kind of a directory entry, as its file type reports it.
#[derive(Debug, Clone, Copy, PartialEq, Eq, Structural)]
pub enum EntryKind {
    /// A symbolic link.
    Symlink,
    /// A directory.
    Directory,
    /// A regular file.
    File,
    /// Anything else (device, socket, FIFO).
    Other,
}

/// What a corpus scan does with a directory entry.
#[derive(Debug, Clone, Copy, PartialEq, Eq, Structural)]
pub enum EntryAction {
    /// Scan the directory's entries too.
    Descend,
    /// Map the file.
    Collect,
}

/// The message of an entry that is neither a directory, a regular file nor a
/// symlink: `unsupported file type in corpus: ` and the entry's path.
pub fn unsupported_entry_message(path: &str) -> (m: String)
    ensures
        m@ == "unsupported file type in corpus: "@ + path@,
{
    let mut message = String::from_str("unsupported file type in corpus: ");
    message.append(path);
    message
}

/// The message of a file over the per-file limit: `file size S exceeds limit
/// of L`.
pub fn file_limit_message(size: u64, max_file_bytes: u64) -> (m: String)
    ensures
        m@ == "file size "@ + decimal(size as nat) + " exceeds limit of "@ + decimal(max_file_bytes as nat),
{
    let mut message = String::from_str("file size ");
    push_decimal(&mut message, size);
    message.append(" exceeds limit of ");
    push_decimal(&mut message, max_file_bytes);
    message
}

/// The message of a corpus over the total limit: `total corpus size exceeds
/// limit of L`.
pub fn total_limit_message(max_total_bytes: u64) -> (m: String)
    ensures
        m@ == "total corpus size exceeds limit of "@ + decimal(max_total_bytes as nat),
{
    let mut message = String::from_str("total corpus size exceeds limit of ");
    push_decimal(&mut message, max_total_bytes);
    message
}

/// Decide what a corpus scan does with an entry: directories are scanned,
/// regular files are collected, and symlinks (which could lead outside the
/// corpus root) and other file types are refused.
///
/// # Errors
///
/// Returns `Error::System` for `collect_files` for a symlink or an entry that
/// is neither a directory nor a regular file; the message of the latter names
/// the entry's `path`.
pub fn classify_entry(kind: EntryKind, path: &str) -> (r: crate::Result<EntryAction>)
    ensures
        kind == EntryKind::Directory <==> r == Ok::<EntryAction, Error>(EntryAction::Descend),
        kind == EntryKind::File <==> r == Ok::<EntryAction, Error>(EntryAction::Collect),
        kind == EntryKind::Symlink || kind == EntryKind::Other ==> (r matches Err(Error::System { operation, .. })
            && operation == "collect_files"),
{
    match kind {
        EntryKind::Directory => Ok(EntryAction::Descend),
        EntryKind::File => Ok(EntryAction::Collect),
        EntryKind::Symlink => Err(Error::System {
            operation: "collect_files",
            source: invalid_input_message(String::from_str("symlinks are not permitted in corpus")),
        }),
        EntryKind::Other => {
            Err(Error::System { operation: "collect_files", source: invalid_input_message(unsupported_entry_message(path)) })
        },
    }
}

/// The running size account of a corpus being mapped.
#[derive(Debug, Clone, Copy, PartialEq, Eq, Structural)]
pub struct CorpusBudget {
    /// Largest size allowed for one file.
    pub max_file_bytes: u64,
    /// Largest combined size allowed.
    pub max_total_bytes: u64,
    /// Combined size of the files added so far, saturating at `u64::MAX`.
    pub total_bytes: u64,
}

/// `a + b`, saturating at `u64::MAX`.
pub open spec fn saturating_sum(a: u64, b: u64) -> u64 {
    if a + b <= u64::MAX {
        (a + b) as u64
    } else {
        u64::MAX
    }
}

/// The combined size after adding `sizes` in order to `total`, saturating at
/// `u64::MAX`.
pub open spec fn sum_from(total: u64, sizes: Seq<u64>) -> u64
    decreases sizes.len(),
{
    if sizes.len() == 0 {
        total
    } else {
        sum_from(saturating_sum(total, sizes[0]), sizes.subrange(1, sizes.len() as int))
    }
}

/// Whether files of `sizes`, added in order by `CorpusBudget::add_file` to a
/// budget whose combined size is `total`, are all accepted: each call's
/// `Ok` condition holds on the budget that the calls before it left.
pub open spec fn accepts_all(max_file_bytes: u64, max_total_bytes: u64, total: u64, sizes: Seq<u64>) -> bool
    decreases sizes.len(),
{
    sizes.len() == 0 || {
        &&& sizes[0] <= max_file_bytes
        &&& saturating_sum(total, sizes[0]) <= max_total_bytes
        &&& accepts_all(max_file_bytes, max_total_bytes, saturating_sum(total, sizes[0]), sizes.subrange(1, sizes.len() as int))
    }
}

/// Adding sizes never lowers the combined size.
proof fn lemma_sum_from_grows(total: u64, sizes: Seq<u64>)
    ensures
        total <= sum_from(total, sizes),
    decreases sizes.len(),
{
    if sizes.len() > 0 {
        lemma_sum_from_grows(saturating_sum(total, sizes[0]), sizes.subrange(1, sizes.len() as int));
    }
}

/// The files of `sizes`, added in order to a budget whose combined size is
/// `total`, are all accepted exactly when each fits the per-file limit and
/// the combined size at the end fits the total limit.
proof fn lemma_accepts_all_from(max_file_bytes: u64, max_total_bytes: u64, total: u64, sizes: Seq<u64>)
    requires
        total <= max_total_bytes,
    ensures
        accepts_all(max_file_bytes, max_total_bytes, total, sizes) <==> (forall|i: int|
            0 <= i < sizes.len() ==> #[trigger] sizes[i] <= max_file_bytes) && sum_from(total, sizes)
            <= max_total_bytes,
    decreases sizes.len(),
{
    if sizes.len() > 0 {
        let next = saturating_sum(total, sizes[0]);
        let rest = sizes.subrange(1, sizes.len() as int);
        lemma_sum_from_grows(next, rest);
        if next <= max_total_bytes {
            lemma_accepts_all_from(max_file_bytes, max_total_bytes, next, rest);
        }
        assert forall|i: int| 0 <= i < rest.len() implies rest[i] == sizes[i + 1] by {}
        if (forall|i: int| 0 <= i < rest.len() ==> #[trigger] rest[i] <= max_file_bytes) && sizes[0] <= max_file_bytes {
            assert forall|i: int| 0 <= i < sizes.len() implies #[trigger] sizes[i] <= max_file_bytes by {
                if i > 0 {
                    assert(sizes[i] == rest[i - 1]);
                }
            }
        }
    }
}

/// A whole corpus passes its budget exactly when every file fits the per-file
/// limit and all the files together fit the total limit: adding the files'
/// sizes in order to a new budget, every call is accepted if and only if
/// that holds.
pub proof fn lemma_corpus_budget(max_file_bytes: u64, max_total_bytes: u64, sizes: Seq<u64>)
    ensures
        accepts_all(max_file_bytes, max_total_bytes, 0, sizes) <==> (forall|i: int|
            0 <= i < sizes.len() ==> #[trigger] sizes[i] <= max_file_bytes) && sum_from(0, sizes)
            <= max_total_bytes,
{
    lemma_accepts_all_from(max_file_bytes, max_total_bytes, 0, sizes);
}

impl CorpusBudget {
    /// A budget with no file added yet.
    pub fn new(max_file_bytes: u64, max_total_bytes: u64) -> (b: Self)
        ensures
            b == (CorpusBudget { max_file_bytes, max_total_bytes, total_bytes: 0 }),
    {
        CorpusBudget { max_file_bytes, max_total_bytes, total_bytes: 0 }
    }

    /// Account for a file of `size` bytes: it must not exceed the per-file limit,
    /// and the combined size with it must not exceed the total limit.
    ///
    /// # Errors
    ///
    /// Returns `Error::System` for `open_with_limits` when a limit is exceeded.
    pub fn add_file(&mut self, size: u64) -> (r: crate::Result<()>)
        ensures
            final(self).max_file_bytes == old(self).max_file_bytes,
            final(self).max_total_bytes == old(self).max_total_bytes,
            size > old(self).max_file_bytes ==> final(self).total_bytes == old(self).total_bytes,
            size <= old(self).max_file_bytes ==> final(self).total_bytes == saturating_sum(old(self).total_bytes, size),
            r is Ok <==> size <= old(self).max_file_bytes
                && saturating_sum(old(self).total_bytes, size) <= old(self).max_total_bytes,
            r is Err ==> (r->Err_0 matches Error::System { operation, .. } && operation == "open_with_limits"),
            r is Ok ==> final(self).total_bytes <= final(self).max_total_bytes,
    {
        if size > self.max_file_bytes {
            let message = file_limit_message(size, self.max_file_bytes);
            return Err(Error::System { operation: "open_with_limits", source: invalid_data_error(message) });
        }
        self.total_bytes = if self.total_bytes > u64::MAX - size { u64::MAX } else { self.total_bytes + size };
        if self.total_bytes > self.max_total_bytes {
            let message = total_limit_message(self.max_total_bytes);
            return Err(Error::System { operation: "open_with_limits", source: invalid_data_error(message) });
        }
        Ok(())
    }
}

} // verus!
