//! File-identity fingerprints, used to detect a file changing underneath a
//! memory mapping between `stat` and `mmap`, and the size check of a mapping.

use vstd::prelude::*;

use crate::error::invalid_data_error;
use crate::text::push_decimal;
use crate::Error;

verus! {

/// Identity fingerprint of a file at the moment it was stat-ed: its length,
/// device and inode.
#[derive(Clone, Copy, Debug, PartialEq, Eq, Structural)]
pub struct FileIdentity {
    /// File length in bytes.
    pub len: u64,
    /// Device id.
    pub dev: u64,
    /// Inode number.
    pub ino: u64,
}

/// Whether two fingerprints name the same inode on the same device.
pub open spec fn same_inode(expected: FileIdentity, current: FileIdentity) -> bool {
    expected.dev == current.dev && expected.ino == current.ino
}

/// Whether a re-stat of a mapped file still matches: the length is the
/// expected one and the one first seen, and the inode is the same.
pub open spec fn unchanged(expected: FileIdentity, current: FileIdentity, expected_len: u64) -> bool {
    current.len == expected_len && current.len == expected.len && same_inode(expected, current)
}

/// Confirm that a file's current fingerprint still matches the fingerprint
/// taken before it was mapped and the expected length.
///
/// # Errors
///
/// Returns `Error::System` for `mmap(revalidate)`, carrying `changed_msg`, when
/// the file was truncated, grown or replaced.
pub fn validate_file_identity(
    expected: FileIdentity,
    current: FileIdentity,
    expected_len: u64,
    changed_msg: &'static str,
) -> (r: crate::Result<()>)
    ensures
        r is Ok <==> unchanged(expected, current, expected_len),
        r is Err ==> (r->Err_0 matches Error::System { operation, .. } && operation == "mmap(revalidate)"),
{
    if current.len != expected_len || current.len != expected.len || !(expected.dev == current.dev
        && expected.ino == current.ino) {
        return Err(Error::System {
            operation: "mmap(revalidate)",
            source: invalid_data_error(String::from_str(changed_msg)),
        });
    }
    Ok(())
}

/// The message of a size mismatch between the expected and the found length.
pub open spec fn size_mismatch_text(expected: u64, found: u64) -> Seq<char> {
    "file size mismatch: expected "@ + crate::text::decimal(expected as nat) + " bytes, found "@
        + crate::text::decimal(found as nat) + " bytes"@
}

/// The message of a size mismatch: `file size mismatch: expected E bytes,
/// found F bytes`, carried by the error of `check_expected_size`.
pub fn size_mismatch_message(expected: u64, found: u64) -> (m: String)
    ensures
        m@ == size_mismatch_text(expected, found),
{
    let mut message = String::from_str("file size mismatch: expected ");
    push_decimal(&mut message, expected);
    message.append(" bytes, found ");
    push_decimal(&mut message, found);
    message.append(" bytes");
    message
}

/// Check that a file about to be mapped has the expected size.
///
/// # Errors
///
/// Returns `Error::System` for `open_read_with_size`, whose message reads
/// `file size mismatch: expected E bytes, found F bytes`, when they differ.
pub fn check_expected_size(found: u64, expected: u64) -> (r: crate::Result<()>)
    ensures
        r is Ok <==> found == expected,
        r is Err ==> (r->Err_0 matches Error::System { operation, .. } && operation == "open_read_with_size"),
{
    if found != expected {
        let message = size_mismatch_message(expected, found);
        return Err(Error::System { operation: "open_read_with_size", source: invalid_data_error(message) });
    }
    Ok(())
}

} // verus!
