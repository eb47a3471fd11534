//! The error type shared by every module of the library.

use vstd::prelude::*;

use crate::text::{decimal, push_decimal};
use vstd::string::to_string_from_display_ensures;

verus! {

/// Errors returned by kernel-backed operations.
#[derive(Debug)]
#[non_exhaustive]
pub enum Error {
    /// The requested allocation length overflowed the address space.
    AllocationOverflow {
        /// Number of requested elements.
        count: usize,
        /// Size in bytes of one element of the allocation target.
        element_size: usize,
    },
    /// The caller supplied a null pointer (or a zero length) for a region.
    NullPointer,
    /// The caller supplied a node identifier that is not available.
    InvalidNode {
        /// The requested node.
        node: u32,
        /// Number of available nodes.
        available: usize,
    },
    /// The operating system rejected a kernel operation.
    System {
        /// Name of the failing operation.
        operation: &'static str,
        /// Underlying OS error.
        source: std::io::Error,
    },
    /// A Linux-only helper could not discover the expected sysfs metadata.
    SysfsRead {
        /// Path that failed.
        path: &'static str,
        /// Underlying I/O error.
        source: std::io::Error,
    },
    /// A Linux helper found malformed sysfs metadata.
    SysfsParse {
        /// Path that failed.
        path: &'static str,
    },
    /// A binary format file had the wrong magic bytes.
    InvalidMagic,
    /// A binary format file has a newer version than supported.
    UnsupportedVersion {
        /// Observed version.
        version: u64,
        /// Maximum supported.
        max_version: u64,
    },
    /// A binary format section declared a length too large for the platform.
    SectionTooLarge {
        /// Declared section length.
        length: u64,
    },
    /// Unexpected end of data while reading a binary format.
    UnexpectedEof {
        /// What was being read.
        context: &'static str,
        /// Bytes needed.
        needed: usize,
        /// Bytes remaining.
        remaining: usize,
    },
    /// A dynamic library could not be loaded.
    LibraryLoad {
        /// Shared library name.
        library: &'static str,
        /// Loader error.
        source: libloading::Error,
    },
    /// A required symbol was missing from a dynamic library.
    SymbolLoad {
        /// Shared library name.
        library: &'static str,
        /// Missing symbol.
        symbol: &'static str,
        /// Loader error.
        source: libloading::Error,
    },
}

/// What went wrong, the first part of an error's text: a fixed sentence per
/// variant with its fields in decimal, where `source` stands for the text of
/// the underlying OS or loader error.
pub open spec fn error_summary(e: Error, source: Seq<char>) -> Seq<char> {
    match e {
        Error::AllocationOverflow { count, element_size } => "allocation for "@ + decimal(count as nat)
            + " values of "@ + decimal(element_size as nat) + " bytes each overflowed"@,
        Error::NullPointer => "pointer was null for a non-zero region length"@,
        Error::InvalidNode { node, .. } => "NUMA node "@ + decimal(node as nat)
            + " is not available on this machine"@,
        Error::System { operation, .. } => operation@ + " failed: "@ + source,
        Error::SysfsRead { path, .. } => "could not read CPU cache metadata from `"@ + path@ + "`"@,
        Error::SysfsParse { path } => "could not parse CPU cache metadata from `"@ + path@ + "`"@,
        Error::InvalidMagic => "invalid binary format magic bytes"@,
        Error::UnsupportedVersion { version, max_version } => "unsupported binary format version "@
            + decimal(version as nat) + " (max "@ + decimal(max_version as nat) + ")"@,
        Error::SectionTooLarge { length } => "section length "@ + decimal(length as nat)
            + " exceeds platform address space"@,
        Error::UnexpectedEof { context, needed, remaining } => "unexpected end of data reading "@
            + context@ + ": needed "@ + decimal(needed as nat) + " bytes, "@
            + decimal(remaining as nat) + " available"@,
        Error::LibraryLoad { library, .. } => "could not load `"@ + library@ + "`: "@ + source,
        Error::SymbolLoad { library, symbol, .. } => "could not resolve `"@ + symbol@ + "` from `"@
            + library@ + "`: "@ + source,
    }
}

/// How to fix it, the hint that follows `. Fix: ` in an error's text.
pub open spec fn error_fix(e: Error) -> Seq<char> {
    match e {
        Error::AllocationOverflow { .. } => "reduce the element count or use a smaller element type."@,
        Error::NullPointer => "pass a valid pointer or use length 0."@,
        Error::InvalidNode { available, .. } => "use a node in the range 0.."@ + decimal(available as nat) + "."@,
        Error::System { .. } => "verify kernel support, process privileges, and resource limits."@,
        Error::SysfsRead { .. } => "verify `/sys` is mounted and readable, or rely on the fallback defaults."@,
        Error::SysfsParse { .. } => "verify the kernel exposes numeric cache values in sysfs."@,
        Error::InvalidMagic => "ensure the file was written by a compatible version."@,
        Error::UnsupportedVersion { .. } => "upgrade the reader or downgrade the file."@,
        Error::SectionTooLarge { .. } => "ensure the file is not corrupted."@,
        Error::UnexpectedEof { .. } => "ensure the file is not truncated."@,
        Error::LibraryLoad { .. } => "install the runtime library or rely on the portable fallback path."@,
        Error::SymbolLoad { .. } => "install a compatible version of the runtime library."@,
    }
}

/// The text of an error: what went wrong, then `. Fix: ` and how to fix it.
pub open spec fn error_text(e: Error, source: Seq<char>) -> Seq<char> {
    error_summary(e, source) + ". Fix: "@ + error_fix(e)
}

/// Whether `needle` occurs in `text` as a run of consecutive characters.
pub open spec fn contains_text(text: Seq<char>, needle: Seq<char>) -> bool {
    exists|i: int| 0 <= i && i + needle.len() <= text.len() && #[trigger] text.subrange(i, i + needle.len()) == needle
}

/// Every error's text is actionable: it carries a `Fix:` hint, whatever the
/// underlying OS or loader error says.
pub proof fn lemma_error_text_has_fix(e: Error, source: Seq<char>)
    ensures
        contains_text(error_text(e, source), "Fix:"@),
{
    reveal_strlit(". Fix: ");
    reveal_strlit("Fix:");
    let text = error_text(e, source);
    let i: int = error_summary(e, source).len() as int + 2;
    assert(text.subrange(i, i + 4) =~= "Fix:"@);
}

/// Whether an error carries the text of an underlying OS or loader error.
pub open spec fn has_source(e: Error) -> bool {
    e is System || e is SysfsRead || e is LibraryLoad || e is SymbolLoad
}

/// `std::io::Error::new` with the `InvalidData` kind and `message`.
#[verifier::external_body]
pub(crate) fn invalid_data_error(message: String) -> std::io::Error {
    std::io::Error::new(std::io::ErrorKind::InvalidData, message)
}

/// `std::io::Error::new` with the `InvalidInput` kind and `message`.
#[verifier::external_body]
pub(crate) fn invalid_input_message(message: String) -> std::io::Error {
    std::io::Error::new(std::io::ErrorKind::InvalidInput, message)
}

/// `std::io::Error::from` the `InvalidInput` kind.
#[verifier::external_body]
pub(crate) fn invalid_input_error() -> std::io::Error {
    std::io::Error::from(std::io::ErrorKind::InvalidInput)
}

/// `String::from_iter` over the characters of a slice: a string holding
/// exactly `chars`, in order.
#[verifier::external_body]
pub(crate) fn string_of(chars: &[char]) -> (s: String)
    ensures
        s@ == chars@,
{
    chars.iter().collect()
}

impl Error {
    /// What went wrong, the first part of the text.
    fn summary(&self) -> (text: String)
        ensures
            exists|source: Seq<char>| text@ == error_summary(*self, source),
            !has_source(*self) ==> text@ == error_summary(*self, Seq::empty()),
            self is SysfsRead ==> text@ == error_summary(*self, Seq::empty()),
            self matches Error::System { source, .. } ==> exists|s: String|
                to_string_from_display_ensures::<std::io::Error>(&source, s) && text@ == error_summary(*self, s@),
            self matches Error::LibraryLoad { source, .. } ==> exists|s: String|
                to_string_from_display_ensures::<libloading::Error>(&source, s) && text@ == error_summary(*self, s@),
            self matches Error::SymbolLoad { source, .. } ==> exists|s: String|
                to_string_from_display_ensures::<libloading::Error>(&source, s) && text@ == error_summary(*self, s@),
    {
        let mut out = String::new();
        match self {
            Error::AllocationOverflow { count, element_size } => {
                out.append("allocation for ");
                push_decimal(&mut out, *count as u64);
                out.append(" values of ");
                push_decimal(&mut out, *element_size as u64);
                out.append(" bytes each overflowed");
            },
            Error::NullPointer => {
                out.append("pointer was null for a non-zero region length");
            },
            Error::InvalidNode { node, .. } => {
                out.append("NUMA node ");
                push_decimal(&mut out, *node as u64);
                out.append(" is not available on this machine");
            },
            Error::System { operation, source } => {
                let source_text = source.to_string();
                out.append(operation);
                out.append(" failed: ");
                out.append(source_text.as_str());
                assert(out@ == error_summary(*self, source_text@));
            },
            Error::SysfsRead { path, .. } => {
                out.append("could not read CPU cache metadata from `");
                out.append(path);
                out.append("`");
                assert(out@ == error_summary(*self, Seq::empty()));
            },
            Error::SysfsParse { path } => {
                out.append("could not parse CPU cache metadata from `");
                out.append(path);
                out.append("`");
            },
            Error::InvalidMagic => {
                out.append("invalid binary format magic bytes");
            },
            Error::UnsupportedVersion { version, max_version } => {
                out.append("unsupported binary format version ");
                push_decimal(&mut out, *version);
                out.append(" (max ");
                push_decimal(&mut out, *max_version);
                out.append(")");
            },
            Error::SectionTooLarge { length } => {
                out.append("section length ");
                push_decimal(&mut out, *length);
                out.append(" exceeds platform address space");
            },
            Error::UnexpectedEof { context, needed, remaining } => {
                out.append("unexpected end of data reading ");
                out.append(context);
                out.append(": needed ");
                push_decimal(&mut out, *needed as u64);
                out.append(" bytes, ");
                push_decimal(&mut out, *remaining as u64);
                out.append(" available");
            },
            Error::LibraryLoad { library, source } => {
                let source_text = source.to_string();
                out.append("could not load `");
                out.append(library);
                out.append("`: ");
                out.append(source_text.as_str());
                assert(out@ == error_summary(*self, source_text@));
            },
            Error::SymbolLoad { library, symbol, source } => {
                let source_text = source.to_string();
                out.append("could not resolve `");
                out.append(symbol);
                out.append("` from `");
                out.append(library);
                out.append("`: ");
                out.append(source_text.as_str());
                assert(out@ == error_summary(*self, source_text@));
            },
        }
        proof {
            if !has_source(*self) {
                assert(out@ == error_summary(*self, Seq::empty()));
            }
        }
        out
    }

    /// How to fix it, the hint that follows `. Fix: `.
    fn fix(&self) -> (text: String)
        ensures
            text@ == error_fix(*self),
    {
        let mut out = String::new();
        match self {
            Error::AllocationOverflow { .. } => out.append("reduce the element count or use a smaller element type."),
            Error::NullPointer => out.append("pass a valid pointer or use length 0."),
            Error::InvalidNode { available, .. } => {
                out.append("use a node in the range 0..");
                push_decimal(&mut out, *available as u64);
                out.append(".");
            },
            Error::System { .. } => out.append("verify kernel support, process privileges, and resource limits."),
            Error::SysfsRead { .. } => out.append(
                "verify `/sys` is mounted and readable, or rely on the fallback defaults.",
            ),
            Error::SysfsParse { .. } => out.append("verify the kernel exposes numeric cache values in sysfs."),
            Error::InvalidMagic => out.append("ensure the file was written by a compatible version."),
            Error::UnsupportedVersion { .. } => out.append("upgrade the reader or downgrade the file."),
            Error::SectionTooLarge { .. } => out.append("ensure the file is not corrupted."),
            Error::UnexpectedEof { .. } => out.append("ensure the file is not truncated."),
            Error::LibraryLoad { .. } => out.append(
                "install the runtime library or rely on the portable fallback path.",
            ),
            Error::SymbolLoad { .. } => out.append("install a compatible version of the runtime library."),
        }
        out
    }

    /// The human-readable description of the error, with a `Fix:` hint.
    pub fn to_string(&self) -> (text: String)
        ensures
            exists|source: Seq<char>| text@ == error_text(*self, source),
            !has_source(*self) ==> text@ == error_text(*self, Seq::empty()),
            self is SysfsRead ==> text@ == error_text(*self, Seq::empty()),
            self matches Error::System { source, .. } ==> exists|s: String|
                to_string_from_display_ensures::<std::io::Error>(&source, s) && text@ == error_text(*self, s@),
            self matches Error::LibraryLoad { source, .. } ==> exists|s: String|
                to_string_from_display_ensures::<libloading::Error>(&source, s) && text@ == error_text(*self, s@),
            self matches Error::SymbolLoad { source, .. } ==> exists|s: String|
                to_string_from_display_ensures::<libloading::Error>(&source, s) && text@ == error_text(*self, s@),
    {
        let mut out = self.summary();
        let ghost summary = out@;
        let fix = self.fix();
        out.append(". Fix: ");
        out.append(fix.as_str());
        proof {
            let source = choose|source: Seq<char>| summary == error_summary(*self, source);
            assert(out@ == error_text(*self, source));
            match self {
                Error::System { source: src, .. } => {
                    let s = choose|s: String|
                        to_string_from_display_ensures::<std::io::Error>(src, s) && summary == error_summary(
                            *self,
                            s@,
                        );
                    assert(out@ == error_text(*self, s@));
                },
                Error::LibraryLoad { source: src, .. } => {
                    let s = choose|s: String|
                        to_string_from_display_ensures::<libloading::Error>(src, s) && summary == error_summary(
                            *self,
                            s@,
                        );
                    assert(out@ == error_text(*self, s@));
                },
                Error::SymbolLoad { source: src, .. } => {
                    let s = choose|s: String|
                        to_string_from_display_ensures::<libloading::Error>(src, s) && summary == error_summary(
                            *self,
                            s@,
                        );
                    assert(out@ == error_text(*self, s@));
                },
                _ => {},
            }
        }
        out
    }
}

} // verus!
