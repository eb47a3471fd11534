//! Counters, readahead arguments, region locking, prefetch ranges, corpus
//! rules, file fingerprints, lengths and error messages.

use kernelkit::affinity::malformed_chunk_message;
use kernelkit::corpus::{file_limit_message, total_limit_message, unsupported_entry_message};
use kernelkit::file_identity::size_mismatch_message;

use kernelkit::corpus::{classify_entry, CorpusBudget, EntryAction, EntryKind};
use kernelkit::file_identity::{check_expected_size, validate_file_identity, FileIdentity};
use kernelkit::mlock::region_needs_call;
use kernelkit::perf::{HwCounter, PERF_EVENT_ATTR_SIZE};
use kernelkit::prefetch::{prefetch_offsets, MAX_PREFETCH_BYTES};
use kernelkit::readahead::{evict_range, readahead_offset};
use kernelkit::{checked_len, page_size_from, Error};

#[test]
fn counter_configs_match_perf_constants() {
    assert_eq!(HwCounter::Cycles.config(), 0);
    assert_eq!(HwCounter::Instructions.config(), 1);
    assert_eq!(HwCounter::CacheMisses.config(), 3);
    assert_eq!(HwCounter::BranchMisses.config(), 5);
    assert_eq!(PERF_EVENT_ATTR_SIZE, 136);
}

#[test]
fn readahead_offset_accepts_i64_range() {
    assert_eq!(readahead_offset(0).unwrap(), 0);
    assert_eq!(readahead_offset(i64::MAX as u64).unwrap(), i64::MAX);
}

#[test]
fn readahead_offset_rejects_overflow() {
    let err = readahead_offset(u64::MAX).unwrap_err();
    assert!(matches!(err, Error::System { operation: "readahead", .. }));
    let msg = err.to_string();
    assert!(msg.starts_with("readahead failed: offset too large for off64_t"), "{msg}");
}

#[test]
fn evict_range_checks_offset_then_length() {
    assert_eq!(evict_range(4096, 8192).unwrap(), (4096, 8192));
    let off = evict_range(u64::MAX, 1).unwrap_err().to_string();
    assert!(off.contains("offset too large for off_t"), "{off}");
    let len = evict_range(0, u64::MAX).unwrap_err().to_string();
    assert!(len.contains("len too large for off_t"), "{len}");
    assert!(len.starts_with("posix_fadvise(DONTNEED) failed: "), "{len}");
}

#[test]
fn zero_length_lock_is_a_noop() {
    assert_eq!(region_needs_call(true, 0).unwrap(), false);
    assert_eq!(region_needs_call(false, 0).unwrap(), false);
}

#[test]
fn null_region_with_length_is_refused() {
    assert!(matches!(region_needs_call(true, 16), Err(Error::NullPointer)));
    assert_eq!(region_needs_call(false, 16).unwrap(), true);
}

#[test]
fn prefetch_offsets_step_by_cache_line() {
    assert_eq!(prefetch_offsets(256, 64), vec![0, 64, 128, 192]);
    assert_eq!(prefetch_offsets(100, 64), vec![0, 64]);
    assert_eq!(prefetch_offsets(3, 0), vec![0, 1, 2]);
    assert!(prefetch_offsets(0, 64).is_empty());
}

#[test]
fn prefetch_offsets_are_capped() {
    let offsets = prefetch_offsets(usize::MAX, 64);
    assert_eq!(offsets.len(), MAX_PREFETCH_BYTES / 64);
    assert_eq!(*offsets.last().unwrap(), MAX_PREFETCH_BYTES - 64);
}

#[test]
fn corpus_classifies_entries() {
    assert_eq!(classify_entry(EntryKind::Directory, "/c/sub").unwrap(), EntryAction::Descend);
    assert_eq!(classify_entry(EntryKind::File, "/c/a.txt").unwrap(), EntryAction::Collect);
    let symlink = classify_entry(EntryKind::Symlink, "/c/link").unwrap_err().to_string();
    assert!(symlink.contains("symlinks are not permitted in corpus"), "{symlink}");
    let other = classify_entry(EntryKind::Other, "/c/fifo").unwrap_err().to_string();
    assert!(other.contains("unsupported file type in corpus: /c/fifo"), "{other}");
}

#[test]
fn corpus_budget_enforces_limits() {
    let mut budget = CorpusBudget::new(100, 150);
    assert!(budget.add_file(100).is_ok());
    assert_eq!(budget.total_bytes, 100);
    let too_big = budget.add_file(101).unwrap_err().to_string();
    assert!(too_big.contains("file size 101 exceeds limit of 100"), "{too_big}");
    assert_eq!(budget.total_bytes, 100);
    let total = budget.add_file(60).unwrap_err().to_string();
    assert!(total.contains("total corpus size exceeds limit of 150"), "{total}");
}

#[test]
fn corpus_budget_saturates() {
    let mut budget = CorpusBudget::new(u64::MAX, u64::MAX);
    budget.add_file(u64::MAX).unwrap();
    budget.add_file(u64::MAX).unwrap();
    assert_eq!(budget.total_bytes, u64::MAX);
}

#[test]
fn file_identity_detects_changes() {
    let first = FileIdentity { len: 10, dev: 1, ino: 2 };
    assert!(validate_file_identity(first, first, 10, "changed").is_ok());
    let grown = FileIdentity { len: 11, ..first };
    assert!(validate_file_identity(first, grown, 10, "changed").is_err());
    let replaced = FileIdentity { ino: 3, ..first };
    let msg = validate_file_identity(first, replaced, 10, "file replaced").unwrap_err().to_string();
    assert!(msg.starts_with("mmap(revalidate) failed: file replaced"), "{msg}");
    assert!(validate_file_identity(first, first, 9, "changed").is_err());
}

#[test]
fn expected_size_mismatch_message() {
    assert!(check_expected_size(64, 64).is_ok());
    let msg = check_expected_size(10, 1024).unwrap_err().to_string();
    assert!(msg.contains("file size mismatch: expected 1024 bytes, found 10 bytes"), "{msg}");
}

#[test]
fn checked_len_multiplies_or_reports() {
    assert_eq!(checked_len::<u32>(10).unwrap(), 40);
    assert_eq!(checked_len::<()>(usize::MAX).unwrap(), 0);
    match checked_len::<u64>(usize::MAX) {
        Err(Error::AllocationOverflow { count, element_size }) => {
            assert_eq!(count, usize::MAX);
            assert_eq!(element_size, 8);
        }
        _ => panic!("expected overflow"),
    }
}

#[test]
fn page_size_falls_back_to_4096() {
    assert_eq!(page_size_from(16384), 16384);
    assert_eq!(page_size_from(0), 4096);
    assert_eq!(page_size_from(-1), 4096);
}

#[test]
fn error_texts_are_exact() {
    assert_eq!(
        Error::AllocationOverflow { count: 3, element_size: 8 }.to_string(),
        "allocation for 3 values of 8 bytes each overflowed. Fix: reduce the element count or use a smaller element type."
    );
    assert_eq!(
        Error::NullPointer.to_string(),
        "pointer was null for a non-zero region length. Fix: pass a valid pointer or use length 0."
    );
    assert_eq!(
        Error::SysfsParse { path: "/sys/x" }.to_string(),
        "could not parse CPU cache metadata from `/sys/x`. Fix: verify the kernel exposes numeric cache values in sysfs."
    );
    assert_eq!(
        Error::InvalidMagic.to_string(),
        "invalid binary format magic bytes. Fix: ensure the file was written by a compatible version."
    );
    assert_eq!(
        Error::UnsupportedVersion { version: 9, max_version: 2 }.to_string(),
        "unsupported binary format version 9 (max 2). Fix: upgrade the reader or downgrade the file."
    );
    assert_eq!(
        Error::SectionTooLarge { length: 77 }.to_string(),
        "section length 77 exceeds platform address space. Fix: ensure the file is not corrupted."
    );
    assert_eq!(
        Error::UnexpectedEof { context: "magic", needed: 4, remaining: 1 }.to_string(),
        "unexpected end of data reading magic: needed 4 bytes, 1 available. Fix: ensure the file is not truncated."
    );
    let system = Error::System {
        operation: "mbind",
        source: std::io::Error::new(std::io::ErrorKind::Other, "boom"),
    };
    assert_eq!(
        system.to_string(),
        "mbind failed: boom. Fix: verify kernel support, process privileges, and resource limits."
    );
    let sysfs = Error::SysfsRead {
        path: "/sys/y",
        source: std::io::Error::new(std::io::ErrorKind::NotFound, "gone"),
    };
    assert_eq!(
        sysfs.to_string(),
        "could not read CPU cache metadata from `/sys/y`. Fix: verify `/sys` is mounted and readable, or rely on the fallback defaults."
    );
}

#[test]
fn null_pointer_with_non_zero_length_is_rejected() {
    let error = region_needs_call(true, 4).expect_err("null pointer must fail");
    assert!(matches!(error, Error::NullPointer));
}

#[test]
fn test_impossible_mlock_zero_length_non_null() {
    let result = region_needs_call(false, 0);
    assert!(result.is_ok());
}

#[test]
fn mlock_zero_length_is_noop() {
    region_needs_call(true, 0).expect("zero-length lock should succeed");
}

#[test]
fn mlock_null_pointer_with_nonzero_length_fails() {
    let result = region_needs_call(true, 100);
    let error = result.expect_err("null pointer with non-zero length should fail");
    assert!(matches!(error, Error::NullPointer), "Error should be NullPointer");
}

#[test]
fn all_error_variants_display_correctly() {
    let errors = vec![
        Error::NullPointer,
        Error::AllocationOverflow { count: 100, element_size: 1 },
        Error::InvalidNode { node: 99, available: 2 },
        Error::InvalidMagic,
        Error::UnsupportedVersion { version: 100, max_version: 1 },
        Error::SectionTooLarge { length: u64::MAX },
        Error::UnexpectedEof { context: "test", needed: 100, remaining: 10 },
    ];
    for error in errors {
        let msg = error.to_string();
        assert!(!msg.is_empty(), "Error message must not be empty");
        assert!(msg.len() > 5, "Error message should be descriptive: {:?}", error);
        assert!(msg.contains(". Fix: "), "{msg}");
    }
}

#[test]
fn corpus_budget_over_a_whole_directory() {
    // Every file fits and the sum fits: all accepted.
    let mut budget = CorpusBudget::new(10, 25);
    for size in [10, 5, 10] {
        budget.add_file(size).unwrap();
    }
    assert_eq!(budget.total_bytes, 25);
    // The sum exceeds the total limit: the file that crosses it is refused.
    let mut budget = CorpusBudget::new(10, 25);
    let outcomes: Vec<bool> = [10, 10, 10].iter().map(|&s| budget.add_file(s).is_ok()).collect();
    assert_eq!(outcomes, vec![true, true, false]);
    // A file over the per-file limit is refused.
    let mut budget = CorpusBudget::new(1_048_576, u64::MAX);
    assert!(budget.add_file(1_048_577).is_err());
}

#[test]
fn message_builders_give_exact_texts() {
    assert_eq!(size_mismatch_message(1024, 10), "file size mismatch: expected 1024 bytes, found 10 bytes");
    assert_eq!(file_limit_message(101, 100), "file size 101 exceeds limit of 100");
    assert_eq!(total_limit_message(150), "total corpus size exceeds limit of 150");
    assert_eq!(unsupported_entry_message("/c/fifo"), "unsupported file type in corpus: /c/fifo");
    let chunk: Vec<char> = "xyz".chars().collect();
    assert_eq!(malformed_chunk_message(&chunk), "malformed affinity mask chunk: xyz");
}
