//! Anonymous memory blocks.

use kernelkit::mmap::MmapAdvice;
use kernelkit::{Error, MmapBlock};

#[test]
fn allocates_and_exposes_len() {
    let mut block = MmapBlock::new(4096).expect("mmap block");
    assert_eq!(block.len(), 4096);
    assert!(!block.is_empty());
    assert_eq!(block.as_mut_ptr().len(), 4096);
}

#[test]
fn zero_length_fails() {
    let result = MmapBlock::new(0);
    assert!(result.is_err());
}

#[test]
fn write_and_read_back() {
    let mut block = MmapBlock::new(4096).expect("mmap block");
    let bytes = block.as_mut_ptr();
    bytes[0] = 0xAB;
    bytes[1] = 0xCD;
    assert_eq!(block.as_ptr()[0], 0xAB);
    assert_eq!(block.as_ptr()[1], 0xCD);
}

#[test]
fn large_allocation() {
    let block = MmapBlock::new(16 * 1024 * 1024).expect("large mmap block");
    assert_eq!(block.len(), 16 * 1024 * 1024);
}

#[test]
fn numa_node_is_none_by_default() {
    let block = MmapBlock::new(4096).expect("mmap block");
    assert!(block.numa_node().is_none());
}

#[test]
fn test_impossible_read_after_munmap() {
    let mut block = MmapBlock::new(4096).unwrap();
    let len = block.as_mut_ptr().len();
    drop(block);
    assert_eq!(len, 4096);
}

#[test]
fn test_impossible_mmap_block_usize_max() {
    assert!(MmapBlock::new(usize::MAX).is_err());
}

#[test]
fn test_impossible_mmap_block_on_node_max() {
    let result = MmapBlock::new_on_node(4096, u32::MAX, 1);
    assert!(matches!(result, Err(Error::InvalidNode { node: u32::MAX, available: 1 })));
}

#[test]
fn test_impossible_mmap_block_drop() {
    let block = MmapBlock::new(4096).unwrap();
    drop(block);
}

#[test]
fn test_impossible_mmap_new_on_node_large_unmapped() {
    let result = MmapBlock::new_on_node(usize::MAX / 2, 0, 1);
    assert!(result.is_err());
}

#[test]
fn mmap_anon_zero_bytes_fails() {
    let result = MmapBlock::new(0);
    assert!(result.is_err(), "zero-byte allocation should fail");
    let error = result.unwrap_err();
    assert!(error.to_string().contains("null"), "Error should mention null");
}

#[test]
fn mmap_anon_4096_bytes_succeeds() {
    let mut block = MmapBlock::new(4096).expect("4KB allocation should succeed");
    assert_eq!(block.len(), 4096);
    assert!(!block.is_empty());
    assert!(!block.as_mut_ptr().is_empty());
}

#[test]
fn mmap_anon_2mb_hugepage_size_succeeds() {
    let size = 2 * 1024 * 1024;
    let mut block = MmapBlock::new(size).expect("2MB allocation should succeed");
    assert_eq!(block.len(), size);
    let bytes = block.as_mut_ptr();
    bytes[0] = 0x12;
    bytes[size - 1] = 0x34;
    assert_eq!(block.as_ptr()[0], 0x12);
    assert_eq!(block.as_ptr()[size - 1], 0x34);
}

#[test]
fn mmap_block_multiple_allocations() {
    for i in 0..100 {
        let size = 4096 + (i * 4096) % (1024 * 1024);
        let block = MmapBlock::new(size).expect("allocation should succeed");
        assert_eq!(block.len(), size);
    }
}

#[test]
fn mmap_block_various_sizes() {
    for size in [1, 512, 4096, 4097, 65536, 1048576] {
        let mut block = MmapBlock::new(size).expect("allocate");
        assert_eq!(block.len(), size, "size mismatch for {}", size);
        assert!(!block.as_mut_ptr().is_empty());
        let bytes = block.as_mut_ptr();
        bytes[0] = 0xAB;
        if size > 1 {
            bytes[size - 1] = 0xCD;
            assert_eq!(block.as_ptr()[size - 1], 0xCD);
        }
        assert_eq!(block.as_ptr()[0], 0xAB);
    }
}

#[test]
fn mmap_block_huge_allocation_fails_gracefully() {
    assert!(MmapBlock::new(usize::MAX).is_err(), "allocation of usize::MAX should fail");
}

#[test]
fn mmap_block_large_allocation_boundary() {
    let large_size = 1024usize * 1024 * 1024;
    match MmapBlock::new(large_size) {
        Ok(mut block) => {
            assert_eq!(block.len(), large_size);
            let bytes = block.as_mut_ptr();
            bytes[0] = 0x12;
            bytes[large_size - 1] = 0x34;
        }
        Err(e) => {
            let msg = e.to_string();
            assert!(msg.contains("mmap") || msg.contains("system") || msg.contains("allocation"));
        }
    }
}

#[test]
fn mmap_block_zero_bytes_fails_gracefully() {
    let result = MmapBlock::new(0);
    assert!(result.is_err());
    let msg = result.unwrap_err().to_string();
    assert!(msg.contains("null") || msg.contains("zero") || msg.contains("length"));
}

#[test]
fn test_legendary_adversarial_mmapblock_zero() {
    assert!(MmapBlock::new(0).is_err());
}

#[test]
fn test_legendary_adversarial_mmapblock_huge() {
    assert!(MmapBlock::new(usize::MAX - 4095).is_err());
}

#[test]
fn test_legendary_adversarial_mmapblock_alternating_patterns() {
    let mut block = MmapBlock::new(4096).unwrap();
    let bytes = block.as_mut_ptr();
    for i in 0..4096 {
        bytes[i] = if i % 2 == 0 { 0xFF } else { 0x00 };
    }
    for i in 0..4096 {
        assert_eq!(block.as_ptr()[i], if i % 2 == 0 { 0xFF } else { 0x00 }, "Pattern must match");
    }
}

#[test]
fn test_legendary_unit_mmapblock() {
    let mut block = MmapBlock::new(4096).unwrap();
    assert_eq!(block.len(), 4096);
    assert!(!block.is_empty());
    assert!(block.numa_node().is_none());
    block.as_mut_ptr()[0] = 1;
    assert_eq!(block.as_ptr()[0], 1);
}

#[test]
fn test_legendary_property_mmapblock() {
    for size in (1usize..10000).step_by(97) {
        let b = MmapBlock::new(size).unwrap();
        assert_eq!(b.len(), size);
        assert!(!b.is_empty());
    }
}

#[test]
fn test_legendary_property_mmapblock_overflow_probes() {
    for size in (usize::MAX - 4096)..=usize::MAX {
        assert!(MmapBlock::new(size).is_err(), "Must reject sizes that overflow");
    }
}

#[test]
fn new_on_node_records_the_node() {
    let block = MmapBlock::new_on_node(8192, 1, 2).unwrap();
    assert_eq!(block.numa_node(), Some(1));
    assert_eq!(block.len(), 8192);
    assert!(matches!(MmapBlock::new_on_node(0, 0, 1), Err(Error::NullPointer)));
    assert!(matches!(MmapBlock::new_on_node(4096, 2, 2), Err(Error::InvalidNode { node: 2, available: 2 })));
}

#[test]
fn fresh_anonymous_block_reads_back_writes() {
    let mut block = MmapBlock::new(3).unwrap();
    block.as_mut_ptr().copy_from_slice(&[7, 8, 9]);
    assert_eq!(block.as_ptr(), &[7, 8, 9]);
}

#[test]
fn advice_operation_names() {
    assert_eq!(MmapAdvice::Sequential.operation(), "madvise(SEQUENTIAL)");
    assert_eq!(MmapAdvice::Random.operation(), "madvise(RANDOM)");
    assert_eq!(MmapAdvice::WillNeed.operation(), "madvise(WILLNEED)");
}

#[test]
fn from_mapping_records_the_node_or_refuses_it() {
    let map = memmap2::MmapMut::map_anon(4096).expect("anonymous map");
    let block = MmapBlock::from_mapping(map, 4096, 1, 2).expect("node 1 of 2");
    assert_eq!(block.numa_node(), Some(1));
    assert_eq!(block.len(), 4096);
    let map = memmap2::MmapMut::map_anon(4096).expect("anonymous map");
    assert!(matches!(
        MmapBlock::from_mapping(map, 4096, 2, 2),
        Err(Error::InvalidNode { node: 2, available: 2 })
    ));
}
