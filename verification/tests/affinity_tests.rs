//! IRQ affinity parsing and thread affinity masks.

use kernelkit::affinity::{core_mask, parse_irq_affinity};
use kernelkit::Error;

#[test]
fn parse_irq_affinity_handles_single_32bit_group() {
    let cores = parse_irq_affinity("80000003").unwrap();
    assert_eq!(cores, vec![0, 1, 31]);
}

#[test]
fn parse_irq_affinity_handles_multiple_32bit_groups() {
    let cores = parse_irq_affinity("00000001,00000003").unwrap();
    assert_eq!(cores, vec![0, 1, 32]);
}

#[test]
fn parse_irq_affinity_handles_96_cores() {
    let cores = parse_irq_affinity("00000001,00000000,80000001").unwrap();
    assert_eq!(cores, vec![0, 31, 64]);
}

#[test]
fn parse_irq_affinity_accepts_hex_prefix_and_whitespace() {
    assert_eq!(parse_irq_affinity("0x00000005\n").unwrap(), vec![0, 2]);
    assert_eq!(parse_irq_affinity("0X1, 0x2").unwrap(), vec![1, 32]);
    assert_eq!(parse_irq_affinity("ff").unwrap(), (0..8).collect::<Vec<u32>>());
    assert_eq!(parse_irq_affinity("00000000").unwrap(), Vec::<u32>::new());
}

#[test]
fn parse_irq_affinity_ignores_bits_above_32() {
    assert_eq!(parse_irq_affinity("100000001").unwrap(), vec![0]);
}

#[test]
fn parse_irq_affinity_rejects_malformed_chunks() {
    for bad in ["", "zz", "1,,2", "0x", "-1"] {
        let error = parse_irq_affinity(bad).unwrap_err();
        assert!(matches!(error, Error::System { operation: "read_irq_affinity", .. }));
    }
    let error = parse_irq_affinity("12,xyz").unwrap_err();
    assert!(error.to_string().contains("malformed affinity mask chunk: xyz"));
}

#[test]
fn core_mask_sets_one_bit() {
    let mask = core_mask(0, 1024).unwrap();
    assert_eq!(mask.len(), 1024 / usize::BITS as usize);
    assert_eq!(mask[0], 1);
    assert!(mask[1..].iter().all(|&w| w == 0));

    let core = usize::BITS as usize + 3;
    let mask = core_mask(core, 1024).unwrap();
    assert_eq!(mask[1], 1 << 3);
    assert_eq!(mask.iter().filter(|&&w| w != 0).count(), 1);
}

#[test]
fn core_mask_rejects_cores_beyond_the_set() {
    let error = core_mask(1024, 1024).unwrap_err();
    assert!(matches!(error, Error::System { operation: "sched_setaffinity", .. }));
    // A negative set size falls back to 1024 CPUs.
    assert!(core_mask(1023, -1).is_ok());
    assert!(core_mask(1024, -1).is_err());
    // The set is rounded up to whole words.
    assert!(core_mask(usize::BITS as usize - 1, 1).is_ok());
    assert!(core_mask(usize::BITS as usize, 1).is_err());
}

#[test]
fn parse_irq_affinity_lists_cores_in_ascending_order() {
    let cores = parse_irq_affinity("ffffffff,00000000,f000000f").unwrap();
    assert_eq!(cores.len(), 40);
    assert!(cores.windows(2).all(|w| w[0] < w[1]));
    assert_eq!(cores[0], 0);
    assert_eq!(cores[39], 95);
}
