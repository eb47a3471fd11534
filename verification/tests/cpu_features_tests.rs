//! CPU features from probes, and sysfs cache value parsing.

use kernelkit::cpu_features::{self, parse_cache_value, CacheIndex, CpuFeatures, CpuProbe};

fn index(line: Option<&str>, size: Option<&str>, kind: Option<&str>) -> CacheIndex {
    CacheIndex {
        coherency_line_size: line.map(String::from),
        size: size.map(String::from),
        kind: kind.map(String::from),
    }
}

/// A probe as a typical x86-64 machine with sysfs reports it.
fn typical_probe() -> CpuProbe {
    CpuProbe {
        avx512f: false,
        avx512bw: true,
        avx512vl: true,
        avx512vbmi: false,
        avx2: true,
        neon: false,
        index0: index(Some("64\n"), Some("48K\n"), Some("Data\n")),
        index1: index(Some("64\n"), Some("32K\n"), Some("Instruction\n")),
        index2: index(Some("64\n"), Some("2048K\n"), Some("Unified\n")),
        index3: index(Some("64\n"), Some("36864K\n"), Some("Unified\n")),
    }
}

/// A probe where no sysfs cache file could be read.
fn bare_probe() -> CpuProbe {
    CpuProbe {
        avx512f: false,
        avx512bw: false,
        avx512vl: false,
        avx512vbmi: false,
        avx2: false,
        neon: true,
        index0: index(None, None, None),
        index1: index(None, None, None),
        index2: index(None, None, None),
        index3: index(None, None, None),
    }
}

fn detect() -> CpuFeatures {
    cpu_features::detect(&typical_probe())
}

#[test]
fn detect_returns_stable_cached_result() {
    let first = detect();
    let second = detect();
    assert_eq!(first, second);
    assert!(first.cache_line_size > 0);
    assert!(first.l1_size > 0);
}

#[test]
fn linux_cache_sizes_are_non_zero_for_l1_and_l2() {
    let features = detect();
    assert!(features.l1_size > 0);
    assert!(features.l2_size > 0);
}

#[test]
fn parse_cache_value_handles_all_unit_suffixes() {
    assert_eq!(parse_cache_value("32K"), Ok(32 * 1024));
    assert_eq!(parse_cache_value("32KB"), Ok(32 * 1024));
    assert_eq!(parse_cache_value("32 KiB"), Ok(32 * 1024));
    assert_eq!(parse_cache_value("256M"), Ok(256 * 1024 * 1024));
    assert_eq!(parse_cache_value("1G"), Ok(1024 * 1024 * 1024));
    assert_eq!(parse_cache_value("1 GiB"), Ok(1024 * 1024 * 1024));
    assert_eq!(parse_cache_value("64 B"), Ok(64));
    assert_eq!(parse_cache_value("64BYTES"), Ok(64));
    assert_eq!(parse_cache_value("4096"), Ok(4096));
    assert!(parse_cache_value("invalid").is_err());
    assert!(parse_cache_value("").is_err());
}

#[test]
fn parse_cache_value_edge_cases() {
    assert_eq!(parse_cache_value("  32k \n"), Ok(32 * 1024));
    assert_eq!(parse_cache_value("+8m"), Ok(8 * 1024 * 1024));
    assert_eq!(parse_cache_value("2mib"), Ok(2 * 1024 * 1024));
    assert_eq!(parse_cache_value("0"), Ok(0));
    assert!(parse_cache_value("K").is_err());
    assert!(parse_cache_value("-1K").is_err());
    assert!(parse_cache_value("1.5M").is_err());
    assert!(parse_cache_value("18446744073709551615G").is_err());
    assert_eq!(parse_cache_value("18446744073709551615"), Ok(usize::MAX));
    assert!(parse_cache_value("18446744073709551616").is_err());
    assert_eq!(parse_cache_value("\u{a0}16K\u{3000}"), Ok(16 * 1024));
}

#[test]
fn detect_uses_sysfs_values() {
    let f = detect();
    assert_eq!(f.cache_line_size, 64);
    assert_eq!(f.l1_size, 48 * 1024);
    assert_eq!(f.l2_size, 2048 * 1024);
    assert_eq!(f.l3_size, 36864 * 1024);
    assert!(f.avx2);
    assert!(!f.avx512 && !f.avx512bw && !f.avx512vl);
}

#[test]
fn detect_falls_back_without_sysfs() {
    let f = cpu_features::detect(&bare_probe());
    assert_eq!(f.cache_line_size, 64);
    assert_eq!(f.l1_size, 32 * 1024);
    assert_eq!(f.l2_size, 256 * 1024);
    assert_eq!(f.l3_size, 0);
    assert!(f.neon);
}

#[test]
fn detect_skips_instruction_cache_for_l1() {
    let mut probe = typical_probe();
    probe.index0 = index(Some("64"), Some("64K"), Some("Instruction"));
    probe.index1 = index(None, Some("48K"), Some("data"));
    assert_eq!(cpu_features::detect(&probe).l1_size, 48 * 1024);
    // Neither index is a data cache: the size of index 0 is used.
    probe.index1 = index(None, Some("48K"), Some("Instruction"));
    assert_eq!(cpu_features::detect(&probe).l1_size, 64 * 1024);
    // An unparsable line size falls back to index 1.
    probe.index0 = index(Some("garbage"), None, None);
    probe.index1 = index(Some("128"), None, None);
    let f = cpu_features::detect(&probe);
    assert_eq!(f.cache_line_size, 128);
    assert_eq!(f.l1_size, 32 * 1024);
}

#[test]
fn detect_gates_avx512_extensions() {
    let mut probe = typical_probe();
    probe.avx512f = true;
    let f = cpu_features::detect(&probe);
    assert!(f.avx512 && f.avx512bw && f.avx512vl && !f.avx512vbmi);
}

#[test]
fn test_impossible_cpu_features_stress() {
    let first = detect();
    for _ in 0..1000 {
        assert_eq!(detect(), first);
    }
}

#[test]
fn cpu_features_detect_returns_valid_cache_line_size() {
    let features = detect();
    assert!(features.cache_line_size > 0, "cache_line_size must be positive");
    assert!(features.cache_line_size.is_power_of_two(), "cache_line_size should be power of 2");
    assert!(features.cache_line_size >= 16 && features.cache_line_size <= 256);
}

#[test]
fn cpu_features_detect_returns_valid_l1_size() {
    let features = detect();
    assert!(features.l1_size > 0, "L1 size must be positive");
    assert!(features.l1_size >= 1024 && features.l1_size <= 1024 * 1024);
}

#[test]
fn cpu_features_detect_returns_valid_l2_size() {
    let features = detect();
    if features.l2_size > 0 {
        assert!(features.l2_size >= 1024 && features.l2_size <= 64 * 1024 * 1024);
    }
}

#[test]
fn cpu_features_detect_is_deterministic() {
    let first = detect();
    let second = detect();
    let third = detect();
    assert_eq!(first, second);
    assert_eq!(second, third);
    assert_eq!(first, third);
}

#[test]
fn cpu_features_avx2_is_boolean() {
    let features = detect();
    let _ = features.avx2;
}

#[test]
fn cpu_features_neon_is_boolean() {
    let features = detect();
    let _ = features.neon;
}

#[test]
fn cpu_features_avx512_variants_consistent() {
    for probe in [typical_probe(), bare_probe()] {
        let features = cpu_features::detect(&probe);
        if !features.avx512 {
            assert!(!features.avx512bw, "avx512bw requires avx512");
            assert!(!features.avx512vl, "avx512vl requires avx512");
            assert!(!features.avx512vbmi, "avx512vbmi requires avx512");
        }
    }
}

#[test]
fn cpu_features_struct_equality() {
    let f1 = detect();
    let f2 = detect();
    assert_eq!(f1.avx512, f2.avx512);
    assert_eq!(f1.avx512bw, f2.avx512bw);
    assert_eq!(f1.avx512vl, f2.avx512vl);
    assert_eq!(f1.avx512vbmi, f2.avx512vbmi);
    assert_eq!(f1.avx2, f2.avx2);
    assert_eq!(f1.neon, f2.neon);
    assert_eq!(f1.cache_line_size, f2.cache_line_size);
    assert_eq!(f1.l1_size, f2.l1_size);
    assert_eq!(f1.l2_size, f2.l2_size);
    assert_eq!(f1.l3_size, f2.l3_size);
}

#[test]
fn cpu_features_detect_is_idempotent() {
    assert_eq!(detect(), detect());
}

#[test]
fn cpu_features_cache_sizes_reasonable() {
    let f = detect();
    assert!(f.cache_line_size >= 32);
    assert!(f.cache_line_size <= 256);
    assert!(f.l1_size > 0, "L1 size is 0");
}

#[test]
fn edge_cpu_features_cache_line_positive() {
    assert!(detect().cache_line_size > 0);
}

#[test]
fn edge_cpu_features_has_avx_flag() {
    let _ = detect().avx2;
}

#[test]
fn edge_cpu_features_has_neon_flag() {
    let _ = detect().neon;
}

#[test]
fn edge_cpu_features_clone() {
    let a = detect();
    let b = a;
    assert_eq!(a.cache_line_size, b.cache_line_size);
}

#[test]
fn edge_cpu_features_debug() {
    let s = format!("{:?}", detect());
    assert!(s.contains("cache_line_size"));
}

#[test]
fn edge_cpu_features_detect_idempotent() {
    assert_eq!(detect().avx2, detect().avx2);
}

#[test]
fn edge_cpu_features_l1_size() {
    let _ = detect().l1_size;
}

#[test]
fn edge_cpu_features_l3_size() {
    let _ = detect().l3_size;
}

#[test]
fn edge_cpu_features_avx512bw() {
    let _ = detect().avx512bw;
}

#[test]
fn edge_cpu_features_avx512vl() {
    let _ = detect().avx512vl;
}

#[test]
fn edge_cpu_features_arm_neutral() {
    assert!(detect().cache_line_size <= 512);
}

#[test]
fn edge_cpu_features_avx512vbmi() {
    let _ = detect().avx512vbmi;
}
