//! Header and section decoding.

use kernelkit::binformat::{self, read_section, FileHeader};
use kernelkit::Error;

fn written(magic: &[u8], version: u64) -> Vec<u8> {
    let mut bytes = Vec::new();
    FileHeader { magic, version }.write_to(&mut bytes).expect("write header");
    bytes
}

#[test]
fn file_header_round_trip() {
    let header = FileHeader { magic: b"KIT1", version: 3 };
    let mut bytes = Vec::new();
    header.write_to(&mut bytes).expect("write header");
    bytes.extend_from_slice(b"payload");

    let (version, rest) = FileHeader::read_from(&bytes, b"KIT1", 3).expect("read header");
    assert_eq!(version, 3);
    assert_eq!(rest, b"payload");
}

#[test]
fn read_section_round_trip() {
    let mut bytes = Vec::new();
    bytes.extend_from_slice(&(4_u64).to_le_bytes());
    bytes.extend_from_slice(b"data");
    bytes.extend_from_slice(b"tail");

    let (payload, rest) = read_section(&bytes).expect("read section");
    assert_eq!(payload, b"data");
    assert_eq!(rest, b"tail");
}

#[test]
fn read_header_rejects_wrong_magic() {
    let bytes = written(b"BAD!", 1);
    let error = FileHeader::read_from(&bytes, b"KIT1", 1).expect_err("wrong magic");
    assert!(matches!(error, Error::InvalidMagic));
}

#[test]
fn read_header_rejects_truncated_magic() {
    let error = FileHeader::read_from(b"KI", b"KIT1", 1).expect_err("truncated magic");
    assert!(matches!(
        error,
        Error::UnexpectedEof { context: "file header magic", needed: 4, remaining: 2 }
    ));
}

#[test]
fn read_header_rejects_truncated_version() {
    let error = FileHeader::read_from(b"KIT1\x01\x00\x00", b"KIT1", 1).expect_err("truncated version");
    assert!(matches!(
        error,
        Error::UnexpectedEof { context: "file header version", needed: 8, remaining: 3 }
    ));
}

#[test]
fn read_header_rejects_newer_version() {
    let bytes = written(b"KIT1", 9);
    let error = FileHeader::read_from(&bytes, b"KIT1", 3).expect_err("newer version");
    assert!(matches!(error, Error::UnsupportedVersion { version: 9, max_version: 3 }));
}

#[test]
fn read_section_rejects_truncated_length() {
    let error = read_section(&[1, 2, 3]).expect_err("truncated length");
    assert!(matches!(error, Error::UnexpectedEof { context: "section length", needed: 8, remaining: 3 }));
}

#[test]
fn read_section_rejects_truncated_payload() {
    let mut bytes = Vec::new();
    bytes.extend_from_slice(&(5_u64).to_le_bytes());
    bytes.extend_from_slice(b"abc");
    let error = read_section(&bytes).expect_err("truncated payload");
    assert!(matches!(error, Error::UnexpectedEof { context: "section payload", needed: 5, remaining: 3 }));
}

#[test]
fn read_section_zero_length() {
    let mut bytes = Vec::new();
    bytes.extend_from_slice(&(0_u64).to_le_bytes());
    bytes.extend_from_slice(b"tail");
    let (payload, rest) = read_section(&bytes).expect("zero-length section");
    assert!(payload.is_empty());
    assert_eq!(rest, b"tail");
}

#[test]
fn nested_sections() {
    let mut inner = Vec::new();
    inner.extend_from_slice(&(3_u64).to_le_bytes());
    inner.extend_from_slice(b"abc");

    let mut outer = Vec::new();
    outer.extend_from_slice(&(inner.len() as u64).to_le_bytes());
    outer.extend_from_slice(&inner);
    outer.extend_from_slice(b"after");

    let (inner_data, rest) = read_section(&outer).expect("outer section");
    assert_eq!(rest, b"after");
    let (payload, remaining) = read_section(inner_data).expect("inner section");
    assert_eq!(payload, b"abc");
    assert!(remaining.is_empty());
}

#[test]
fn read_header_accepts_zero_length_magic() {
    let bytes = 7u64.to_le_bytes();
    let (version, rest) = FileHeader::read_from(&bytes, b"", u64::MAX).expect("header");
    assert_eq!(version, 7);
    assert!(rest.is_empty());
}

#[test]
fn read_header_accepts_max_u64_version() {
    let bytes = written(b"KIT1", u64::MAX);
    let (version, rest) = FileHeader::read_from(&bytes, b"KIT1", u64::MAX).expect("read");
    assert_eq!(version, u64::MAX);
    assert!(rest.is_empty());
}

#[test]
fn read_section_consumes_exact_remaining_payload() {
    let mut bytes = Vec::new();
    bytes.extend_from_slice(&(4_u64).to_le_bytes());
    bytes.extend_from_slice(b"data");
    let (payload, rest) = read_section(&bytes).expect("exact section");
    assert_eq!(payload, b"data");
    assert!(rest.is_empty());
}

#[test]
fn read_header_zero_magic_with_payload_rest() {
    let mut bytes = Vec::new();
    bytes.extend_from_slice(&5u64.to_le_bytes());
    bytes.extend_from_slice(b"tail");
    let (version, rest) = FileHeader::read_from(&bytes, b"", 5).expect("header");
    assert_eq!(version, 5);
    assert_eq!(rest, b"tail");
}

#[test]
fn read_section_rejects_platform_exhaustion_length() {
    let mut bytes = Vec::new();
    bytes.extend_from_slice(&u64::MAX.to_le_bytes());
    let error = read_section(&bytes).expect_err("oversized section");
    assert!(
        matches!(error, Error::SectionTooLarge { .. })
            || matches!(error, Error::UnexpectedEof { context: "section payload", .. })
    );
}

#[test]
fn read_header_rejects_zero_magic_when_version_too_new() {
    let bytes = 9u64.to_le_bytes();
    let error = FileHeader::read_from(&bytes, b"", 3).expect_err("version too new");
    assert!(matches!(error, Error::UnsupportedVersion { version: 9, max_version: 3 }));
}

#[test]
fn file_header_write_then_read_is_identity() {
    let magics: [&[u8]; 4] = [b"", b"K", b"KIT1", b"\x00\xff\x10\x20\x30\x40\x50"];
    let versions = [0u64, 1, 255, 256, 0x0102_0304_0506_0708, u64::MAX - 1, u64::MAX];
    let tails: [&[u8]; 3] = [b"", b"x", b"a longer tail of payload bytes!"];
    for magic in magics {
        for version in versions {
            for tail in tails {
                let mut bytes = written(magic, version);
                bytes.extend_from_slice(tail);
                let (decoded, rest) = FileHeader::read_from(&bytes, magic, u64::MAX).unwrap();
                assert_eq!(decoded, version);
                assert_eq!(rest, tail);
            }
        }
    }
}

#[test]
fn test_impossible_binformat_unsupported_version() {
    let mut bytes = b"TEST".to_vec();
    bytes.extend_from_slice(&255u64.to_le_bytes());
    let result = binformat::FileHeader::read_from(&bytes, b"TEST", 1);
    assert!(matches!(result, Err(Error::UnsupportedVersion { version: 255, max_version: 1 })));
}

#[test]
fn test_impossible_binformat_overflow_size() {
    let mut bytes = Vec::new();
    bytes.extend_from_slice(&u64::MAX.to_le_bytes());
    bytes.extend_from_slice(b"test");
    assert!(binformat::read_section(&bytes).is_err());
}

#[test]
fn test_impossible_binformat_1_byte() {
    assert!(binformat::FileHeader::read_from(b"X", b"TEST", 1).is_err());
}

#[test]
fn binformat_header_roundtrip() {
    let header = FileHeader { magic: b"TEST", version: 42 };
    let mut bytes = Vec::new();
    header.write_to(&mut bytes).expect("write header");
    bytes.extend_from_slice(b"payload data here");
    let (version, rest) = FileHeader::read_from(&bytes, b"TEST", 100).expect("read header");
    assert_eq!(version, 42);
    assert_eq!(rest, b"payload data here");
}

#[test]
fn binformat_corrupted_header_detection() {
    let bytes = written(b"GOOD", 1);
    let error = FileHeader::read_from(&bytes, b"BAD!", 1).expect_err("should fail with wrong magic");
    assert!(matches!(error, Error::InvalidMagic));
}

#[test]
fn binformat_unsupported_version_detection() {
    let bytes = written(b"TEST", 100);
    let error = FileHeader::read_from(&bytes, b"TEST", 50).expect_err("unsupported version");
    assert!(matches!(error, Error::UnsupportedVersion { version: 100, max_version: 50 }));
}

#[test]
fn binformat_truncated_magic_detection() {
    let error = FileHeader::read_from(b"TE", b"TEST", 1).expect_err("truncated magic");
    assert!(matches!(error, Error::UnexpectedEof { context: "file header magic", .. }));
}

#[test]
fn binformat_truncated_version_detection() {
    let error = FileHeader::read_from(b"TEST\x01\x00\x00", b"TEST", 1).expect_err("truncated version");
    assert!(matches!(error, Error::UnexpectedEof { context: "file header version", .. }));
}

#[test]
fn binformat_section_roundtrip() {
    let mut bytes = Vec::new();
    let payload = b"hello world";
    bytes.extend_from_slice(&(payload.len() as u64).to_le_bytes());
    bytes.extend_from_slice(payload);
    bytes.extend_from_slice(b"tail");
    let (section, rest) = binformat::read_section(&bytes).expect("read section");
    assert_eq!(section, payload);
    assert_eq!(rest, b"tail");
}

#[test]
fn binformat_section_too_large_detection() {
    let bytes = u64::MAX.to_le_bytes();
    let error = binformat::read_section(&bytes).expect_err("should fail with section too large");
    assert!(
        matches!(error, Error::SectionTooLarge { .. })
            || matches!(error, Error::UnexpectedEof { context: "section payload", .. })
    );
}

#[test]
fn binformat_section_truncated_payload_detection() {
    let mut bytes = Vec::new();
    bytes.extend_from_slice(&100u64.to_le_bytes());
    bytes.extend_from_slice(b"only 17 bytes");
    let error = binformat::read_section(&bytes).expect_err("truncated payload");
    assert!(matches!(error, Error::UnexpectedEof { context: "section payload", .. }));
}

#[test]
fn binformat_zero_length_section() {
    let mut bytes = Vec::new();
    bytes.extend_from_slice(&0u64.to_le_bytes());
    bytes.extend_from_slice(b"tail");
    let (section, rest) = binformat::read_section(&bytes).expect("read zero-length section");
    assert!(section.is_empty());
    assert_eq!(rest, b"tail");
}

#[test]
fn binformat_nested_sections() {
    let mut inner = Vec::new();
    inner.extend_from_slice(&3u64.to_le_bytes());
    inner.extend_from_slice(b"abc");
    let mut outer = Vec::new();
    outer.extend_from_slice(&(inner.len() as u64).to_le_bytes());
    outer.extend_from_slice(&inner);
    outer.extend_from_slice(b"after");
    let (inner_data, rest) = binformat::read_section(&outer).expect("read outer");
    assert_eq!(rest, b"after");
    let (payload, remaining) = binformat::read_section(inner_data).expect("read inner");
    assert_eq!(payload, b"abc");
    assert!(remaining.is_empty());
}

#[test]
fn binformat_large_payload_roundtrip() {
    let mut bytes = Vec::new();
    let payload = vec![0xABu8; 100000];
    bytes.extend_from_slice(&(payload.len() as u64).to_le_bytes());
    bytes.extend_from_slice(&payload);
    let (section, rest) = binformat::read_section(&bytes).expect("read large section");
    assert_eq!(section.len(), payload.len());
    assert_eq!(section, payload.as_slice());
    assert!(rest.is_empty());
}

#[test]
fn binformat_many_sections() {
    let mut bytes = Vec::new();
    let section_count = 100;
    for i in 0..section_count {
        let payload = vec![i as u8; 100];
        bytes.extend_from_slice(&(payload.len() as u64).to_le_bytes());
        bytes.extend_from_slice(&payload);
    }
    let mut remaining = bytes.as_slice();
    for i in 0..section_count {
        let (section, rest) = binformat::read_section(remaining).expect("read section");
        assert_eq!(section.len(), 100);
        assert!(section.iter().all(|&b| b == i as u8));
        remaining = rest;
    }
    assert!(remaining.is_empty());
}

#[test]
fn binformat_read_from_empty() {
    assert!(FileHeader::read_from(b"", b"TEST", 1).is_err());
}

#[test]
fn binformat_read_section_empty() {
    assert!(binformat::read_section(b"").is_err());
}

#[test]
fn edge_header_roundtrip() {
    let buf = written(b"KIT1", 3);
    let (ver, rest) = FileHeader::read_from(&buf, b"KIT1", 10).unwrap();
    assert_eq!(ver, 3);
    assert!(rest.is_empty());
}

#[test]
fn edge_header_wrong_magic() {
    let buf = written(b"KIT1", 1);
    assert!(FileHeader::read_from(&buf, b"BAD!", 10).is_err());
}

#[test]
fn edge_header_truncated_magic() {
    assert!(matches!(FileHeader::read_from(b"KI", b"KIT1", 1), Err(Error::UnexpectedEof { .. })));
}

#[test]
fn edge_header_version_too_high() {
    let buf = written(b"KIT1", 99);
    assert!(FileHeader::read_from(&buf, b"KIT1", 5).is_err());
}

#[test]
fn edge_header_version_at_max() {
    let buf = written(b"KIT1", 5);
    assert_eq!(FileHeader::read_from(&buf, b"KIT1", 5).unwrap().0, 5);
}

#[test]
fn edge_header_payload_after_header() {
    let mut buf = written(b"KIT1", 1);
    buf.extend_from_slice(b"payload");
    let (_, rest) = FileHeader::read_from(&buf, b"KIT1", 1).unwrap();
    assert_eq!(rest, b"payload");
}

#[test]
fn edge_header_empty_magic_rejected() {
    let buf = written(b"", 0);
    assert!(FileHeader::read_from(&buf, b"", 0).is_ok());
}

#[test]
fn edge_header_long_magic() {
    let magic = b"LONGMAGICPREFIX";
    let buf = written(magic, 2);
    assert_eq!(FileHeader::read_from(&buf, magic, 2).unwrap().0, 2);
}

#[test]
fn edge_header_version_zero() {
    let buf = written(b"KIT1", 0);
    assert_eq!(FileHeader::read_from(&buf, b"KIT1", 0).unwrap().0, 0);
}

#[test]
fn edge_header_partial_version_bytes() {
    let mut buf = b"KIT1".to_vec();
    buf.push(1);
    assert!(FileHeader::read_from(&buf, b"KIT1", 1).is_err());
}

#[test]
fn edge_header_equality() {
    let a = FileHeader { magic: b"X", version: 1 };
    let b = FileHeader { magic: b"X", version: 1 };
    assert_eq!(a, b);
}

#[test]
fn edge_header_write_twice_appends() {
    let mut buf = Vec::new();
    FileHeader { magic: b"A", version: 1 }.write_to(&mut buf).unwrap();
    FileHeader { magic: b"B", version: 2 }.write_to(&mut buf).unwrap();
    assert!(buf.len() > 2);
    assert_eq!(buf.len(), 18);
    assert_eq!(&buf[..9], &written(b"A", 1)[..]);
    assert_eq!(&buf[9..], &written(b"B", 2)[..]);
}

#[test]
fn edge_read_from_exact_length() {
    let buf = written(b"KIT1", 4);
    assert_eq!(buf.len(), 4 + 8);
}

#[test]
fn edge_header_max_version_boundary() {
    let buf = written(b"KIT1", u64::MAX);
    assert!(FileHeader::read_from(&buf, b"KIT1", u64::MAX).is_ok());
}

#[test]
fn edge_header_version_one_over_max() {
    let buf = written(b"KIT1", 6);
    assert!(FileHeader::read_from(&buf, b"KIT1", 5).is_err());
}

#[test]
fn edge_header_read_empty_buffer() {
    assert!(FileHeader::read_from(&[], b"KIT1", 1).is_err());
}

#[test]
fn edge_header_magic_case_sensitive() {
    let buf = written(b"kit1", 1);
    assert!(FileHeader::read_from(&buf, b"KIT1", 1).is_err());
}

#[test]
fn edge_header_copy_trait() {
    let h = FileHeader { magic: b"M", version: 9 };
    let c = h;
    assert_eq!(h.version, c.version);
}

#[test]
fn edge_header_version_le_encoding() {
    let buf = written(b"T", 0x0102_0304_0506_0708);
    assert_eq!(&buf[1..], &[0x08, 0x07, 0x06, 0x05, 0x04, 0x03, 0x02, 0x01]);
    let (v, _) = FileHeader::read_from(&buf, b"T", u64::MAX).unwrap();
    assert_eq!(v, 0x0102_0304_0506_0708);
}

#[test]
fn edge_header_rest_empty_when_exact() {
    let buf = written(b"Z", 1);
    assert!(FileHeader::read_from(&buf, b"Z", 1).unwrap().1.is_empty());
}

#[test]
fn test_legendary_adversarial_binformat_invalid_magic() {
    let payload = vec![0xFF, 0x00, 0xFF, 0x00, 0xFF, 0x00, 0xFF, 0x00];
    assert!(FileHeader::read_from(&payload, b"KIT1", 1).is_err(), "Engine must reject invalid magic bytes");
}

#[test]
fn test_legendary_adversarial_binformat_short_payload() {
    let payload = vec![0x4B, 0x4B, 0x49, 0x54];
    assert!(FileHeader::read_from(&payload, b"KIT1", 1).is_err(), "Engine must handle short payloads safely");
}

#[test]
fn test_legendary_property_binformat_file_header_overflow() {
    for version in (u64::MAX - 1000)..=u64::MAX {
        let bytes = written(b"TEST", version);
        let read = FileHeader::read_from(&bytes, b"TEST", u64::MAX);
        assert_eq!(read.unwrap().0, version);
    }
}

#[test]
fn test_legendary_property_read_section_overflow_probes() {
    for size in (u64::MAX - 100)..=u64::MAX {
        let mut bytes = Vec::new();
        bytes.extend_from_slice(&size.to_le_bytes());
        bytes.extend_from_slice(b"abc");
        let error = read_section(&bytes).expect_err("Must reject overflow lengths");
        assert!(
            matches!(error, Error::SectionTooLarge { .. })
                || matches!(error, Error::UnexpectedEof { context: "section payload", .. })
        );
    }
}

#[test]
fn header_error_is_the_first_failing_check() {
    // A short buffer with a wrong magic reports the missing bytes, not the magic.
    assert!(matches!(
        FileHeader::read_from(b"XY", b"KIT1", 0),
        Err(Error::UnexpectedEof { context: "file header magic", needed: 4, remaining: 2 })
    ));
    // A wrong magic is reported before a short version.
    assert!(matches!(FileHeader::read_from(b"BAD!\x01", b"KIT1", 0), Err(Error::InvalidMagic)));
}

#[test]
fn section_round_trip_law_on_values() {
    for payload in [&b""[..], b"p", b"payload bytes"] {
        for tail in [&b""[..], b"t", b"tail bytes"] {
            let mut bytes = (payload.len() as u64).to_le_bytes().to_vec();
            bytes.extend_from_slice(payload);
            bytes.extend_from_slice(tail);
            let (p, t) = read_section(&bytes).unwrap();
            assert_eq!(p, payload);
            assert_eq!(t, tail);
        }
    }
}
