//! Helpers for small self-describing binary formats.
//!
//! A header is the raw magic bytes followed by the format version as a
//! little-endian `u64`. A section is its payload length as a little-endian
//! `u64` followed by the payload bytes.

use vstd::bytes::{
    lemma_auto_spec_u64_to_from_le_bytes, spec_u64_from_le_bytes, spec_u64_to_le_bytes,
    u64_from_le_bytes, u64_to_le_bytes,
};
use vstd::prelude::*;

use crate::Error;

verus! {

/// Width in bytes of the little-endian `u64` fields of the format.
pub const U64_WIDTH: usize = 8;

/// Fixed binary header containing a magic prefix and format version.
#[derive(Clone, Copy, Debug, Eq, PartialEq)]
pub struct FileHeader<'a> {
    /// Format magic prefix.
    pub magic: &'a [u8],
    /// Format version encoded after the magic.
    pub version: u64,
}

/// The bytes of a header: the magic, then the version in little-endian order.
pub open spec fn header_bytes(magic: Seq<u8>, version: u64) -> Seq<u8> {
    magic + spec_u64_to_le_bytes(version)
}

/// The bytes of a section: the payload length in little-endian order, then the payload.
pub open spec fn section_bytes(payload: Seq<u8>) -> Seq<u8> {
    spec_u64_to_le_bytes(payload.len() as u64) + payload
}

/// What reading a header from `data` yields: the version and the bytes after
/// the header, or the error that the first failing check reports.
pub open spec fn decode_header(data: Seq<u8>, magic: Seq<u8>, max_version: u64) -> core::result::Result<(u64, Seq<u8>), Error> {
    let m = magic.len() as int;
    if data.len() < m {
        Err(Error::UnexpectedEof {
            context: "file header magic",
            needed: m as usize,
            remaining: data.len() as usize,
        })
    } else if data.subrange(0, m) != magic {
        Err(Error::InvalidMagic)
    } else if data.len() - m < 8 {
        Err(Error::UnexpectedEof {
            context: "file header version",
            needed: 8,
            remaining: (data.len() - m) as usize,
        })
    } else {
        let version = spec_u64_from_le_bytes(data.subrange(m, m + 8));
        if version > max_version {
            Err(Error::UnsupportedVersion { version, max_version })
        } else {
            Ok((version, data.subrange(m + 8, data.len() as int)))
        }
    }
}

/// What reading a section from `data` yields: the payload and the bytes after
/// the section, or the error that the first failing check reports.
pub open spec fn decode_section(data: Seq<u8>) -> core::result::Result<(Seq<u8>, Seq<u8>), Error> {
    if data.len() < 8 {
        Err(Error::UnexpectedEof {
            context: "section length",
            needed: 8,
            remaining: data.len() as usize,
        })
    } else {
        let declared = spec_u64_from_le_bytes(data.subrange(0, 8));
        let after = data.subrange(8, data.len() as int);
        if declared > usize::MAX {
            Err(Error::SectionTooLarge { length: declared })
        } else if after.len() < declared {
            Err(Error::UnexpectedEof {
                context: "section payload",
                needed: declared as usize,
                remaining: after.len() as usize,
            })
        } else {
            Ok((after.subrange(0, declared as int), after.subrange(declared as int, after.len() as int)))
        }
    }
}

/// A written header reads back: decoding the bytes of a header with
/// `version`, followed by any tail, against the same magic and a maximum of at
/// least `version`, gives back `version` and exactly the tail.
pub proof fn lemma_header_round_trip(magic: Seq<u8>, version: u64, tail: Seq<u8>, max_version: u64)
    requires
        version <= max_version,
    ensures
        decode_header(header_bytes(magic, version) + tail, magic, max_version)
            == Ok::<(u64, Seq<u8>), Error>((version, tail)),
{
    lemma_auto_spec_u64_to_from_le_bytes();
    let data = header_bytes(magic, version) + tail;
    let m = magic.len() as int;
    assert(data.subrange(0, m) =~= magic);
    assert(data.subrange(m, m + 8) =~= spec_u64_to_le_bytes(version));
    assert(data.subrange(m + 8, data.len() as int) =~= tail);
}

/// A header whose version is newer than the reader accepts is refused with
/// that version and the reader's maximum, whatever follows it.
pub proof fn lemma_header_rejects_newer_version(magic: Seq<u8>, version: u64, tail: Seq<u8>, max_version: u64)
    requires
        version > max_version,
    ensures
        decode_header(header_bytes(magic, version) + tail, magic, max_version)
            == Err::<(u64, Seq<u8>), Error>(Error::UnsupportedVersion { version, max_version }),
{
    lemma_auto_spec_u64_to_from_le_bytes();
    let data = header_bytes(magic, version) + tail;
    let m = magic.len() as int;
    assert(data.subrange(0, m) =~= magic);
    assert(data.subrange(m, m + 8) =~= spec_u64_to_le_bytes(version));
}

/// A written section reads back: decoding a length-prefixed payload followed by
/// any tail gives back exactly the payload and the tail.
pub proof fn lemma_section_round_trip(payload: Seq<u8>, tail: Seq<u8>)
    requires
        payload.len() <= usize::MAX,
    ensures
        decode_section(section_bytes(payload) + tail) == Ok::<(Seq<u8>, Seq<u8>), Error>((payload, tail)),
{
    lemma_auto_spec_u64_to_from_le_bytes();
    let data = section_bytes(payload) + tail;
    let n = payload.len() as u64;
    assert(data.subrange(0, 8) =~= spec_u64_to_le_bytes(n));
    let after = data.subrange(8, data.len() as int);
    assert(after =~= payload + tail);
    assert(after.subrange(0, payload.len() as int) =~= payload);
    assert(after.subrange(payload.len() as int, after.len() as int) =~= tail);
}

/// A header is accepted only as what was written: when decoding succeeds, the
/// data is the header of the version it gives, against the reader's magic,
/// followed by the rest it gives, and the version is one the reader accepts.
pub proof fn lemma_header_accepts_only_written(data: Seq<u8>, magic: Seq<u8>, max_version: u64)
    ensures
        decode_header(data, magic, max_version) matches Ok((version, rest)) ==> data == header_bytes(magic, version)
            + rest && version <= max_version,
{
    lemma_auto_spec_u64_to_from_le_bytes();
    if decode_header(data, magic, max_version) is Ok {
        let m = magic.len() as int;
        let version = spec_u64_from_le_bytes(data.subrange(m, m + 8));
        assert(spec_u64_to_le_bytes(version) =~= data.subrange(m, m + 8));
        assert(data =~= data.subrange(0, m) + data.subrange(m, m + 8) + data.subrange(m + 8, data.len() as int));
    }
}

/// A header whose first bytes are not the reader's magic is refused with
/// `InvalidMagic`, whatever its version and whatever follows.
pub proof fn lemma_header_rejects_wrong_magic(data: Seq<u8>, magic: Seq<u8>, max_version: u64)
    requires
        data.len() >= magic.len(),
        data.subrange(0, magic.len() as int) != magic,
    ensures
        decode_header(data, magic, max_version) == Err::<(u64, Seq<u8>), Error>(Error::InvalidMagic),
{
}

/// A section is accepted only as what was written: when decoding succeeds,
/// the data is the section of the payload it gives, followed by the rest it
/// gives.
pub proof fn lemma_section_accepts_only_written(data: Seq<u8>)
    ensures
        decode_section(data) matches Ok((payload, rest)) ==> data == section_bytes(payload) + rest,
{
    lemma_auto_spec_u64_to_from_le_bytes();
    if decode_section(data) is Ok {
        let declared = spec_u64_from_le_bytes(data.subrange(0, 8));
        assert(spec_u64_to_le_bytes(declared) =~= data.subrange(0, 8));
        let after = data.subrange(8, data.len() as int);
        let payload = after.subrange(0, declared as int);
        assert(payload.len() as u64 == declared);
        assert(data =~= data.subrange(0, 8) + payload + after.subrange(declared as int, after.len() as int));
    }
}

/// Whether two byte slices hold the same bytes.
fn bytes_equal(a: &[u8], b: &[u8]) -> (eq: bool)
    ensures
        eq == (a@ == b@),
{
    if a.len() != b.len() {
        return false;
    }
    let mut i: usize = 0;
    while i < a.len()
        invariant
            a@.len() == b@.len(),
            0 <= i <= a@.len(),
            forall|j: int| 0 <= j < i ==> a@[j] == b@[j],
        decreases a@.len() - i,
    {
        if a[i] != b[i] {
            return false;
        }
        i = i + 1;
    }
    assert(a@ =~= b@);
    true
}

impl FileHeader<'_> {
    /// Write the header to a byte sink: the magic, then the little-endian version.
    ///
    /// Appending to a vector cannot fail, so the result is always `Ok`.
    pub fn write_to(&self, w: &mut Vec<u8>) -> (r: std::io::Result<()>)
        ensures
            r is Ok,
            final(w)@ == old(w)@ + header_bytes(self.magic@, self.version),
    {
        w.extend_from_slice(self.magic);
        let ghost mid = w@;
        let version_bytes = u64_to_le_bytes(self.version);
        w.extend_from_slice(version_bytes.as_slice());
        proof {
            assert forall|i: int| 0 <= i < mid.len() implies w@[i] == mid[i] by {}
            assert(mid =~= old(w)@ + self.magic@);
            assert(w@ =~= old(w)@ + header_bytes(self.magic@, self.version));
        }
        Ok(())
    }

    /// Read and validate a header from the start of `data`.
    ///
    /// Returns the decoded version and the remaining payload bytes.
    pub fn read_from<'b>(data: &'b [u8], expected_magic: &[u8], max_version: u64) -> (r: crate::Result<(u64, &'b [u8])>)
        ensures
            match r {
                Ok((version, rest)) => decode_header(data@, expected_magic@, max_version) == Ok::<(u64, Seq<u8>), Error>((version, rest@)),
                Err(e) => decode_header(data@, expected_magic@, max_version) == Err::<(u64, Seq<u8>), Error>(e),
            },
            r matches Ok((version, rest)) ==> data@ == header_bytes(expected_magic@, version) + rest@
                && version <= max_version,
            data@.len() >= expected_magic@.len() && data@.subrange(0, expected_magic@.len() as int)
                != expected_magic@ ==> r == Err::<(u64, &[u8]), Error>(Error::InvalidMagic),
            data@.len() < expected_magic@.len() ==> r == Err::<(u64, &[u8]), Error>(
                Error::UnexpectedEof {
                    context: "file header magic",
                    needed: expected_magic@.len() as usize,
                    remaining: data@.len() as usize,
                },
            ),
            forall|version: u64, tail: Seq<u8>|
                data@ == #[trigger] (header_bytes(expected_magic@, version) + tail) ==> if version <= max_version {
                    r matches Ok((v, rest)) && v == version && rest@ == tail
                } else {
                    r == Err::<(u64, &[u8]), Error>(Error::UnsupportedVersion { version, max_version })
                },
    {
        let r = Self::decode_from(data, expected_magic, max_version);
        proof {
            lemma_header_accepts_only_written(data@, expected_magic@, max_version);
            if data@.len() >= expected_magic@.len() && data@.subrange(0, expected_magic@.len() as int)
                != expected_magic@ {
                lemma_header_rejects_wrong_magic(data@, expected_magic@, max_version);
            }
            assert forall|version: u64, tail: Seq<u8>|
                data@ == #[trigger] (header_bytes(expected_magic@, version) + tail) implies if version <= max_version {
                    decode_header(data@, expected_magic@, max_version) == Ok::<(u64, Seq<u8>), Error>((version, tail))
                } else {
                    decode_header(data@, expected_magic@, max_version) == Err::<(u64, Seq<u8>), Error>(
                        Error::UnsupportedVersion { version, max_version },
                    )
                } by {
                if version <= max_version {
                    lemma_header_round_trip(expected_magic@, version, tail, max_version);
                } else {
                    lemma_header_rejects_newer_version(expected_magic@, version, tail, max_version);
                }
            }
        }
        r
    }

    /// Decode a header as `decode_header` describes it.
    fn decode_from<'b>(data: &'b [u8], expected_magic: &[u8], max_version: u64) -> (r: crate::Result<(u64, &'b [u8])>)
        ensures
            match r {
                Ok((version, rest)) => decode_header(data@, expected_magic@, max_version) == Ok::<(u64, Seq<u8>), Error>((version, rest@)),
                Err(e) => decode_header(data@, expected_magic@, max_version) == Err::<(u64, Seq<u8>), Error>(e),
            },
    {
        if data.len() < expected_magic.len() {
            return Err(Error::UnexpectedEof {
                context: "file header magic",
                needed: expected_magic.len(),
                remaining: data.len(),
            });
        }
        let (actual_magic, after_magic) = data.split_at(expected_magic.len());
        if !bytes_equal(actual_magic, expected_magic) {
            return Err(Error::InvalidMagic);
        }
        if after_magic.len() < U64_WIDTH {
            return Err(Error::UnexpectedEof {
                context: "file header version",
                needed: U64_WIDTH,
                remaining: after_magic.len(),
            });
        }
        let (version_bytes, rest) = after_magic.split_at(U64_WIDTH);
        let version = u64_from_le_bytes(version_bytes);
        proof {
            let m = expected_magic@.len() as int;
            assert(version_bytes@ =~= data@.subrange(m, m + 8));
            assert(rest@ =~= data@.subrange(m + 8, data@.len() as int));
        }
        if version > max_version {
            return Err(Error::UnsupportedVersion { version, max_version });
        }
        Ok((version, rest))
    }
}

/// Read a length-prefixed binary section.
///
/// Returns the payload and the remaining bytes after the section.
pub fn read_section(data: &[u8]) -> (r: crate::Result<(&[u8], &[u8])>)
    ensures
        match r {
            Ok((payload, rest)) => decode_section(data@) == Ok::<(Seq<u8>, Seq<u8>), Error>((payload@, rest@)),
            Err(e) => decode_section(data@) == Err::<(Seq<u8>, Seq<u8>), Error>(e),
        },
        r matches Ok((payload, rest)) ==> data@ == section_bytes(payload@) + rest@,
        forall|payload: Seq<u8>, tail: Seq<u8>|
            payload.len() <= usize::MAX && data@ == #[trigger] (section_bytes(payload) + tail) ==> (r matches Ok((p, t))
                && p@ == payload && t@ == tail),
{
    let r = decode_section_from(data);
    proof {
        lemma_section_accepts_only_written(data@);
        assert forall|payload: Seq<u8>, tail: Seq<u8>|
            payload.len() <= usize::MAX && data@ == #[trigger] (section_bytes(payload) + tail) implies decode_section(
                data@,
            ) == Ok::<(Seq<u8>, Seq<u8>), Error>((payload, tail)) by {
            lemma_section_round_trip(payload, tail);
        }
    }
    r
}

/// Decode a section as `decode_section` describes it.
fn decode_section_from(data: &[u8]) -> (r: crate::Result<(&[u8], &[u8])>)
    ensures
        match r {
            Ok((payload, rest)) => decode_section(data@) == Ok::<(Seq<u8>, Seq<u8>), Error>((payload@, rest@)),
            Err(e) => decode_section(data@) == Err::<(Seq<u8>, Seq<u8>), Error>(e),
        },
{
    if data.len() < U64_WIDTH {
        return Err(Error::UnexpectedEof {
            context: "section length",
            needed: U64_WIDTH,
            remaining: data.len(),
        });
    }
    let (length_bytes, after_length) = data.split_at(U64_WIDTH);
    let declared_len = u64_from_le_bytes(length_bytes);
    proof {
        assert(length_bytes@ =~= data@.subrange(0, 8));
        assert(after_length@ =~= data@.subrange(8, data@.len() as int));
    }
    if declared_len > usize::MAX as u64 {
        return Err(Error::SectionTooLarge { length: declared_len });
    }
    let payload_len = declared_len as usize;
    if after_length.len() < payload_len {
        return Err(Error::UnexpectedEof {
            context: "section payload",
            needed: payload_len,
            remaining: after_length.len(),
        });
    }
    Ok(after_length.split_at(payload_len))
}


} // verus!
