//! CPU feature flags and cache topology.
//!
//! What the hardware and sysfs report is gathered by the caller into a
//! [`CpuProbe`]; [`detect`] turns it into [`CpuFeatures`], parsing the sysfs
//! cache values and applying the fallbacks for whatever could not be read.

use vstd::prelude::*;

use crate::text::{
    chars_equal, chars_of, lower, lower_chars, parse_radix, parse_unsigned, strip_suffix, trim,
    trim_chars, upper, upper_chars, without_suffix,
};

verus! {

/// Detected CPU features and cache sizes.
#[derive(Debug, Clone, Copy, PartialEq, Eq, Structural)]
pub struct CpuFeatures {
    /// Whether AVX-512 Foundation is available.
    pub avx512: bool,
    /// Whether AVX-512 Byte/Word operations are available.
    pub avx512bw: bool,
    /// Whether AVX-512 Vector Length extensions are available.
    pub avx512vl: bool,
    /// Whether AVX-512 Vector Byte Manipulation Instructions are available.
    pub avx512vbmi: bool,
    /// Whether AVX2 is available.
    pub avx2: bool,
    /// Whether ARM NEON is available.
    pub neon: bool,
    /// The cache line size in bytes.
    pub cache_line_size: usize,
    /// The L1 data cache size in bytes.
    pub l1_size: usize,
    /// The L2 cache size in bytes.
    pub l2_size: usize,
    /// The L3 cache size in bytes.
    pub l3_size: usize,
}

/// The sysfs files of one cache index of cpu0
/// (`/sys/devices/system/cpu/cpu0/cache/index<N>/`), each holding the file's
/// contents when it could be read.
pub struct CacheIndex {
    /// Contents of `coherency_line_size`.
    pub coherency_line_size: Option<String>,
    /// Contents of `size`.
    pub size: Option<String>,
    /// Contents of `type` (`Data`, `Instruction` or `Unified`).
    pub kind: Option<String>,
}

/// What the processor and sysfs report, before interpretation.
pub struct CpuProbe {
    /// The `avx512f` feature flag.
    pub avx512f: bool,
    /// The `avx512bw` feature flag.
    pub avx512bw: bool,
    /// The `avx512vl` feature flag.
    pub avx512vl: bool,
    /// The `avx512vbmi` feature flag.
    pub avx512vbmi: bool,
    /// The `avx2` feature flag.
    pub avx2: bool,
    /// The `neon` feature flag.
    pub neon: bool,
    /// Cache index 0 of cpu0.
    pub index0: CacheIndex,
    /// Cache index 1 of cpu0.
    pub index1: CacheIndex,
    /// Cache index 2 of cpu0.
    pub index2: CacheIndex,
    /// Cache index 3 of cpu0.
    pub index3: CacheIndex,
}

/// Cache line size used when sysfs does not report one.
pub const DEFAULT_CACHE_LINE: usize = 64;
/// L1 data cache size used when sysfs does not report one.
pub const DEFAULT_L1_SIZE: usize = 32 * 1024;
/// L2 cache size used when sysfs does not report one.
pub const DEFAULT_L2_SIZE: usize = 256 * 1024;

/// The characters of a file's contents, when it could be read.
pub open spec fn file_chars(f: Option<String>) -> Option<Seq<char>> {
    match f {
        Some(s) => Some(s@),
        None => None,
    }
}

/// `s` with one of the suffixes removed, trying them in order.
pub open spec fn strip_first_of(s: Seq<char>, suffixes: Seq<Seq<char>>) -> Option<Seq<char>>
    decreases suffixes.len(),
{
    if suffixes.len() == 0 {
        None
    } else {
        match strip_suffix(s, suffixes[0]) {
            Some(rest) => Some(rest),
            None => strip_first_of(s, suffixes.subrange(1, suffixes.len() as int)),
        }
    }
}

/// A number followed by a unit of `unit` bytes: the trimmed number times the
/// unit, when the number parses and the product fits in `usize`.
pub open spec fn scaled_value(number: Seq<char>, unit: nat) -> core::result::Result<usize, ()> {
    match parse_unsigned(trim(number), 10, usize::MAX as nat) {
        Some(v) => if v * unit <= usize::MAX {
            Ok((v * unit) as usize)
        } else {
            Err(())
        },
        None => Err(()),
    }
}

/// The unit suffixes of gibibytes, in the order they are tried.
pub open spec fn gib_suffixes() -> Seq<Seq<char>> {
    seq!["GIB"@, "GB"@, "G"@]
}

/// The unit suffixes of mebibytes, in the order they are tried.
pub open spec fn mib_suffixes() -> Seq<Seq<char>> {
    seq!["MIB"@, "MB"@, "M"@]
}

/// The unit suffixes of kibibytes, in the order they are tried.
pub open spec fn kib_suffixes() -> Seq<Seq<char>> {
    seq!["KIB"@, "KB"@, "K"@]
}

/// The unit suffixes of bytes, in the order they are tried.
pub open spec fn byte_suffixes() -> Seq<Seq<char>> {
    seq!["BYTES"@, "B"@]
}

/// The byte count that a sysfs cache value such as `32K`, `1 GiB` or `64`
/// denotes: the value is trimmed and upper-cased, the first unit suffix that it
/// carries (gibi-, mebi-, kibibytes, then bytes) scales the trimmed number
/// before it, and a value with no unit is a plain number.
pub open spec fn cache_value(raw: Seq<char>) -> core::result::Result<usize, ()> {
    let t = upper(trim(raw));
    if t.len() == 0 {
        Err(())
    } else if let Some(n) = strip_first_of(t, gib_suffixes()) {
        scaled_value(n, 1024 * 1024 * 1024)
    } else if let Some(n) = strip_first_of(t, mib_suffixes()) {
        scaled_value(n, 1024 * 1024)
    } else if let Some(n) = strip_first_of(t, kib_suffixes()) {
        scaled_value(n, 1024)
    } else if let Some(n) = strip_first_of(t, byte_suffixes()) {
        scaled_value(n, 1)
    } else {
        match parse_unsigned(t, 10, usize::MAX as nat) {
            Some(v) => Ok(v as usize),
            None => Err(()),
        }
    }
}

/// The number of bytes that a unit suffix of a cache value stands for, when
/// `u` is one: none, `B` or `BYTES`; `K`, `KB` or `KIB`; `M`, `MB` or `MIB`;
/// `G`, `GB` or `GIB`.
pub open spec fn unit_scale(u: Seq<char>) -> Option<nat> {
    if u == Seq::<char>::empty() || u == "B"@ || u == "BYTES"@ {
        Some(1)
    } else if u == "K"@ || u == "KB"@ || u == "KIB"@ {
        Some(1024)
    } else if u == "M"@ || u == "MB"@ || u == "MIB"@ {
        Some(0x10_0000)
    } else if u == "G"@ || u == "GB"@ || u == "GIB"@ {
        Some(0x4000_0000)
    } else {
        None
    }
}

/// Whether `c` is an ASCII upper-case letter.
pub open spec fn is_upper_letter(c: char) -> bool {
    'A' <= c && c <= 'Z'
}

/// Whether `p` is a non-empty run of ASCII upper-case letters.
pub open spec fn letters_only(p: Seq<char>) -> bool {
    p.len() > 0 && forall|i: int| 0 <= i < p.len() ==> is_upper_letter(#[trigger] p[i])
}

/// A suffix of letters is found in `num + u`, where `num` does not end with a
/// letter, exactly when it is found in `u`.
proof fn lemma_strip_letters(num: Seq<char>, u: Seq<char>, p: Seq<char>)
    requires
        num.len() > 0,
        !is_upper_letter(num[num.len() - 1]),
        letters_only(p),
    ensures
        strip_suffix(num + u, p) == match strip_suffix(u, p) {
            Some(r) => Some(num + r),
            None => None::<Seq<char>>,
        },
{
    let t = num + u;
    if p.len() <= u.len() {
        assert(t.subrange(t.len() - p.len(), t.len() as int) =~= u.subrange(u.len() - p.len(), u.len() as int));
        assert(t.subrange(0, t.len() - p.len()) =~= num + u.subrange(0, u.len() - p.len()));
    } else if t.len() >= p.len() {
        let j = p.len() - u.len() - 1;
        assert(t.subrange(t.len() - p.len(), t.len() as int)[j] == num[num.len() - 1]);
        assert(is_upper_letter(p[j]));
    }
}

/// Trying suffixes of letters in order on `num + u`, where `num` does not end
/// with a letter, finds what trying them on `u` finds.
proof fn lemma_strip_first_letters(num: Seq<char>, u: Seq<char>, suffixes: Seq<Seq<char>>)
    requires
        num.len() > 0,
        !is_upper_letter(num[num.len() - 1]),
        forall|i: int| 0 <= i < suffixes.len() ==> letters_only(#[trigger] suffixes[i]),
    ensures
        strip_first_of(num + u, suffixes) == match strip_first_of(u, suffixes) {
            Some(r) => Some(num + r),
            None => None::<Seq<char>>,
        },
    decreases suffixes.len(),
{
    if suffixes.len() > 0 {
        lemma_strip_letters(num, u, suffixes[0]);
        let rest = suffixes.subrange(1, suffixes.len() as int);
        assert forall|i: int| 0 <= i < rest.len() implies letters_only(#[trigger] rest[i]) by {
            assert(rest[i] == suffixes[i + 1]);
        }
        lemma_strip_first_letters(num, u, rest);
    }
}

/// The unit suffixes are runs of letters.
proof fn lemma_suffixes_are_letters()
    ensures
        forall|i: int| 0 <= i < gib_suffixes().len() ==> letters_only(#[trigger] gib_suffixes()[i]),
        forall|i: int| 0 <= i < mib_suffixes().len() ==> letters_only(#[trigger] mib_suffixes()[i]),
        forall|i: int| 0 <= i < kib_suffixes().len() ==> letters_only(#[trigger] kib_suffixes()[i]),
        forall|i: int| 0 <= i < byte_suffixes().len() ==> letters_only(#[trigger] byte_suffixes()[i]),
{
    reveal_strlit("GIB");
    reveal_strlit("GB");
    reveal_strlit("G");
    reveal_strlit("MIB");
    reveal_strlit("MB");
    reveal_strlit("M");
    reveal_strlit("KIB");
    reveal_strlit("KB");
    reveal_strlit("K");
    reveal_strlit("BYTES");
    reveal_strlit("B");
}

/// A number that parses ends with a digit.
proof fn lemma_parsed_ends_with_digit(x: Seq<char>)
    requires
        parse_unsigned(x, 10, usize::MAX as nat) is Some,
    ensures
        x.len() > 0,
        crate::text::is_digit(x[x.len() - 1]),
{
    let d = crate::text::unsigned_digits(x);
    assert(d[d.len() - 1] == x[x.len() - 1]);
}

/// A cache value reads as its number times its unit: when the trimmed,
/// upper-cased value is a number followed by one of the unit suffixes, and the
/// trimmed number parses, the value is that number times the unit's bytes if
/// that fits in `usize`, and an error otherwise. Letter case and surrounding
/// whitespace never change the result.
pub proof fn lemma_cache_value_units(raw: Seq<char>, num: Seq<char>, u: Seq<char>)
    requires
        upper(trim(raw)) == num + u,
        unit_scale(u) is Some,
        parse_unsigned(trim(num), 10, usize::MAX as nat) is Some,
    ensures
        cache_value(raw) == scaled_value(num, unit_scale(u).unwrap()),
{
    let t = upper(trim(raw));
    lemma_parsed_ends_with_digit(trim(num));
    crate::text::lemma_trim_last(num);
    assert(!is_upper_letter(num[num.len() - 1]));
    lemma_suffixes_are_letters();
    lemma_strip_first_letters(num, u, gib_suffixes());
    lemma_strip_first_letters(num, u, mib_suffixes());
    lemma_strip_first_letters(num, u, kib_suffixes());
    lemma_strip_first_letters(num, u, byte_suffixes());
    lemma_unit_found(u);
    assert(t.len() > 0);
    assert(num + Seq::<char>::empty() =~= num);
    if u.len() == 0 {
        assert(t =~= num);
        crate::text::lemma_trim_upper_trimmed(raw);
    }
}

/// Which list of unit suffixes finds a unit suffix, when tried in order on
/// the suffix alone: the list of its own unit, and none before it.
proof fn lemma_unit_found(u: Seq<char>)
    requires
        unit_scale(u) is Some,
    ensures
        unit_scale(u) == Some(0x4000_0000nat) ==> strip_first_of(u, gib_suffixes()) == Some(Seq::<char>::empty()),
        unit_scale(u) != Some(0x4000_0000nat) ==> strip_first_of(u, gib_suffixes()) is None,
        unit_scale(u) == Some(0x10_0000nat) ==> strip_first_of(u, mib_suffixes()) == Some(Seq::<char>::empty()),
        unit_scale(u) == Some(1024nat) || unit_scale(u) == Some(1nat) ==> strip_first_of(u, mib_suffixes()) is None,
        unit_scale(u) == Some(1024nat) ==> strip_first_of(u, kib_suffixes()) == Some(Seq::<char>::empty()),
        unit_scale(u) == Some(1nat) ==> strip_first_of(u, kib_suffixes()) is None,
        unit_scale(u) == Some(1nat) && u.len() > 0 ==> strip_first_of(u, byte_suffixes()) == Some(Seq::<char>::empty()),
        u.len() == 0 ==> strip_first_of(u, byte_suffixes()) is None,
{
    reveal_with_fuel(strip_first_of, 4);
    reveal_strlit("GIB");
    reveal_strlit("GB");
    reveal_strlit("G");
    reveal_strlit("MIB");
    reveal_strlit("MB");
    reveal_strlit("M");
    reveal_strlit("KIB");
    reveal_strlit("KB");
    reveal_strlit("K");
    reveal_strlit("BYTES");
    reveal_strlit("B");
    assert(u.subrange(0, 0) =~= Seq::<char>::empty());
    assert(u.subrange(0, u.len() as int) =~= u);
    if u == "GIB"@ {
        assert(u[0] == 'G');
        assert(u[1] == 'I');
        assert(u[2] == 'B');
    } else if u == "GB"@ {
        assert(u[0] == 'G');
        assert(u[1] == 'B');
    } else if u == "G"@ {
        assert(u[0] == 'G');
    } else if u == "MIB"@ {
        assert(u[0] == 'M');
        assert(u[1] == 'I');
        assert(u[2] == 'B');
        lemma_suffix_differs(u, "GIB"@, 3);
        lemma_suffix_differs(u, "GB"@, 2);
        lemma_suffix_differs(u, "G"@, 1);
    } else if u == "MB"@ {
        assert(u[0] == 'M');
        assert(u[1] == 'B');
        lemma_suffix_differs(u, "GIB"@, 3);
        lemma_suffix_differs(u, "GB"@, 2);
        lemma_suffix_differs(u, "G"@, 1);
    } else if u == "M"@ {
        assert(u[0] == 'M');
        lemma_suffix_differs(u, "GIB"@, 2);
        lemma_suffix_differs(u, "GB"@, 2);
        lemma_suffix_differs(u, "G"@, 1);
    } else if u == "KIB"@ {
        assert(u[0] == 'K');
        assert(u[1] == 'I');
        assert(u[2] == 'B');
        lemma_suffix_differs(u, "GIB"@, 3);
        lemma_suffix_differs(u, "GB"@, 2);
        lemma_suffix_differs(u, "G"@, 1);
        lemma_suffix_differs(u, "MIB"@, 3);
        lemma_suffix_differs(u, "MB"@, 2);
        lemma_suffix_differs(u, "M"@, 1);
    } else if u == "KB"@ {
        assert(u[0] == 'K');
        assert(u[1] == 'B');
        lemma_suffix_differs(u, "GIB"@, 3);
        lemma_suffix_differs(u, "GB"@, 2);
        lemma_suffix_differs(u, "G"@, 1);
        lemma_suffix_differs(u, "MIB"@, 3);
        lemma_suffix_differs(u, "MB"@, 2);
        lemma_suffix_differs(u, "M"@, 1);
    } else if u == "K"@ {
        assert(u[0] == 'K');
        lemma_suffix_differs(u, "GIB"@, 2);
        lemma_suffix_differs(u, "GB"@, 2);
        lemma_suffix_differs(u, "G"@, 1);
        lemma_suffix_differs(u, "MIB"@, 2);
        lemma_suffix_differs(u, "MB"@, 2);
        lemma_suffix_differs(u, "M"@, 1);
    } else if u == "BYTES"@ {
        assert(u[0] == 'B');
        assert(u[1] == 'Y');
        assert(u[2] == 'T');
        assert(u[3] == 'E');
        assert(u[4] == 'S');
        lemma_suffix_differs(u, "GIB"@, 1);
        lemma_suffix_differs(u, "GB"@, 1);
        lemma_suffix_differs(u, "G"@, 1);
        lemma_suffix_differs(u, "MIB"@, 1);
        lemma_suffix_differs(u, "MB"@, 1);
        lemma_suffix_differs(u, "M"@, 1);
        lemma_suffix_differs(u, "KIB"@, 1);
        lemma_suffix_differs(u, "KB"@, 1);
        lemma_suffix_differs(u, "K"@, 1);
    } else if u == "B"@ {
        assert(u[0] == 'B');
        lemma_suffix_differs(u, "GIB"@, 2);
        lemma_suffix_differs(u, "GB"@, 2);
        lemma_suffix_differs(u, "G"@, 1);
        lemma_suffix_differs(u, "MIB"@, 2);
        lemma_suffix_differs(u, "MB"@, 2);
        lemma_suffix_differs(u, "M"@, 1);
        lemma_suffix_differs(u, "KIB"@, 2);
        lemma_suffix_differs(u, "KB"@, 2);
        lemma_suffix_differs(u, "K"@, 1);
    } else if u.len() == 0 {
        lemma_suffix_differs(u, "GIB"@, 1);
        lemma_suffix_differs(u, "GB"@, 1);
        lemma_suffix_differs(u, "G"@, 1);
        lemma_suffix_differs(u, "MIB"@, 1);
        lemma_suffix_differs(u, "MB"@, 1);
        lemma_suffix_differs(u, "M"@, 1);
        lemma_suffix_differs(u, "KIB"@, 1);
        lemma_suffix_differs(u, "KB"@, 1);
        lemma_suffix_differs(u, "K"@, 1);
        lemma_suffix_differs(u, "BYTES"@, 1);
        lemma_suffix_differs(u, "B"@, 1);
    }
}

/// `u` does not end with `p` when their `k`-th characters from the end differ.
proof fn lemma_suffix_differs(u: Seq<char>, p: Seq<char>, k: int)
    requires
        1 <= k <= p.len(),
        k <= u.len() ==> u[u.len() - k] != p[p.len() - k],
    ensures
        strip_suffix(u, p) is None,
{
    if u.len() >= p.len() {
        assert(u.subrange(u.len() - p.len(), u.len() as int)[p.len() - k] == u[u.len() - k]);
    }
}

/// The suffix that trying suffixes in order found: `s` is what remains
/// followed by it.
proof fn lemma_strip_first_found(s: Seq<char>, suffixes: Seq<Seq<char>>) -> (i: int)
    requires
        strip_first_of(s, suffixes) is Some,
    ensures
        0 <= i < suffixes.len(),
        s == strip_first_of(s, suffixes).unwrap() + suffixes[i],
    decreases suffixes.len(),
{
    match strip_suffix(s, suffixes[0]) {
        Some(rest) => {
            let p = suffixes[0];
            assert(s =~= rest + p);
            0
        },
        None => {
            let tail = suffixes.subrange(1, suffixes.len() as int);
            let j = lemma_strip_first_found(s, tail);
            assert(tail[j] == suffixes[j + 1]);
            j + 1
        },
    }
}

/// The scale of each unit suffix in the lists that are tried.
proof fn lemma_unit_scales()
    ensures
        forall|i: int| 0 <= i < gib_suffixes().len() ==> unit_scale(#[trigger] gib_suffixes()[i]) == Some(
            0x4000_0000nat,
        ),
        forall|i: int| 0 <= i < mib_suffixes().len() ==> unit_scale(#[trigger] mib_suffixes()[i]) == Some(
            0x10_0000nat,
        ),
        forall|i: int| 0 <= i < kib_suffixes().len() ==> unit_scale(#[trigger] kib_suffixes()[i]) == Some(1024nat),
        forall|i: int| 0 <= i < byte_suffixes().len() ==> unit_scale(#[trigger] byte_suffixes()[i]) == Some(1nat),
{
    reveal_strlit("GIB");
    reveal_strlit("GB");
    reveal_strlit("G");
    reveal_strlit("MIB");
    reveal_strlit("MB");
    reveal_strlit("M");
    reveal_strlit("KIB");
    reveal_strlit("KB");
    reveal_strlit("K");
    reveal_strlit("BYTES");
    reveal_strlit("B");
    assert("GIB"@[0] == 'G' && "GB"@[0] == 'G' && "G"@[0] == 'G');
    assert("MIB"@[0] == 'M' && "MB"@[0] == 'M' && "M"@[0] == 'M');
    assert("KIB"@[0] == 'K' && "KB"@[0] == 'K' && "K"@[0] == 'K');
    assert("BYTES"@[1] == 'Y' && "B"@[0] == 'B' && "KB"@[1] == 'B' && "MB"@[1] == 'B' && "GB"@[1] == 'B');
    assert("K"@.len() == 1);
    assert("K"@ != Seq::<char>::empty());
    assert("B"@.len() == 1);
    assert("K"@ != "B"@);
    assert("BYTES"@.len() == 5);
    assert("K"@ != "BYTES"@);
    assert("KB"@.len() == 2);
    assert("KB"@ != Seq::<char>::empty());
    assert("KB"@ != "B"@);
    assert("KB"@ != "BYTES"@);
    assert("KIB"@.len() == 3);
    assert("KIB"@ != Seq::<char>::empty());
    assert("KIB"@ != "B"@);
    assert("KIB"@ != "BYTES"@);
    assert("M"@.len() == 1);
    assert("M"@ != Seq::<char>::empty());
    assert("M"@ != "B"@);
    assert("M"@ != "BYTES"@);
    assert("M"@ != "K"@);
    assert("M"@ != "KB"@);
    assert("M"@ != "KIB"@);
    assert("MB"@.len() == 2);
    assert("MB"@ != Seq::<char>::empty());
    assert("MB"@ != "B"@);
    assert("MB"@ != "BYTES"@);
    assert("MB"@ != "K"@);
    assert("MB"@ != "KB"@);
    assert("MB"@ != "KIB"@);
    assert("MIB"@.len() == 3);
    assert("MIB"@ != Seq::<char>::empty());
    assert("MIB"@ != "B"@);
    assert("MIB"@ != "BYTES"@);
    assert("MIB"@ != "K"@);
    assert("MIB"@ != "KB"@);
    assert("MIB"@ != "KIB"@);
    assert("G"@.len() == 1);
    assert("G"@ != Seq::<char>::empty());
    assert("G"@ != "B"@);
    assert("G"@ != "BYTES"@);
    assert("G"@ != "K"@);
    assert("G"@ != "KB"@);
    assert("G"@ != "KIB"@);
    assert("G"@ != "M"@);
    assert("G"@ != "MB"@);
    assert("G"@ != "MIB"@);
    assert("GB"@.len() == 2);
    assert("GB"@ != Seq::<char>::empty());
    assert("GB"@ != "B"@);
    assert("GB"@ != "BYTES"@);
    assert("GB"@ != "K"@);
    assert("GB"@ != "KB"@);
    assert("GB"@ != "KIB"@);
    assert("GB"@ != "M"@);
    assert("GB"@ != "MB"@);
    assert("GB"@ != "MIB"@);
    assert("GIB"@.len() == 3);
    assert("GIB"@ != Seq::<char>::empty());
    assert("GIB"@ != "B"@);
    assert("GIB"@ != "BYTES"@);
    assert("GIB"@ != "K"@);
    assert("GIB"@ != "KB"@);
    assert("GIB"@ != "KIB"@);
    assert("GIB"@ != "M"@);
    assert("GIB"@ != "MB"@);
    assert("GIB"@ != "MIB"@);
    assert("GIB"@ != "KIB"@ && "GIB"@ != "MIB"@ && "MIB"@ != "KIB"@);
    assert("GB"@ != "KB"@ && "GB"@ != "MB"@ && "MB"@ != "KB"@);
    assert("G"@ != "B"@ && "G"@ != "K"@ && "G"@ != "M"@ && "M"@ != "B"@ && "M"@ != "K"@ && "K"@ != "B"@);
    assert(unit_scale("GIB"@) == Some(0x4000_0000nat));
    assert(unit_scale("GB"@) == Some(0x4000_0000nat));
    assert(unit_scale("G"@) == Some(0x4000_0000nat));
    assert(unit_scale("MIB"@) == Some(0x10_0000nat));
    assert(unit_scale("MB"@) == Some(0x10_0000nat));
    assert(unit_scale("M"@) == Some(0x10_0000nat));
    assert(unit_scale("KIB"@) == Some(1024nat));
    assert(unit_scale("KB"@) == Some(1024nat));
    assert(unit_scale("K"@) == Some(1024nat));
    assert forall|i: int| 0 <= i < gib_suffixes().len() implies unit_scale(#[trigger] gib_suffixes()[i]) == Some(
        0x4000_0000nat,
    ) by {
        assert(i == 0 || i == 1 || i == 2);
    }
    assert forall|i: int| 0 <= i < mib_suffixes().len() implies unit_scale(#[trigger] mib_suffixes()[i]) == Some(
        0x10_0000nat,
    ) by {
    }
    assert forall|i: int| 0 <= i < kib_suffixes().len() implies unit_scale(#[trigger] kib_suffixes()[i]) == Some(
        1024nat,
    ) by {
    }
}

/// A cache value that reads as a number is a number followed by one of the
/// unit suffixes, scaled by the unit: every other value is refused.
pub proof fn lemma_cache_value_only_units(raw: Seq<char>)
    requires
        cache_value(raw) is Ok,
    ensures
        exists|num: Seq<char>, u: Seq<char>|
            #![trigger num + u]
            upper(trim(raw)) == num + u && unit_scale(u) is Some && scaled_value(num, unit_scale(u).unwrap())
                == cache_value(raw),
{
    let t = upper(trim(raw));
    lemma_unit_scales();
    if let Some(n) = strip_first_of(t, gib_suffixes()) {
        let i = lemma_strip_first_found(t, gib_suffixes());
        let u = gib_suffixes()[i];
        assert(t == n + u && unit_scale(u) is Some && scaled_value(n, unit_scale(u).unwrap()) == cache_value(raw));
    } else if let Some(n) = strip_first_of(t, mib_suffixes()) {
        let i = lemma_strip_first_found(t, mib_suffixes());
        let u = mib_suffixes()[i];
        assert(t == n + u && unit_scale(u) is Some && scaled_value(n, unit_scale(u).unwrap()) == cache_value(raw));
    } else if let Some(n) = strip_first_of(t, kib_suffixes()) {
        let i = lemma_strip_first_found(t, kib_suffixes());
        let u = kib_suffixes()[i];
        assert(t == n + u && unit_scale(u) is Some && scaled_value(n, unit_scale(u).unwrap()) == cache_value(raw));
    } else if let Some(n) = strip_first_of(t, byte_suffixes()) {
        let i = lemma_strip_first_found(t, byte_suffixes());
        let u = byte_suffixes()[i];
        assert(t == n + u && unit_scale(u) is Some && scaled_value(n, unit_scale(u).unwrap()) == cache_value(raw));
    } else {
        crate::text::lemma_trim_upper_trimmed(raw);
        let u = Seq::<char>::empty();
        assert(t == t + u);
        assert(unit_scale(u) == Some(1nat));
        assert(scaled_value(t, 1) == cache_value(raw));
    }
}

/// The value of a cache file, when it was read and parses.
pub open spec fn file_value(f: Option<Seq<char>>) -> Option<usize> {
    match f {
        Some(s) => match cache_value(s) {
            Ok(v) => Some(v),
            Err(_) => None,
        },
        None => None,
    }
}

/// The first of two optional values that is present.
pub open spec fn first_present(a: Option<usize>, b: Option<usize>) -> Option<usize> {
    match a {
        Some(v) => Some(v),
        None => b,
    }
}

/// `v`, or `default` when it is absent.
pub open spec fn or_default(v: Option<usize>, default: usize) -> usize {
    match v {
        Some(x) => x,
        None => default,
    }
}

/// Whether a cache `type` file names a data or unified cache (case and
/// surrounding whitespace ignored).
pub open spec fn holds_data(kind: Option<Seq<char>>) -> bool {
    match kind {
        Some(k) => lower(trim(k)) == "data"@ || lower(trim(k)) == "unified"@,
        None => false,
    }
}

/// The L1 data cache size that one cache index gives: its size, when it is a
/// data or unified cache whose size parses.
pub open spec fn l1_from(index: &CacheIndex) -> Option<usize> {
    if holds_data(file_chars(index.kind)) {
        file_value(file_chars(index.size))
    } else {
        None
    }
}

/// The L1 data cache size: the first of index 0 and 1 that is a data or
/// unified cache with a parsable size, else the size of index 0 or 1, else the
/// default.
pub open spec fn l1_size_of(p: &CpuProbe) -> usize {
    match first_present(l1_from(&p.index0), l1_from(&p.index1)) {
        Some(v) => v,
        None => or_default(
            first_present(file_value(file_chars(p.index0.size)), file_value(file_chars(p.index1.size))),
            DEFAULT_L1_SIZE,
        ),
    }
}

/// The features and cache sizes that a probe describes.
pub open spec fn features_of(p: &CpuProbe) -> CpuFeatures {
    CpuFeatures {
        avx512: p.avx512f,
        avx512bw: p.avx512f && p.avx512bw,
        avx512vl: p.avx512f && p.avx512vl,
        avx512vbmi: p.avx512f && p.avx512vbmi,
        avx2: p.avx2,
        neon: p.neon,
        cache_line_size: or_default(
            first_present(
                file_value(file_chars(p.index0.coherency_line_size)),
                file_value(file_chars(p.index1.coherency_line_size)),
            ),
            DEFAULT_CACHE_LINE,
        ),
        l1_size: l1_size_of(p),
        l2_size: or_default(file_value(file_chars(p.index2.size)), DEFAULT_L2_SIZE),
        l3_size: or_default(file_value(file_chars(p.index3.size)), 0),
    }
}

/// `s` with the first of `suffixes` that it ends with removed.
fn strip_first_of_exec(s: &[char], suffixes: &Vec<Vec<char>>) -> (r: Option<Vec<char>>)
    ensures
        match r {
            Some(v) => strip_first_of(s@, crate::text::views(suffixes@)) == Some(v@),
            None => strip_first_of(s@, crate::text::views(suffixes@)) is None,
        },
{
    let mut i: usize = 0;
    proof {
        assert(crate::text::views(suffixes@).subrange(0, suffixes@.len() as int) =~= crate::text::views(suffixes@));
    }
    while i < suffixes.len()
        invariant
            i <= suffixes@.len(),
            strip_first_of(s@, crate::text::views(suffixes@))
                == strip_first_of(s@, crate::text::views(suffixes@).subrange(i as int, suffixes@.len() as int)),
        decreases suffixes@.len() - i,
    {
        let ghost rest = crate::text::views(suffixes@).subrange(i as int, suffixes@.len() as int);
        proof {
            assert(rest[0] == suffixes@[i as int]@);
            assert(rest.subrange(1, rest.len() as int) =~= crate::text::views(suffixes@).subrange(i + 1, suffixes@.len() as int));
        }
        match without_suffix(s, suffixes[i].as_slice()) {
            Some(v) => {
                return Some(v);
            },
            None => {},
        }
        i = i + 1;
    }
    None
}

/// The characters of each of three words.
fn table3(a: &str, b: &str, c: &str) -> (t: Vec<Vec<char>>)
    ensures
        crate::text::views(t@) == seq![a@, b@, c@],
{
    let mut t: Vec<Vec<char>> = Vec::new();
    t.push(chars_of(a));
    t.push(chars_of(b));
    t.push(chars_of(c));
    proof {
        assert(crate::text::views(t@) =~= seq![a@, b@, c@]);
    }
    t
}

/// The characters of each of two words.
fn table2(a: &str, b: &str) -> (t: Vec<Vec<char>>)
    ensures
        crate::text::views(t@) == seq![a@, b@],
{
    let mut t: Vec<Vec<char>> = Vec::new();
    t.push(chars_of(a));
    t.push(chars_of(b));
    proof {
        assert(crate::text::views(t@) =~= seq![a@, b@]);
    }
    t
}

/// The trimmed number before a unit, scaled by the unit.
fn scale(number: &[char], unit: usize) -> (r: Result<usize, ()>)
    requires
        unit >= 1,
    ensures
        r == scaled_value(number@, unit as nat),
{
    let digits = trim_chars(number);
    match parse_radix(digits.as_slice(), 10, usize::MAX as u64) {
        Some(v) => {
            proof {
                let (a, b) = (v as int, unit as int);
                assert(a * b < 0x1_0000_0000_0000_0000_0000_0000_0000_0000) by (nonlinear_arith)
                    requires
                        0 <= a <= 0xffff_ffff_ffff_ffff,
                        0 <= b <= 0xffff_ffff_ffff_ffff,
                ;
            }
            if v as u128 * unit as u128 <= usize::MAX as u128 {
                Ok((v as usize) * unit)
            } else {
                Err(())
            }
        },
        None => Err(()),
    }
}

/// Parse a sysfs cache value such as `32K`, `8 MiB`, `1G` or `64` into bytes.
pub fn parse_cache_value(raw: &str) -> (r: Result<usize, ()>)
    ensures
        r == cache_value(raw@),
{
    let raw_chars = chars_of(raw);
    let trimmed = trim_chars(raw_chars.as_slice());
    let t = upper_chars(trimmed.as_slice());
    if t.len() == 0 {
        return Err(());
    }
    let gib = table3("GIB", "GB", "G");
    let mib = table3("MIB", "MB", "M");
    let kib = table3("KIB", "KB", "K");
    let bytes = table2("BYTES", "B");
    proof {
        assert(crate::text::views(gib@) =~= gib_suffixes());
        assert(crate::text::views(mib@) =~= mib_suffixes());
        assert(crate::text::views(kib@) =~= kib_suffixes());
        assert(crate::text::views(bytes@) =~= byte_suffixes());
    }
    if let Some(n) = strip_first_of_exec(t.as_slice(), &gib) {
        return scale(n.as_slice(), 1024 * 1024 * 1024);
    }
    if let Some(n) = strip_first_of_exec(t.as_slice(), &mib) {
        return scale(n.as_slice(), 1024 * 1024);
    }
    if let Some(n) = strip_first_of_exec(t.as_slice(), &kib) {
        return scale(n.as_slice(), 1024);
    }
    if let Some(n) = strip_first_of_exec(t.as_slice(), &bytes) {
        return scale(n.as_slice(), 1);
    }
    match parse_radix(t.as_slice(), 10, usize::MAX as u64) {
        Some(v) => Ok(v as usize),
        None => Err(()),
    }
}

/// The value of a cache file, when it was read and parses.
fn read_value(f: &Option<String>) -> (r: Option<usize>)
    ensures
        r == file_value(file_chars(*f)),
{
    match f {
        Some(s) => match parse_cache_value(s.as_str()) {
            Ok(v) => Some(v),
            Err(_) => None,
        },
        None => None,
    }
}

/// Whether a cache `type` file names a data or unified cache.
fn names_data_cache(kind: &Option<String>) -> (b: bool)
    ensures
        b == holds_data(file_chars(*kind)),
{
    match kind {
        Some(k) => {
            let k_chars = chars_of(k.as_str());
            let trimmed = trim_chars(k_chars.as_slice());
            let lowered = lower_chars(trimmed.as_slice());
            let data = chars_of("data");
            let unified = chars_of("unified");
            chars_equal(lowered.as_slice(), data.as_slice()) || chars_equal(lowered.as_slice(), unified.as_slice())
        },
        None => false,
    }
}

/// The L1 data cache size that one cache index gives.
fn l1_candidate(index: &CacheIndex) -> (r: Option<usize>)
    ensures
        r == l1_from(index),
{
    if names_data_cache(&index.kind) {
        read_value(&index.size)
    } else {
        None
    }
}

/// The byte count that a cache `size` file holds when it was read and parses
/// as a cache value, else `default`.
pub open spec fn size_or(file: Option<String>, default: usize) -> usize {
    match file {
        Some(s) => match cache_value(s@) {
            Ok(v) => v,
            Err(_) => default,
        },
        None => default,
    }
}

/// The byte count that the first of two cache files holds when it was read
/// and parses, else that of the second, else `default`.
pub open spec fn size_or_next(first: Option<String>, second: Option<String>, default: usize) -> usize {
    match first {
        Some(s) => match cache_value(s@) {
            Ok(v) => v,
            Err(_) => size_or(second, default),
        },
        None => size_or(second, default),
    }
}

/// The cache line size comes from the `coherency_line_size` of cache index 0,
/// or else index 1, and is 64 bytes when neither was read and parses.
pub proof fn lemma_cache_line_size(p: &CpuProbe)
    ensures
        features_of(p).cache_line_size == size_or_next(
            p.index0.coherency_line_size,
            p.index1.coherency_line_size,
            DEFAULT_CACHE_LINE,
        ),
{
}

/// Whether a cache index is a data or unified cache (its `type` file read,
/// trimmed and lower-cased, is `data` or `unified`) whose `size` file was
/// read and parses.
pub open spec fn data_cache_with_size(index: &CacheIndex) -> bool {
    &&& index.kind matches Some(k) && (lower(trim(k@)) == "data"@ || lower(trim(k@)) == "unified"@)
    &&& index.size matches Some(sz) && cache_value(sz@) is Ok
}

/// The L1 size is that of the first of cache indexes 0 and 1 that is a data
/// or unified cache with a parsable size, so an instruction cache at index 0
/// never gives the L1 data size; when neither is, it is the first parsable
/// size of index 0 or 1, and 32 KiB when there is none.
pub proof fn lemma_l1_size(p: &CpuProbe)
    ensures
        data_cache_with_size(&p.index0) ==> features_of(p).l1_size == size_or(p.index0.size, 0),
        !data_cache_with_size(&p.index0) && data_cache_with_size(&p.index1) ==> features_of(p).l1_size == size_or(
            p.index1.size,
            0,
        ),
        !data_cache_with_size(&p.index0) && !data_cache_with_size(&p.index1) ==> features_of(p).l1_size
            == size_or_next(p.index0.size, p.index1.size, DEFAULT_L1_SIZE),
{
}

/// The feature flags are the processor's own: AVX2 and NEON as reported, and
/// each AVX-512 extension (BW, VL, VBMI) as reported exactly when AVX-512
/// Foundation is present, and never without it.
pub proof fn lemma_feature_flags(p: &CpuProbe)
    ensures
        features_of(p).avx512 == p.avx512f,
        features_of(p).avx512bw == (p.avx512f && p.avx512bw),
        features_of(p).avx512vl == (p.avx512f && p.avx512vl),
        features_of(p).avx512vbmi == (p.avx512f && p.avx512vbmi),
        features_of(p).avx2 == p.avx2,
        features_of(p).neon == p.neon,
{
}

/// The L3 size comes from cache index 3 alone: the value of its `size` file
/// when that was read and parses, and 0 otherwise, whatever the other
/// indexes hold. Likewise the L2 size comes from index 2 alone, with 256 KiB
/// when its file is missing or does not parse.
pub proof fn lemma_outer_cache_sizes(p: &CpuProbe, q: &CpuProbe)
    ensures
        features_of(p).l3_size == size_or(p.index3.size, 0),
        features_of(p).l2_size == size_or(p.index2.size, DEFAULT_L2_SIZE),
        p.index3.size == q.index3.size ==> features_of(p).l3_size == features_of(q).l3_size,
        p.index2.size == q.index2.size ==> features_of(p).l2_size == features_of(q).l2_size,
{
}

/// Turn what the processor and sysfs report into feature flags and cache sizes.
///
/// The AVX-512 extension flags are reported only together with AVX-512
/// Foundation; a cache value that is missing or does not parse falls back to
/// the next source, and finally to 64-byte lines, a 32 KiB L1, a 256 KiB L2
/// and no L3.
pub fn detect(probe: &CpuProbe) -> (features: CpuFeatures)
    ensures
        features == features_of(probe),
        !features.avx512 ==> !features.avx512bw && !features.avx512vl && !features.avx512vbmi,
        features.avx512 == probe.avx512f,
        features.avx512bw == (probe.avx512f && probe.avx512bw),
        features.avx512vl == (probe.avx512f && probe.avx512vl),
        features.avx512vbmi == (probe.avx512f && probe.avx512vbmi),
        features.avx2 == probe.avx2,
        features.neon == probe.neon,
        features.l3_size == size_or(probe.index3.size, 0),
        features.cache_line_size == size_or_next(
            probe.index0.coherency_line_size,
            probe.index1.coherency_line_size,
            DEFAULT_CACHE_LINE,
        ),
        features.l2_size == size_or(probe.index2.size, DEFAULT_L2_SIZE),
{
    let line = match read_value(&probe.index0.coherency_line_size) {
        Some(v) => v,
        None => match read_value(&probe.index1.coherency_line_size) {
            Some(v) => v,
            None => DEFAULT_CACHE_LINE,
        },
    };
    let l1 = match l1_candidate(&probe.index0) {
        Some(v) => v,
        None => match l1_candidate(&probe.index1) {
            Some(v) => v,
            None => match read_value(&probe.index0.size) {
                Some(v) => v,
                None => match read_value(&probe.index1.size) {
                    Some(v) => v,
                    None => DEFAULT_L1_SIZE,
                },
            },
        },
    };
    let l2 = match read_value(&probe.index2.size) {
        Some(v) => v,
        None => DEFAULT_L2_SIZE,
    };
    let l3 = match read_value(&probe.index3.size) {
        Some(v) => v,
        None => 0,
    };
    let avx512 = probe.avx512f;
    CpuFeatures {
        avx512,
        avx512bw: avx512 && probe.avx512bw,
        avx512vl: avx512 && probe.avx512vl,
        avx512vbmi: avx512 && probe.avx512vbmi,
        avx2: probe.avx2,
        neon: probe.neon,
        cache_line_size: line,
        l1_size: l1,
        l2_size: l2,
        l3_size: l3,
    }
}

} // verus!
