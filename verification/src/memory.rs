//! Memory pressure accounting from the contents of `/proc/meminfo`.

use vstd::prelude::*;

use crate::text::{
    chars_of, find, first_token, first_token_of, has_prefix, lines, lines_of, parse_radix,
    parse_unsigned, skip_token, skip_token_of, starts_with, views,
};
use crate::Error;

verus! {

/// Memory usage counters.
#[derive(Clone, Copy, Debug, Eq, PartialEq, Structural)]
pub struct MemoryStatus {
    /// Approximate currently available memory in bytes.
    pub available_bytes: u64,
    /// Total physical memory in bytes.
    pub total_bytes: u64,
}

/// Where Linux reports memory counters.
pub const PROC_MEMINFO_PATH: &'static str = "/proc/meminfo";

/// Bytes in one KiB, the unit of `/proc/meminfo`.
pub const KIB_TO_BYTES: u64 = 1024;

/// What the scan of `/proc/meminfo` has found so far, in KiB.
#[derive(Clone, Copy, Debug, Eq, PartialEq, Structural)]
pub struct MeminfoScan {
    /// `MemTotal`.
    pub total: Option<u64>,
    /// `MemAvailable`.
    pub available: Option<u64>,
    /// `MemFree`.
    pub free: Option<u64>,
    /// `Buffers`.
    pub buffers: Option<u64>,
    /// `Cached`.
    pub cached: Option<u64>,
    /// Whether both `MemTotal` and `MemAvailable` were found, which ends the scan.
    pub done: bool,
}

/// A token read as a decimal `u64`.
pub open spec fn token_u64(tok: Option<Seq<char>>) -> Option<u64> {
    match tok {
        Some(t) => match parse_unsigned(t, 10, u64::MAX as nat) {
            Some(v) => Some(v as u64),
            None => None,
        },
        None => None,
    }
}

/// The value of a `/proc/meminfo` line: its second whitespace-separated
/// token read as a decimal `u64`; when that does not give a number and the
/// first token holds a colon with no whitespace after it (as in
/// `MemTotal:16384 kB`), what follows that colon in the first token.
pub open spec fn kib_value(line: Seq<char>) -> Option<u64> {
    match token_u64(first_token(skip_token(line))) {
        Some(v) => Some(v),
        None => match first_token(line) {
            Some(label) => match find(label, ':') {
                Some(i) => token_u64(Some(label.subrange(i as int + 1, label.len() as int))),
                None => None,
            },
            None => None,
        },
    }
}

/// Whether both of two optional values are present.
pub open spec fn both(a: Option<u64>, b: Option<u64>) -> bool {
    a is Some && b is Some
}

/// The scan after one more line: a line that starts with one of the keys
/// records that key's value (the last such line wins), until both `MemTotal`
/// and `MemAvailable` are known.
pub open spec fn scan_step(st: MeminfoScan, line: Seq<char>) -> MeminfoScan {
    if st.done {
        st
    } else if starts_with(line, "MemTotal:"@) {
        let total = kib_value(line);
        MeminfoScan { total, done: both(total, st.available), ..st }
    } else if starts_with(line, "MemAvailable:"@) {
        let available = kib_value(line);
        MeminfoScan { available, done: both(st.total, available), ..st }
    } else if starts_with(line, "MemFree:"@) {
        MeminfoScan { free: kib_value(line), ..st }
    } else if starts_with(line, "Buffers:"@) {
        MeminfoScan { buffers: kib_value(line), ..st }
    } else if starts_with(line, "Cached:"@) {
        MeminfoScan { cached: kib_value(line), ..st }
    } else {
        st
    }
}

/// The scan before any line.
pub open spec fn scan_start() -> MeminfoScan {
    MeminfoScan { total: None, available: None, free: None, buffers: None, cached: None, done: false }
}

/// The scan after the given lines, in order.
pub open spec fn scan_lines(ls: Seq<Seq<char>>) -> MeminfoScan
    decreases ls.len(),
{
    if ls.len() == 0 {
        scan_start()
    } else {
        scan_step(scan_lines(ls.subrange(0, ls.len() - 1)), ls[ls.len() - 1])
    }
}

/// A KiB count in bytes, saturating at `u64::MAX`.
pub open spec fn kib_bytes(kib: u64) -> u64 {
    if kib * 1024 <= u64::MAX {
        (kib * 1024) as u64
    } else {
        u64::MAX
    }
}

/// The available KiB: `MemAvailable`, or else `MemFree + Buffers + Cached`
/// (a missing `Buffers` or `Cached` counting as 0), when that sum fits in `u64`.
pub open spec fn available_kib(st: MeminfoScan) -> Option<u64> {
    match st.available {
        Some(v) => Some(v),
        None => match st.free {
            Some(free) => {
                let buffers = match st.buffers { Some(b) => b as int, None => 0 };
                let cached = match st.cached { Some(c) => c as int, None => 0 };
                if free + buffers <= u64::MAX && free + buffers + cached <= u64::MAX {
                    Some((free + buffers + cached) as u64)
                } else {
                    None
                }
            },
            None => None,
        },
    }
}

/// The memory status that a scan's counters give, or the parse error when
/// `MemTotal` or the available amount is unknown.
pub open spec fn status_of(st: MeminfoScan) -> core::result::Result<MemoryStatus, Error> {
    match st.total {
        None => Err(Error::SysfsParse { path: PROC_MEMINFO_PATH }),
        Some(total) => match available_kib(st) {
            None => Err(Error::SysfsParse { path: PROC_MEMINFO_PATH }),
            Some(avail) => Ok(MemoryStatus { available_bytes: kib_bytes(avail), total_bytes: kib_bytes(total) }),
        },
    }
}

/// The memory status that `/proc/meminfo` contents describe, or the parse
/// error when `MemTotal` or the available amount cannot be determined.
pub open spec fn meminfo_status(contents: Seq<char>) -> core::result::Result<MemoryStatus, Error> {
    status_of(scan_lines(lines(contents)))
}

/// Whether some line starts with `key`.
pub open spec fn labelled(ls: Seq<Seq<char>>, key: Seq<char>) -> bool {
    exists|i: int| 0 <= i < ls.len() && starts_with(#[trigger] ls[i], key)
}

/// Whether at most one line starts with `key`.
pub open spec fn labelled_once(ls: Seq<Seq<char>>, key: Seq<char>) -> bool {
    forall|i: int, j: int|
        0 <= i < ls.len() && 0 <= j < ls.len() && starts_with(#[trigger] ls[i], key) && starts_with(#[trigger] ls[j], key)
            ==> i == j
}

/// The value of the line that starts with `key`, if one does.
pub open spec fn key_value(ls: Seq<Seq<char>>, key: Seq<char>) -> Option<u64> {
    if labelled(ls, key) {
        kib_value(ls[choose|i: int| 0 <= i < ls.len() && starts_with(#[trigger] ls[i], key)])
    } else {
        None
    }
}

/// The labels of `/proc/meminfo` that the status is made of.
pub open spec fn meminfo_keys() -> Seq<Seq<char>> {
    seq!["MemTotal:"@, "MemAvailable:"@, "MemFree:"@, "Buffers:"@, "Cached:"@]
}

/// The counters that lines give, each label read from its own line.
pub open spec fn counters_of(ls: Seq<Seq<char>>) -> MeminfoScan {
    MeminfoScan {
        total: key_value(ls, "MemTotal:"@),
        available: key_value(ls, "MemAvailable:"@),
        free: key_value(ls, "MemFree:"@),
        buffers: key_value(ls, "Buffers:"@),
        cached: key_value(ls, "Cached:"@),
        done: false,
    }
}

/// A line starts with at most one of the labels.
proof fn lemma_keys_exclusive(line: Seq<char>)
    ensures
        forall|a: int, b: int|
            0 <= a < b < 5 && starts_with(line, #[trigger] meminfo_keys()[a]) ==> !starts_with(
                line,
                #[trigger] meminfo_keys()[b],
            ),
{
    reveal_strlit("MemTotal:");
    reveal_strlit("MemAvailable:");
    reveal_strlit("MemFree:");
    reveal_strlit("Buffers:");
    reveal_strlit("Cached:");
    let k = meminfo_keys();
    assert forall|a: int, b: int|
        0 <= a < b < 5 && starts_with(line, #[trigger] k[a]) implies !starts_with(line, #[trigger] k[b]) by {
        let at: int = if a <= 2 && b <= 2 { 3 } else { 0 };
        if starts_with(line, k[b]) {
            assert(line.subrange(0, k[a].len() as int)[at] == line[at]);
            assert(line.subrange(0, k[b].len() as int)[at] == line[at]);
            assert(k[a][at] != k[b][at]);
        }
    }
}

/// Adding a line changes a label's value only when the line starts with it.
proof fn lemma_key_value_push(ls: Seq<Seq<char>>, line: Seq<char>, key: Seq<char>)
    requires
        labelled_once(ls.push(line), key),
    ensures
        key_value(ls.push(line), key) == if starts_with(line, key) {
            kib_value(line)
        } else {
            key_value(ls, key)
        },
{
    let all = ls.push(line);
    if starts_with(line, key) {
        assert(starts_with(all[ls.len() as int], key));
        let i = choose|i: int| 0 <= i < all.len() && starts_with(#[trigger] all[i], key);
        assert(i == ls.len());
    } else {
        if labelled(ls, key) {
            let i = choose|i: int| 0 <= i < ls.len() && starts_with(#[trigger] ls[i], key);
            assert(starts_with(all[i], key));
            let j = choose|j: int| 0 <= j < all.len() && starts_with(#[trigger] all[j], key);
            assert(i == j);
            assert(all[j] == ls[j]);
        } else {
            assert forall|j: int| 0 <= j < all.len() implies !starts_with(#[trigger] all[j], key) by {
                if j < ls.len() {
                    assert(all[j] == ls[j]);
                }
            }
        }
    }
}

/// With each label on at most one line, the scan's counters are the labels'
/// values, until `MemTotal` and `MemAvailable` are both known.
proof fn lemma_scan_counters(ls: Seq<Seq<char>>)
    requires
        forall|k: int| 0 <= k < 5 ==> labelled_once(ls, #[trigger] meminfo_keys()[k]),
    ensures
        scan_lines(ls).total == key_value(ls, "MemTotal:"@),
        scan_lines(ls).available == key_value(ls, "MemAvailable:"@),
        scan_lines(ls).done ==> scan_lines(ls).available is Some && scan_lines(ls).total is Some,
        !scan_lines(ls).done ==> scan_lines(ls) == counters_of(ls),
    decreases ls.len(),
{
    let keys = meminfo_keys();
    assert(keys[0] == "MemTotal:"@ && keys[1] == "MemAvailable:"@ && keys[2] == "MemFree:"@);
    assert(keys[3] == "Buffers:"@ && keys[4] == "Cached:"@);
    if ls.len() == 0 {
        assert forall|k: int| 0 <= k < 5 implies key_value(ls, #[trigger] keys[k]) is None by {}
        assert(key_value(ls, keys[0]) is None);
        assert(key_value(ls, keys[1]) is None);
        assert(key_value(ls, keys[2]) is None);
        assert(key_value(ls, keys[3]) is None);
        assert(key_value(ls, keys[4]) is None);
    } else {
        let init = ls.subrange(0, ls.len() - 1);
        let line = ls[ls.len() - 1];
        assert(init.push(line) =~= ls);
        assert forall|k: int| 0 <= k < 5 implies labelled_once(init, #[trigger] keys[k]) by {
            assert forall|i: int, j: int|
                0 <= i < init.len() && 0 <= j < init.len() && starts_with(#[trigger] init[i], keys[k])
                    && starts_with(#[trigger] init[j], keys[k]) implies i == j by {
                assert(init[i] == ls[i] && init[j] == ls[j]);
            }
        }
        lemma_scan_counters(init);
        lemma_keys_exclusive(line);
        lemma_key_value_push(init, line, keys[0]);
        lemma_key_value_push(init, line, keys[1]);
        lemma_key_value_push(init, line, keys[2]);
        lemma_key_value_push(init, line, keys[3]);
        lemma_key_value_push(init, line, keys[4]);
        let before = scan_lines(init);
        if before.done {
            // Both totals came from earlier lines, which hold their labels alone.
            if starts_with(line, keys[0]) {
                let i = choose|i: int| 0 <= i < init.len() && starts_with(#[trigger] init[i], keys[0]);
                assert(starts_with(ls[i], keys[0]) && starts_with(ls[ls.len() - 1], keys[0]));
            }
            if starts_with(line, keys[1]) {
                let i = choose|i: int| 0 <= i < init.len() && starts_with(#[trigger] init[i], keys[1]);
                assert(starts_with(ls[i], keys[1]) && starts_with(ls[ls.len() - 1], keys[1]));
            }
        }
    }
}

/// How `/proc/meminfo` is read, when each label stands on at most one line:
/// the total is `MemTotal`'s value, and the available amount is
/// `MemAvailable`'s, or else `MemFree + Buffers + Cached` (a missing `Buffers`
/// or `Cached` counting as 0) when that fits in `u64`; both in KiB, turned
/// into bytes saturating at `u64::MAX`. A missing total or available amount is
/// a parse error. A label's value is `kib_value` of the line that starts
/// with it.
pub proof fn lemma_meminfo_reads_labels(contents: Seq<char>)
    requires
        forall|k: int| 0 <= k < 5 ==> labelled_once(lines(contents), #[trigger] meminfo_keys()[k]),
    ensures
        meminfo_status(contents) == status_of(counters_of(lines(contents))),
{
    lemma_scan_counters(lines(contents));
}

impl MemoryStatus {
    /// The all-zero status, reported where no memory counters are available.
    pub fn zero() -> (s: Self)
        ensures
            s.available_bytes == 0,
            s.total_bytes == 0,
    {
        Self { available_bytes: 0, total_bytes: 0 }
    }

    /// Convert a KiB value reported by `/proc/meminfo` into bytes, saturating.
    pub fn kib_to_bytes(kib: u64) -> (b: u64)
        ensures
            b == kib_bytes(kib),
    {
        if kib > u64::MAX / KIB_TO_BYTES {
            u64::MAX
        } else {
            kib * KIB_TO_BYTES
        }
    }

    /// The value of one `/proc/meminfo` line, such as `MemTotal:  16384 kB`.
    pub fn parse_kib_value(line: &str) -> (v: Option<u64>)
        ensures
            v == kib_value(line@),
    {
        let chars = chars_of(line);
        Self::kib_value_of(chars.as_slice())
    }

    /// The value of one line given as characters.
    fn kib_value_of(line: &[char]) -> (v: Option<u64>)
        ensures
            v == kib_value(line@),
    {
        let rest = skip_token_of(line);
        let second = match first_token_of(rest.as_slice()) {
            Some(tok) => parse_radix(tok.as_slice(), 10, u64::MAX),
            None => None,
        };
        if second.is_some() {
            return second;
        }
        let label = match first_token_of(line) {
            Some(label) => label,
            None => {
                return None;
            },
        };
        let mut colon: usize = 0;
        while colon < label.len() && label[colon] != ':'
            invariant
                colon <= label@.len(),
                forall|j: int| 0 <= j < colon ==> label@[j] != ':',
            decreases label@.len() - colon,
        {
            colon = colon + 1;
        }
        proof {
            crate::text::lemma_find_in_bounds(label@, ':');
        }
        if colon < label.len() {
            let after = crate::text::copy_range(label.as_slice(), colon + 1, label.len());
            parse_radix(after.as_slice(), 10, u64::MAX)
        } else {
            None
        }
    }
}

/// Record one `/proc/meminfo` line into the scan.
fn scan_line(st: MeminfoScan, line: &[char], keys: &Vec<Vec<char>>) -> (next: MeminfoScan)
    requires
        views(keys@) == seq!["MemTotal:"@, "MemAvailable:"@, "MemFree:"@, "Buffers:"@, "Cached:"@],
    ensures
        next == scan_step(st, line@),
{
    proof {
        assert(views(keys@).len() == 5);
        assert(views(keys@)[0] == keys@[0]@);
        assert(views(keys@)[1] == keys@[1]@);
        assert(views(keys@)[2] == keys@[2]@);
        assert(views(keys@)[3] == keys@[3]@);
        assert(views(keys@)[4] == keys@[4]@);
        assert(keys@[0]@ == "MemTotal:"@);
        assert(keys@[1]@ == "MemAvailable:"@);
        assert(keys@[2]@ == "MemFree:"@);
        assert(keys@[3]@ == "Buffers:"@);
        assert(keys@[4]@ == "Cached:"@);
    }
    if st.done {
        st
    } else if has_prefix(line, keys[0].as_slice()) {
        let total = MemoryStatus::kib_value_of(line);
        MeminfoScan { total, done: total.is_some() && st.available.is_some(), ..st }
    } else if has_prefix(line, keys[1].as_slice()) {
        let available = MemoryStatus::kib_value_of(line);
        MeminfoScan { available, done: st.total.is_some() && available.is_some(), ..st }
    } else if has_prefix(line, keys[2].as_slice()) {
        MeminfoScan { free: MemoryStatus::kib_value_of(line), ..st }
    } else if has_prefix(line, keys[3].as_slice()) {
        MeminfoScan { buffers: MemoryStatus::kib_value_of(line), ..st }
    } else if has_prefix(line, keys[4].as_slice()) {
        MeminfoScan { cached: MemoryStatus::kib_value_of(line), ..st }
    } else {
        st
    }
}

/// Return system memory accounting from the contents of `/proc/meminfo`:
/// `MemTotal`, and `MemAvailable` (or `MemFree + Buffers + Cached` on kernels
/// that do not report it), in bytes.
///
/// # Errors
///
/// Returns `Error::SysfsParse` when either amount cannot be determined.
pub fn memory_pressure(meminfo: &str) -> (r: crate::Result<MemoryStatus>)
    ensures
        r == meminfo_status(meminfo@),
{
    let contents = chars_of(meminfo);
    let ls = lines_of(contents.as_slice());
    let mut keys: Vec<Vec<char>> = Vec::new();
    keys.push(chars_of("MemTotal:"));
    keys.push(chars_of("MemAvailable:"));
    keys.push(chars_of("MemFree:"));
    keys.push(chars_of("Buffers:"));
    keys.push(chars_of("Cached:"));
    proof {
        assert(views(keys@) =~= seq!["MemTotal:"@, "MemAvailable:"@, "MemFree:"@, "Buffers:"@, "Cached:"@]);
    }
    let mut st = MeminfoScan { total: None, available: None, free: None, buffers: None, cached: None, done: false };
    let mut i: usize = 0;
    while i < ls.len()
        invariant
            i <= ls@.len(),
            views(keys@) == seq!["MemTotal:"@, "MemAvailable:"@, "MemFree:"@, "Buffers:"@, "Cached:"@],
            st == scan_lines(views(ls@).subrange(0, i as int)),
        decreases ls@.len() - i,
    {
        st = scan_line(st, ls[i].as_slice(), &keys);
        proof {
            let done = views(ls@).subrange(0, i + 1);
            assert(done.subrange(0, done.len() - 1) =~= views(ls@).subrange(0, i as int));
        }
        i = i + 1;
    }
    proof {
        assert(views(ls@).subrange(0, ls@.len() as int) =~= views(ls@));
    }
    let total = match st.total {
        Some(t) => t,
        None => {
            return Err(Error::SysfsParse { path: PROC_MEMINFO_PATH });
        },
    };
    let available = match st.available {
        Some(v) => v,
        None => match st.free {
            Some(free) => {
                let buffers = match st.buffers { Some(b) => b, None => 0 };
                let cached = match st.cached { Some(c) => c, None => 0 };
                if free > u64::MAX - buffers || free + buffers > u64::MAX - cached {
                    return Err(Error::SysfsParse { path: PROC_MEMINFO_PATH });
                }
                free + buffers + cached
            },
            None => {
                return Err(Error::SysfsParse { path: PROC_MEMINFO_PATH });
            },
        },
    };
    Ok(MemoryStatus {
        available_bytes: MemoryStatus::kib_to_bytes(available),
        total_bytes: MemoryStatus::kib_to_bytes(total),
    })
}

} // verus!
