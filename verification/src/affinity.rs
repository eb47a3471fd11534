//! CPU affinity masks: the mask that pins a thread to one core, and the cores
//! that an IRQ affinity mask from `/proc/irq/<irq>/smp_affinity` names.

use vstd::prelude::*;

use crate::text::{
    chars_of, copy_range, parse_radix, parse_unsigned, split, split_chars, strip_prefix, trim,
    trim_chars, views, without_prefix,
};
use crate::error::{invalid_data_error, invalid_input_error, string_of};
use crate::Error;

verus! {

/// The mask value of one comma-separated group: trimmed, with an optional
/// `0x`/`0X` prefix, read as a hexadecimal `u64`.
pub open spec fn mask_chunk(chunk: Seq<char>) -> Option<u64> {
    let t = trim(chunk);
    let digits = match strip_prefix(t, "0x"@) {
        Some(rest) => rest,
        None => match strip_prefix(t, "0X"@) {
            Some(rest) => rest,
            None => t,
        },
    };
    match parse_unsigned(digits, 16, u64::MAX as nat) {
        Some(v) => Some(v as u64),
        None => None,
    }
}

/// Whether bit `b` of `mask` is set.
pub open spec fn bit_set(mask: u64, b: u64) -> bool {
    mask & (1u64 << b) != 0
}

/// The cores that the low `upto` bits of a group's mask name, in increasing
/// order: core `32 * group + b` for each set bit `b`.
pub open spec fn group_cores(mask: u64, group: nat, upto: nat) -> Seq<nat>
    decreases upto,
{
    if upto == 0 {
        seq![]
    } else {
        let before = group_cores(mask, group, (upto - 1) as nat);
        if bit_set(mask, (upto - 1) as u64) {
            before.push((group * 32 + upto - 1) as nat)
        } else {
            before
        }
    }
}

/// The cores that mask groups name, the least significant group first, or
/// nothing when a group is not a hexadecimal number.
pub open spec fn groups_cores(groups: Seq<Seq<char>>) -> Option<Seq<nat>>
    decreases groups.len(),
{
    if groups.len() == 0 {
        Some(seq![])
    } else {
        match (groups_cores(groups.subrange(0, groups.len() - 1)), mask_chunk(groups[groups.len() - 1])) {
            (Some(cores), Some(mask)) => Some(cores + group_cores(mask, (groups.len() - 1) as nat, 32)),
            _ => None,
        }
    }
}

/// The cores that an `smp_affinity` mask names: its comma-separated groups of
/// 32 cores, the least significant group last.
pub open spec fn affinity_cores(content: Seq<char>) -> Option<Seq<nat>> {
    groups_cores(split(trim(content), ',').reverse())
}

/// Whether every core index fits in a `u32`.
pub open spec fn fits_u32(cores: Seq<nat>) -> bool {
    forall|i: int| 0 <= i < cores.len() ==> cores[i] <= u32::MAX
}

/// The cores of fewer low bits come first among the cores of more bits.
proof fn lemma_group_cores_prefix(mask: u64, group: nat, k: nat, k2: nat)
    requires
        k <= k2,
    ensures
        group_cores(mask, group, k).len() <= group_cores(mask, group, k2).len(),
        forall|i: int| 0 <= i < group_cores(mask, group, k).len()
            ==> group_cores(mask, group, k)[i] == group_cores(mask, group, k2)[i],
    decreases k2,
{
    if k < k2 {
        lemma_group_cores_prefix(mask, group, k, (k2 - 1) as nat);
    }
}

/// A failure in a prefix of the groups is a failure of all of them.
proof fn lemma_prefix_failure(gs: Seq<Seq<char>>, k: int)
    requires
        0 <= k <= gs.len(),
        groups_cores(gs.subrange(0, k)) is None || !fits_u32(groups_cores(gs.subrange(0, k)).unwrap()),
    ensures
        groups_cores(gs) is None || !fits_u32(groups_cores(gs).unwrap()),
    decreases gs.len(),
{
    if k == gs.len() {
        assert(gs.subrange(0, k) =~= gs);
    } else {
        let init = gs.subrange(0, gs.len() - 1);
        assert(init.subrange(0, k) =~= gs.subrange(0, k));
        lemma_prefix_failure(init, k);
        if groups_cores(gs) is Some {
            let whole = groups_cores(gs).unwrap();
            let first = groups_cores(init).unwrap();
            assert(!fits_u32(first));
            let i = choose|i: int| 0 <= i < first.len() && !(first[i] <= u32::MAX);
            assert(whole[i] == first[i]);
        }
    }
}

/// Whether each core of `cores` is below the next one.
pub open spec fn ascending(cores: Seq<nat>) -> bool {
    forall|i: int, j: int| 0 <= i < j < cores.len() ==> cores[i] < cores[j]
}

/// The cores of a group's low `upto` bits lie in `[32 * group, 32 * group + upto)`
/// and are ascending.
proof fn lemma_group_cores_ascending(mask: u64, group: nat, upto: nat)
    ensures
        ascending(group_cores(mask, group, upto)),
        forall|i: int| 0 <= i < group_cores(mask, group, upto).len() ==> group * 32 <= #[trigger] group_cores(
            mask,
            group,
            upto,
        )[i] < group * 32 + upto,
    decreases upto,
{
    if upto > 0 {
        lemma_group_cores_ascending(mask, group, (upto - 1) as nat);
    }
}

/// The cores of the first `groups.len()` groups are ascending and below
/// `32 * groups.len()`.
proof fn lemma_groups_cores_ascending(groups: Seq<Seq<char>>)
    requires
        groups_cores(groups) is Some,
    ensures
        ascending(groups_cores(groups).unwrap()),
        forall|i: int| 0 <= i < groups_cores(groups).unwrap().len() ==> #[trigger] groups_cores(groups).unwrap()[i]
            < groups.len() * 32,
    decreases groups.len(),
{
    if groups.len() > 0 {
        let init = groups.subrange(0, groups.len() - 1);
        lemma_groups_cores_ascending(init);
        let mask = mask_chunk(groups[groups.len() - 1]).unwrap();
        let g = (groups.len() - 1) as nat;
        lemma_group_cores_ascending(mask, g, 32);
        let before = groups_cores(init).unwrap();
        let last = group_cores(mask, g, 32);
        let all = groups_cores(groups).unwrap();
        assert(all == before + last);
        assert forall|i: int, j: int| 0 <= i < j < all.len() implies all[i] < all[j] by {
            if j < before.len() {
                assert(all[i] == before[i] && all[j] == before[j]);
            } else if i < before.len() {
                assert(all[i] == before[i]);
                assert(all[j] == last[j - before.len()]);
            } else {
                assert(all[i] == last[i - before.len()] && all[j] == last[j - before.len()]);
            }
        }
        assert forall|i: int| 0 <= i < all.len() implies #[trigger] all[i] < groups.len() * 32 by {
            if i < before.len() {
                assert(all[i] == before[i]);
            } else {
                assert(all[i] == last[i - before.len()]);
            }
        }
    }
}

/// The cores that an affinity mask names come out in ascending order, each at
/// most once.
pub proof fn lemma_affinity_cores_ascending(content: Seq<char>)
    requires
        affinity_cores(content) is Some,
    ensures
        ascending(affinity_cores(content).unwrap()),
{
    lemma_groups_cores_ascending(split(trim(content), ',').reverse());
}

/// Core `c` is among the cores of a group's low `upto` bits exactly when it
/// lies in the group's range below `upto` and its bit is set.
proof fn lemma_group_cores_members(mask: u64, group: nat, upto: nat, c: nat)
    requires
        upto <= 32,
    ensures
        group_cores(mask, group, upto).contains(c) <==> group * 32 <= c < group * 32 + upto && bit_set(
            mask,
            (c - group * 32) as u64,
        ),
    decreases upto,
{
    if upto > 0 {
        let before = group_cores(mask, group, (upto - 1) as nat);
        lemma_group_cores_members(mask, group, (upto - 1) as nat, c);
        if bit_set(mask, (upto - 1) as u64) {
            let now = before.push((group * 32 + upto - 1) as nat);
            assert(now.contains(c) <==> before.contains(c) || c == group * 32 + upto - 1) by {
                if now.contains(c) {
                    let i = choose|i: int| 0 <= i < now.len() && now[i] == c;
                    if i < before.len() {
                        assert(before[i] == c);
                    }
                }
                if before.contains(c) {
                    let i = choose|i: int| 0 <= i < before.len() && before[i] == c;
                    assert(now[i] == c);
                }
                if c == group * 32 + upto - 1 {
                    assert(now[before.len() as int] == c);
                }
            }
        }
    }
}

/// The cores of the first `groups.len()` groups are exactly the set bits of
/// their masks: core `c` is among them when `c / 32` is a group and bit
/// `c % 32` of that group's mask is set.
proof fn lemma_groups_cores_members(groups: Seq<Seq<char>>, c: nat)
    requires
        groups_cores(groups) is Some,
    ensures
        groups_cores(groups).unwrap().contains(c) <==> c < groups.len() * 32 && bit_set(
            mask_chunk(groups[(c / 32) as int]).unwrap(),
            (c % 32) as u64,
        ),
    decreases groups.len(),
{
    if groups.len() > 0 {
        let n = groups.len();
        let init = groups.subrange(0, n - 1);
        let mask = mask_chunk(groups[n - 1]).unwrap();
        let g = (n - 1) as nat;
        lemma_groups_cores_members(init, c);
        lemma_group_cores_members(mask, g, 32, c);
        let before = groups_cores(init).unwrap();
        let last = group_cores(mask, g, 32);
        let all = groups_cores(groups).unwrap();
        assert(all == before + last);
        assert(all.contains(c) <==> before.contains(c) || last.contains(c)) by {
            if all.contains(c) {
                let i = choose|i: int| 0 <= i < all.len() && all[i] == c;
                if i < before.len() {
                    assert(before[i] == c);
                } else {
                    assert(last[i - before.len()] == c);
                }
            }
            if before.contains(c) {
                let i = choose|i: int| 0 <= i < before.len() && before[i] == c;
                assert(all[i] == c);
            }
            if last.contains(c) {
                let i = choose|i: int| 0 <= i < last.len() && last[i] == c;
                assert(all[before.len() + i] == c);
            }
        }
        if c < g * 32 {
            assert(c / 32 < g) by (nonlinear_arith)
                requires
                    c < g * 32,
            ;
            assert(init[(c / 32) as int] == groups[(c / 32) as int]);
        } else if c < g * 32 + 32 {
            assert(c / 32 == g && c % 32 == c - g * 32) by (nonlinear_arith)
                requires
                    g * 32 <= c < g * 32 + 32,
            ;
        }
    }
}

/// The cores that an affinity mask names are exactly its set bits: with the
/// groups taken least significant first, core `c` is named when `c / 32` is a
/// group and bit `c % 32` of that group's mask is set (bits 32 to 63 of a
/// group's mask name no core).
pub proof fn lemma_affinity_cores_members(content: Seq<char>, c: nat)
    requires
        affinity_cores(content) is Some,
    ensures
        affinity_cores(content).unwrap().contains(c) <==> {
            let groups = split(trim(content), ',').reverse();
            c < groups.len() * 32 && bit_set(mask_chunk(groups[(c / 32) as int]).unwrap(), (c % 32) as u64)
        },
{
    lemma_groups_cores_members(split(trim(content), ',').reverse(), c);
}

/// The core ids of a list, as numbers.
pub open spec fn core_nats(cores: Seq<u32>) -> Seq<nat> {
    cores.map_values(|x: u32| x as nat)
}

/// Bit `b` of a mask is set exactly when the mask shifted right by `b` is odd.
proof fn lemma_bit_set_is_shifted_bit(mask: u64, b: u64)
    requires
        b < 64,
    ensures
        bit_set(mask, b) <==> (mask >> b) & 1u64 == 1u64,
{
    assert((mask & (1u64 << b) != 0u64) <==> ((mask >> b) & 1u64 == 1u64)) by (bit_vector)
        requires
            b < 64,
    ;
}

/// The cores that an affinity mask names are exactly its set bits, counted
/// from the least significant group: core `c` is named when `c / 32` is a
/// group and `(value >> (c % 32)) & 1 == 1` for the hexadecimal value of that
/// group. For instance `00000100` names core 8 and no other.
pub proof fn lemma_affinity_cores_are_set_bits(content: Seq<char>, c: nat)
    requires
        affinity_cores(content) is Some,
    ensures
        affinity_cores(content).unwrap().contains(c) <==> {
            let groups = split(trim(content), ',').reverse();
            c < groups.len() * 32 && (mask_chunk(groups[(c / 32) as int]).unwrap() >> ((c % 32) as u64)) & 1u64
                == 1u64
        },
{
    lemma_affinity_cores_members(content, c);
    let groups = split(trim(content), ',').reverse();
    if c < groups.len() * 32 {
        lemma_bit_set_is_shifted_bit(mask_chunk(groups[(c / 32) as int]).unwrap(), (c % 32) as u64);
    }
}

/// The message of a mask group that is not a hexadecimal number:
/// `malformed affinity mask chunk: ` and the group as it stands.
pub fn malformed_chunk_message(chunk: &[char]) -> (m: String)
    ensures
        m@ == "malformed affinity mask chunk: "@ + chunk@,
{
    let mut message = String::from_str("malformed affinity mask chunk: ");
    message.append(string_of(chunk).as_str());
    message
}

/// Parse an `/proc/irq/<irq>/smp_affinity` string into a list of core ids.
///
/// Linux prints the mask as comma-separated 32-bit groups, least-significant
/// group last, so each group covers 32 cores; a group may carry a `0x` prefix.
///
/// # Errors
///
/// Returns `Error::System` for `read_irq_affinity` when a group is not a
/// hexadecimal number or a core index does not fit in a `u32`.
pub fn parse_irq_affinity(content: &str) -> (r: crate::Result<Vec<u32>>)
    ensures
        match r {
            Ok(cores) => affinity_cores(content@) is Some
                && cores@.map_values(|c: u32| c as nat) == affinity_cores(content@).unwrap()
                && fits_u32(affinity_cores(content@).unwrap()),
            Err(e) => (affinity_cores(content@) is None || !fits_u32(affinity_cores(content@).unwrap()))
                && (e matches Error::System { operation, .. } && operation == "read_irq_affinity"),
        },
        r matches Ok(cores) ==> forall|c: nat|
            #[trigger] core_nats(cores@).contains(c) <==> {
                let groups = split(trim(content@), ',').reverse();
                c < groups.len() * 32 && (mask_chunk(groups[(c / 32) as int]).unwrap() >> ((c % 32) as u64)) & 1u64
                    == 1u64
            },
{
    let chars = chars_of(content);
    let trimmed = trim_chars(chars.as_slice());
    let pieces = split_chars(trimmed.as_slice(), ',');
    let ghost groups = views(pieces@).reverse();
    let n = pieces.len();
    let hex_lower = chars_of("0x");
    let hex_upper = chars_of("0X");
    let mut cores: Vec<u32> = Vec::new();
    let mut g: usize = 0;
    while g < n
        invariant
            n == pieces@.len(),
            groups == views(pieces@).reverse(),
            groups == split(trim(content@), ',').reverse(),
            hex_lower@ == "0x"@,
            hex_upper@ == "0X"@,
            g <= n,
            groups_cores(groups.subrange(0, g as int)) is Some,
            cores@.map_values(|c: u32| c as nat) == groups_cores(groups.subrange(0, g as int)).unwrap(),
            fits_u32(groups_cores(groups.subrange(0, g as int)).unwrap()),
        decreases n - g,
    {
        let chunk = &pieces[n - 1 - g];
        let ghost done = groups.subrange(0, g + 1);
        proof {
            assert(groups[g as int] == chunk@);
            assert(done.subrange(0, done.len() - 1) =~= groups.subrange(0, g as int));
            assert(done[done.len() - 1] == chunk@);
        }
        let t = trim_chars(chunk.as_slice());
        let digits = match without_prefix(t.as_slice(), hex_lower.as_slice()) {
            Some(rest) => rest,
            None => match without_prefix(t.as_slice(), hex_upper.as_slice()) {
                Some(rest) => rest,
                None => t,
            },
        };
        let mask = match parse_radix(digits.as_slice(), 16, u64::MAX) {
            Some(m) => m,
            None => {
                proof {
                    assert(groups_cores(done) is None);
                    lemma_prefix_failure(groups, g + 1);
                }
                let message = malformed_chunk_message(chunk.as_slice());
                return Err(Error::System {
                    operation: "read_irq_affinity",
                    source: invalid_data_error(message),
                });
            },
        };
        let ghost before = cores@.map_values(|c: u32| c as nat);
        proof {
            assert(mask_chunk(chunk@) == Some(mask));
            assert(groups_cores(done) == Some(before + group_cores(mask, g as nat, 32)));
        }
        let mut bit: u64 = 0;
        while bit < 32
            invariant
                bit <= 32,
                g < n,
                n == pieces@.len(),
                groups.len() == n,
                done == groups.subrange(0, g + 1),
                groups == split(trim(content@), ',').reverse(),
                groups_cores(done) == Some(before + group_cores(mask, g as nat, 32)),
                cores@.map_values(|c: u32| c as nat) == before + group_cores(mask, g as nat, bit as nat),
                fits_u32(before + group_cores(mask, g as nat, bit as nat)),
            decreases 32 - bit,
        {
            if mask & (1u64 << bit) != 0 {
                let core = (g as u128) * 32 + (bit as u128);
                if core > u32::MAX as u128 {
                    proof {
                        let upto = group_cores(mask, g as nat, (bit + 1) as nat);
                        assert(upto == group_cores(mask, g as nat, bit as nat).push(core as nat));
                        lemma_group_cores_prefix(mask, g as nat, (bit + 1) as nat, 32);
                        let all = group_cores(mask, g as nat, 32);
                        assert(all[upto.len() - 1] == core as nat);
                        let whole = groups_cores(done).unwrap();
                        assert(whole == before + all);
                        assert(whole[before.len() + upto.len() - 1] == core as nat);
                        lemma_prefix_failure(groups, g + 1);
                        assert(groups.subrange(0, n as int) =~= groups);
                    }
                    return Err(Error::System {
                        operation: "read_irq_affinity",
                        source: invalid_data_error(String::from_str("affinity mask core index overflow")),
                    });
                }
                let ghost prev = cores@;
                cores.push(core as u32);
                proof {
                    assert(bit_set(mask, bit));
                    assert(group_cores(mask, g as nat, (bit + 1) as nat)
                        == group_cores(mask, g as nat, bit as nat).push(core as nat));
                    assert(cores@ == prev.push(core as u32));
                    assert(cores@.map_values(|c: u32| c as nat) =~= prev.map_values(|c: u32| c as nat).push(core as nat));
                }
            } else {
                proof {
                    assert(!bit_set(mask, bit));
                    assert(group_cores(mask, g as nat, (bit + 1) as nat) == group_cores(mask, g as nat, bit as nat));
                }
            }
            bit = bit + 1;
            proof {
                assert(cores@.map_values(|c: u32| c as nat) =~= before + group_cores(mask, g as nat, bit as nat));
            }
        }
        g = g + 1;
    }
    proof {
        assert(groups.subrange(0, n as int) =~= groups);
        assert forall|c: nat|
            #[trigger] core_nats(cores@).contains(c) <==> {
                let gs = split(trim(content@), ',').reverse();
                c < gs.len() * 32 && (mask_chunk(gs[(c / 32) as int]).unwrap() >> ((c % 32) as u64)) & 1u64 == 1u64
            } by {
            lemma_affinity_cores_are_set_bits(content@, c);
        }
    }
    Ok(cores)
}

/// The number of CPUs that an affinity set covers: `CPU_SETSIZE` when it is
/// non-negative, else 1024.
pub open spec fn set_cpus(cpu_setsize: i32) -> nat {
    if cpu_setsize >= 0 {
        cpu_setsize as nat
    } else {
        1024
    }
}

/// The number of `usize` words of an affinity set.
pub open spec fn set_words(cpu_setsize: i32) -> nat {
    (set_cpus(cpu_setsize) + usize::BITS - 1) as nat / (usize::BITS as nat)
}

/// The words of the `sched_setaffinity` mask that selects exactly `core_id`,
/// for an affinity set of `cpu_setsize` CPUs (`libc::CPU_SETSIZE`): one bit, in
/// word `core_id / usize::BITS`.
///
/// # Errors
///
/// Returns `Error::System` for `sched_setaffinity` when the core lies beyond
/// the words of the set.
pub fn core_mask(core_id: usize, cpu_setsize: i32) -> (r: crate::Result<Vec<usize>>)
    ensures
        match r {
            Ok(mask) => {
                &&& core_id < set_words(cpu_setsize) * usize::BITS
                &&& mask@.len() == set_words(cpu_setsize)
                &&& forall|i: int| 0 <= i < mask@.len() ==> mask@[i] == (if i == core_id / (usize::BITS as usize) {
                    1usize << ((core_id % (usize::BITS as usize)) as usize)
                } else {
                    0usize
                })
            },
            Err(e) => core_id >= set_words(cpu_setsize) * usize::BITS
                && (e matches Error::System { operation, .. } && operation == "sched_setaffinity"),
        },
{
    let bits = usize::BITS as usize;
    let cpus: usize = if cpu_setsize >= 0 { cpu_setsize as usize } else { 1024 };
    let words = cpus / bits + if cpus % bits == 0 { 0 } else { 1 };
    proof {
        assert(words == set_words(cpu_setsize)) by (nonlinear_arith)
            requires
                bits == usize::BITS,
                bits == 32 || bits == 64,
                cpus == set_cpus(cpu_setsize),
                words == cpus / bits + if cpus % bits == 0 { 0int } else { 1int },
        ;
        assert(words * bits <= cpus + bits) by (nonlinear_arith)
            requires
                bits == 32 || bits == 64,
                words == cpus / bits + if cpus % bits == 0 { 0int } else { 1int },
        ;
    }
    if core_id >= words * bits {
        return Err(Error::System { operation: "sched_setaffinity", source: invalid_input_error() });
    }
    let index = core_id / bits;
    let bit = core_id % bits;
    let mut mask: Vec<usize> = Vec::new();
    let mut i: usize = 0;
    proof {
        assert(index < words) by (nonlinear_arith)
            requires
                bits == 32 || bits == 64,
                core_id < words * bits,
                index == core_id / bits,
        ;
    }
    while i < words
        invariant
            bits == usize::BITS,
            index == core_id / (usize::BITS as usize),
            bit == core_id % (usize::BITS as usize),
            bit < bits,
            i <= words,
            mask@.len() == i,
            forall|j: int| 0 <= j < i ==> mask@[j] == (if j == index { 1usize << bit } else { 0usize }),
        decreases words - i,
    {
        if i == index {
            mask.push(1usize << bit);
        } else {
            mask.push(0);
        }
        i = i + 1;
    }
    Ok(mask)
}

} // verus!
