//! Character-level text handling shared by the parsers of the library.
//!
//! The spec functions here state what the standard library's string
//! operations compute (`trim`, `split`, `lines`, `split_whitespace`, integer
//! `from_str`), and the executable functions compute the same on vectors of
//! characters, so that each parser can be proved against them.

use vstd::prelude::*;

verus! {

broadcast use vstd::string::group_string_axioms;

/// Unicode `White_Space`, the set that `char::is_whitespace` tests.
pub open spec fn is_whitespace(c: char) -> bool {
    ||| c == '\t'
    ||| c == '\n'
    ||| c == '\u{0B}'
    ||| c == '\u{0C}'
    ||| c == '\r'
    ||| c == ' '
    ||| c == '\u{85}'
    ||| c == '\u{A0}'
    ||| c == '\u{1680}'
    ||| ('\u{2000}' <= c && c <= '\u{200A}')
    ||| c == '\u{2028}'
    ||| c == '\u{2029}'
    ||| c == '\u{202F}'
    ||| c == '\u{205F}'
    ||| c == '\u{3000}'
}

/// `s` without its leading whitespace.
pub open spec fn trim_start(s: Seq<char>) -> Seq<char>
    decreases s.len(),
{
    if s.len() > 0 && is_whitespace(s[0]) {
        trim_start(s.subrange(1, s.len() as int))
    } else {
        s
    }
}

/// `s` without its trailing whitespace.
pub open spec fn trim_end(s: Seq<char>) -> Seq<char>
    decreases s.len(),
{
    if s.len() > 0 && is_whitespace(s[s.len() - 1]) {
        trim_end(s.subrange(0, s.len() - 1))
    } else {
        s
    }
}

/// `s` without its leading and trailing whitespace, as `str::trim` gives it.
pub open spec fn trim(s: Seq<char>) -> Seq<char> {
    trim_end(trim_start(s))
}

/// The ASCII upper-case form of `c`, as `char::to_ascii_uppercase` gives it.
pub open spec fn upper_char(c: char) -> char {
    if 'a' <= c && c <= 'z' {
        (c as int - 32) as char
    } else {
        c
    }
}

/// The ASCII lower-case form of `c`, as `char::to_ascii_lowercase` gives it.
pub open spec fn lower_char(c: char) -> char {
    if 'A' <= c && c <= 'Z' {
        (c as int + 32) as char
    } else {
        c
    }
}

/// `s` with every ASCII letter in upper case.
pub open spec fn upper(s: Seq<char>) -> Seq<char> {
    s.map_values(|c: char| upper_char(c))
}

/// `s` with every ASCII letter in lower case.
pub open spec fn lower(s: Seq<char>) -> Seq<char> {
    s.map_values(|c: char| lower_char(c))
}

/// Whether `s` begins with `p`.
pub open spec fn starts_with(s: Seq<char>, p: Seq<char>) -> bool {
    s.len() >= p.len() && s.subrange(0, p.len() as int) == p
}

/// `s` without the suffix `p`, when it ends with `p`.
pub open spec fn strip_suffix(s: Seq<char>, p: Seq<char>) -> Option<Seq<char>> {
    if s.len() >= p.len() && s.subrange(s.len() - p.len(), s.len() as int) == p {
        Some(s.subrange(0, s.len() - p.len()))
    } else {
        None
    }
}

/// `s` without the prefix `p`, when it begins with `p`.
pub open spec fn strip_prefix(s: Seq<char>, p: Seq<char>) -> Option<Seq<char>> {
    if starts_with(s, p) {
        Some(s.subrange(p.len() as int, s.len() as int))
    } else {
        None
    }
}

/// Whether `c` is an ASCII decimal digit.
pub open spec fn is_digit(c: char) -> bool {
    '0' <= c && c <= '9'
}

/// Whether `c` is an ASCII hexadecimal digit of either case.
pub open spec fn is_hex_digit(c: char) -> bool {
    is_digit(c) || ('a' <= c && c <= 'f') || ('A' <= c && c <= 'F')
}

/// The value of the digit `c` in base 10 or 16.
pub open spec fn digit_value(c: char) -> nat {
    if is_digit(c) {
        (c as int - '0' as int) as nat
    } else if 'a' <= c && c <= 'f' {
        (c as int - 'a' as int + 10) as nat
    } else {
        (c as int - 'A' as int + 10) as nat
    }
}

/// Whether every character of `s` is a digit of `radix` (10 or 16).
pub open spec fn all_digits(s: Seq<char>, radix: nat) -> bool {
    forall|i: int| 0 <= i < s.len() ==> if radix == 16 { is_hex_digit(#[trigger] s[i]) } else { is_digit(s[i]) }
}

/// The value of the digit string `s` in base `radix`.
pub open spec fn digits_value(s: Seq<char>, radix: nat) -> nat
    decreases s.len(),
{
    if s.len() == 0 {
        0
    } else {
        digits_value(s.subrange(0, s.len() - 1), radix) * radix + digit_value(s[s.len() - 1])
    }
}

/// The digits of an unsigned number: `s` without one leading `+`.
pub open spec fn unsigned_digits(s: Seq<char>) -> Seq<char> {
    if s.len() > 0 && s[0] == '+' {
        s.subrange(1, s.len() as int)
    } else {
        s
    }
}

/// What `from_str_radix` of an unsigned integer type whose largest value is
/// `max` gives for `s`: an optional `+`, then one or more digits, of a value
/// no larger than `max`.
pub open spec fn parse_unsigned(s: Seq<char>, radix: nat, max: nat) -> Option<nat> {
    let digits = unsigned_digits(s);
    if digits.len() > 0 && all_digits(digits, radix) && digits_value(digits, radix) <= max {
        Some(digits_value(digits, radix))
    } else {
        None
    }
}

/// The index of the first `c` in `s`, if any.
pub open spec fn find(s: Seq<char>, c: char) -> Option<nat>
    decreases s.len(),
{
    if s.len() == 0 {
        None
    } else if s[0] == c {
        Some(0)
    } else {
        match find(s.subrange(1, s.len() as int), c) {
            Some(i) => Some(i + 1),
            None => None,
        }
    }
}

/// The pieces of `s` between occurrences of `sep`, as `str::split` gives them.
pub open spec fn split(s: Seq<char>, sep: char) -> Seq<Seq<char>>
    decreases s.len(),
{
    match find(s, sep) {
        Some(i) => {
            proof {
                lemma_find_in_bounds(s, sep);
            }
            seq![s.subrange(0, i as int)] + split(s.subrange(i as int + 1, s.len() as int), sep)
        },
        None => seq![s],
    }
}

/// The character sequences held by a vector of character vectors.
pub open spec fn views(v: Seq<Vec<char>>) -> Seq<Seq<char>> {
    v.map_values(|x: Vec<char>| x@)
}

/// `s` without one trailing carriage return.
pub open spec fn strip_cr(s: Seq<char>) -> Seq<char> {
    if s.len() > 0 && s[s.len() - 1] == '\r' {
        s.subrange(0, s.len() - 1)
    } else {
        s
    }
}

/// The lines of `s`, as `str::lines` gives them: split at `\n`, with a `\r`
/// before a `\n` removed, and no empty line after a final `\n`.
pub open spec fn lines(s: Seq<char>) -> Seq<Seq<char>> {
    let pieces = split(s, '\n');
    let ended = pieces.subrange(0, pieces.len() - 1).map_values(|p: Seq<char>| strip_cr(p));
    if pieces[pieces.len() - 1].len() == 0 {
        ended
    } else {
        ended.push(pieces[pieces.len() - 1])
    }
}

/// The length of the run of non-whitespace characters at the start of `s`.
pub open spec fn token_len(s: Seq<char>) -> nat
    decreases s.len(),
{
    if s.len() == 0 || is_whitespace(s[0]) {
        0
    } else {
        1 + token_len(s.subrange(1, s.len() as int))
    }
}

/// The first whitespace-separated token of `s`, as `split_whitespace().next()` gives it.
pub open spec fn first_token(s: Seq<char>) -> Option<Seq<char>> {
    let t = trim_start(s);
    if t.len() == 0 {
        None
    } else {
        Some(t.subrange(0, token_len(t) as int))
    }
}

/// `s` after its first whitespace-separated token.
pub open spec fn skip_token(s: Seq<char>) -> Seq<char> {
    let t = trim_start(s);
    t.subrange(token_len(t) as int, t.len() as int)
}

/// The decimal digits of `n`, most significant first.
pub open spec fn decimal(n: nat) -> Seq<char>
    decreases n,
{
    if n < 10 {
        seq![digit_char(n)]
    } else {
        decimal(n / 10).push(digit_char(n % 10))
    }
}

/// The character of the decimal digit `d`.
pub open spec fn digit_char(d: nat) -> char {
    ('0' as int + d) as char
}

// ---------------------------------------------------------------- lemmas

/// A found index is in bounds and holds the character looked for, and no
/// earlier index holds it.
pub proof fn lemma_find_in_bounds(s: Seq<char>, c: char)
    ensures
        match find(s, c) {
            Some(i) => i < s.len() && s[i as int] == c && forall|j: int| 0 <= j < i ==> s[j] != c,
            None => forall|j: int| 0 <= j < s.len() ==> s[j] != c,
        },
    decreases s.len(),
{
    if s.len() > 0 && s[0] != c {
        let rest = s.subrange(1, s.len() as int);
        lemma_find_in_bounds(rest, c);
        match find(rest, c) {
            Some(i) => {
                assert forall|j: int| 0 <= j < i + 1 implies s[j] != c by {
                    if j > 0 {
                        assert(s[j] == rest[j - 1]);
                    }
                }
            },
            None => {
                assert forall|j: int| 0 <= j < s.len() implies s[j] != c by {
                    if j > 0 {
                        assert(s[j] == rest[j - 1]);
                    }
                }
            },
        }
    }
}

/// `find` gives the first position of the character.
proof fn lemma_find_first(s: Seq<char>, c: char, k: int)
    requires
        0 <= k < s.len(),
        s[k] == c,
        forall|j: int| 0 <= j < k ==> s[j] != c,
    ensures
        find(s, c) == Some(k as nat),
{
    lemma_find_in_bounds(s, c);
}

/// `find` gives nothing when the character does not occur.
proof fn lemma_find_none(s: Seq<char>, c: char)
    requires
        forall|j: int| 0 <= j < s.len() ==> s[j] != c,
    ensures
        find(s, c) is None,
{
    lemma_find_in_bounds(s, c);
}

/// A longer digit string is worth at least as much as its prefix.
proof fn lemma_digits_value_prefix(s: Seq<char>, radix: nat, k: int)
    requires
        0 <= k <= s.len(),
        radix >= 1,
    ensures
        digits_value(s.subrange(0, k), radix) <= digits_value(s, radix),
    decreases s.len(),
{
    if k < s.len() {
        let init = s.subrange(0, s.len() - 1);
        lemma_digits_value_prefix(init, radix, k);
        assert(init.subrange(0, k) =~= s.subrange(0, k));
        assert(digits_value(init, radix) <= digits_value(init, radix) * radix) by (nonlinear_arith)
            requires
                radix >= 1,
        ;
    } else {
        assert(s.subrange(0, k) =~= s);
    }
}

// ---------------------------------------------------------------- exec

/// The characters of `s`, in order.
pub fn chars_of(s: &str) -> (v: Vec<char>)
    ensures
        v@ == s@,
{
    let mut v: Vec<char> = Vec::new();
    for c in it: s.chars()
        invariant
            it.seq() == s@,
            v@ == s@.take(it.index() as int),
    {
        v.push(c);
        proof {
            assert(v@ =~= s@.take(it.index() as int + 1));
        }
    }
    proof {
        assert(v@ =~= s@);
    }
    v
}

/// Whether `c` is whitespace, as `char::is_whitespace` decides.
pub fn is_ws(c: char) -> (b: bool)
    ensures
        b == is_whitespace(c),
{
    c == '\t' || c == '\n' || c == '\u{0B}' || c == '\u{0C}' || c == '\r' || c == ' '
        || c == '\u{85}' || c == '\u{A0}' || c == '\u{1680}' || ('\u{2000}' <= c && c <= '\u{200A}')
        || c == '\u{2028}' || c == '\u{2029}' || c == '\u{202F}' || c == '\u{205F}'
        || c == '\u{3000}'
}

/// The ASCII upper-case form of `c`.
pub fn to_upper(c: char) -> (r: char)
    ensures
        r == upper_char(c),
{
    if 'a' <= c && c <= 'z' {
        let b = (c as u32 - 32) as u8;
        b as char
    } else {
        c
    }
}

/// The ASCII lower-case form of `c`.
pub fn to_lower(c: char) -> (r: char)
    ensures
        r == lower_char(c),
{
    if 'A' <= c && c <= 'Z' {
        let b = (c as u32 + 32) as u8;
        b as char
    } else {
        c
    }
}

/// The characters of `s` from `lo` up to `hi`.
pub fn copy_range(s: &[char], lo: usize, hi: usize) -> (v: Vec<char>)
    requires
        lo <= hi <= s@.len(),
    ensures
        v@ == s@.subrange(lo as int, hi as int),
{
    let mut v: Vec<char> = Vec::new();
    let mut i = lo;
    while i < hi
        invariant
            lo <= i <= hi <= s@.len(),
            v@ == s@.subrange(lo as int, i as int),
        decreases hi - i,
    {
        v.push(s[i]);
        i = i + 1;
        proof {
            assert(v@ =~= s@.subrange(lo as int, i as int));
        }
    }
    v
}

/// The number of leading whitespace characters of `s`.
fn leading_ws(s: &[char]) -> (n: usize)
    ensures
        n <= s@.len(),
        trim_start(s@) == s@.subrange(n as int, s@.len() as int),
{
    let mut lo: usize = 0;
    proof {
        assert(s@.subrange(0, s@.len() as int) =~= s@);
    }
    while lo < s.len() && is_ws(s[lo])
        invariant
            lo <= s@.len(),
            trim_start(s@) == trim_start(s@.subrange(lo as int, s@.len() as int)),
        decreases s@.len() - lo,
    {
        proof {
            let sub = s@.subrange(lo as int, s@.len() as int);
            assert(sub.subrange(1, sub.len() as int) =~= s@.subrange(lo + 1, s@.len() as int));
        }
        lo = lo + 1;
    }
    lo
}

/// `s` without its leading and trailing whitespace.
pub fn trim_chars(s: &[char]) -> (t: Vec<char>)
    ensures
        t@ == trim(s@),
{
    let lo = leading_ws(s);
    let mut hi: usize = s.len();
    while hi > lo && is_ws(s[hi - 1])
        invariant
            lo <= hi <= s@.len(),
            trim_start(s@) == s@.subrange(lo as int, s@.len() as int),
            trim_end(trim_start(s@)) == trim_end(s@.subrange(lo as int, hi as int)),
        decreases hi,
    {
        proof {
            let sub = s@.subrange(lo as int, hi as int);
            assert(sub.subrange(0, sub.len() - 1) =~= s@.subrange(lo as int, hi - 1));
        }
        hi = hi - 1;
    }
    copy_range(s, lo, hi)
}

/// `s` with every ASCII letter in upper case.
pub fn upper_chars(s: &[char]) -> (t: Vec<char>)
    ensures
        t@ == upper(s@),
{
    let mut t: Vec<char> = Vec::new();
    let mut i: usize = 0;
    while i < s.len()
        invariant
            i <= s@.len(),
            t@ == upper(s@.subrange(0, i as int)),
        decreases s@.len() - i,
    {
        t.push(to_upper(s[i]));
        i = i + 1;
        proof {
            assert(t@ =~= upper(s@.subrange(0, i as int)));
        }
    }
    proof {
        assert(s@.subrange(0, s@.len() as int) =~= s@);
    }
    t
}

/// `s` with every ASCII letter in lower case.
pub fn lower_chars(s: &[char]) -> (t: Vec<char>)
    ensures
        t@ == lower(s@),
{
    let mut t: Vec<char> = Vec::new();
    let mut i: usize = 0;
    while i < s.len()
        invariant
            i <= s@.len(),
            t@ == lower(s@.subrange(0, i as int)),
        decreases s@.len() - i,
    {
        t.push(to_lower(s[i]));
        i = i + 1;
        proof {
            assert(t@ =~= lower(s@.subrange(0, i as int)));
        }
    }
    proof {
        assert(s@.subrange(0, s@.len() as int) =~= s@);
    }
    t
}

/// Whether `s` and `t` hold the same characters.
pub fn chars_equal(s: &[char], t: &[char]) -> (eq: bool)
    ensures
        eq == (s@ == t@),
{
    if s.len() != t.len() {
        return false;
    }
    let mut i: usize = 0;
    while i < s.len()
        invariant
            s@.len() == t@.len(),
            i <= s@.len(),
            forall|j: int| 0 <= j < i ==> s@[j] == t@[j],
        decreases s@.len() - i,
    {
        if s[i] != t[i] {
            return false;
        }
        i = i + 1;
    }
    assert(s@ =~= t@);
    true
}

/// Whether `s` begins with `p`.
pub fn has_prefix(s: &[char], p: &[char]) -> (b: bool)
    ensures
        b == starts_with(s@, p@),
{
    if s.len() < p.len() {
        return false;
    }
    let mut i: usize = 0;
    while i < p.len()
        invariant
            p@.len() <= s@.len(),
            i <= p@.len(),
            forall|j: int| 0 <= j < i ==> s@[j] == p@[j],
        decreases p@.len() - i,
    {
        if s[i] != p[i] {
            assert(s@.subrange(0, p@.len() as int)[i as int] != p@[i as int]);
            return false;
        }
        i = i + 1;
    }
    assert(s@.subrange(0, p@.len() as int) =~= p@);
    true
}

/// `s` without the suffix `p`, when it ends with `p`.
pub fn without_suffix(s: &[char], p: &[char]) -> (r: Option<Vec<char>>)
    ensures
        match r {
            Some(v) => strip_suffix(s@, p@) == Some(v@),
            None => strip_suffix(s@, p@) is None,
        },
{
    if s.len() < p.len() {
        return None;
    }
    let start = s.len() - p.len();
    let tail = copy_range(s, start, s.len());
    if chars_equal(tail.as_slice(), p) {
        Some(copy_range(s, 0, start))
    } else {
        None
    }
}

/// `s` without the prefix `p`, when it begins with `p`.
pub fn without_prefix(s: &[char], p: &[char]) -> (r: Option<Vec<char>>)
    ensures
        match r {
            Some(v) => strip_prefix(s@, p@) == Some(v@),
            None => strip_prefix(s@, p@) is None,
        },
{
    if has_prefix(s, p) {
        Some(copy_range(s, p.len(), s.len()))
    } else {
        None
    }
}

/// The value of the digit `c` in base 10 or 16, when it is one.
fn digit_of(c: char, radix: u64) -> (d: Option<u64>)
    requires
        radix == 10 || radix == 16,
    ensures
        match d {
            Some(v) => (if radix == 16 { is_hex_digit(c) } else { is_digit(c) }) && v == digit_value(c) && v < radix,
            None => !(if radix == 16 { is_hex_digit(c) } else { is_digit(c) }),
        },
{
    let code = c as u32;
    if '0' <= c && c <= '9' {
        Some((code - 48) as u64)
    } else if radix == 16 && 'a' <= c && c <= 'f' {
        Some((code - 87) as u64)
    } else if radix == 16 && 'A' <= c && c <= 'F' {
        Some((code - 55) as u64)
    } else {
        None
    }
}

/// `from_str_radix` of an unsigned integer type whose largest value is `max`.
pub fn parse_radix(s: &[char], radix: u64, max: u64) -> (r: Option<u64>)
    requires
        radix == 10 || radix == 16,
    ensures
        match r {
            Some(v) => parse_unsigned(s@, radix as nat, max as nat) == Some(v as nat),
            None => parse_unsigned(s@, radix as nat, max as nat) is None,
        },
{
    let start: usize = if s.len() > 0 && s[0] == '+' { 1 } else { 0 };
    let ghost digits = unsigned_digits(s@);
    proof {
        assert(digits =~= s@.subrange(start as int, s@.len() as int));
    }
    if start == s.len() {
        return None;
    }
    let mut acc: u64 = 0;
    let mut i: usize = start;
    while i < s.len()
        invariant
            start <= i <= s@.len(),
            digits == s@.subrange(start as int, s@.len() as int),
            digits == unsigned_digits(s@),
            radix == 10 || radix == 16,
            all_digits(s@.subrange(start as int, i as int), radix as nat),
            acc == digits_value(s@.subrange(start as int, i as int), radix as nat),
            acc <= max,
        decreases s@.len() - i,
    {
        let d = digit_of(s[i], radix);
        match d {
            None => {
                proof {
                    let k = (i - start) as int;
                    assert(digits[k] == s@[i as int]);
                    assert(!(if radix == 16 { is_hex_digit(digits[k]) } else { is_digit(digits[k]) }));
                    assert(!all_digits(digits, radix as nat));
                }
                return None;
            },
            Some(v) => {
                let ghost prefix = s@.subrange(start as int, i + 1);
                proof {
                    assert(prefix.subrange(0, prefix.len() - 1) =~= s@.subrange(start as int, i as int));
                    assert(digits_value(prefix, radix as nat) == acc * radix + v);
                }
                if (acc as u128) * (radix as u128) + (v as u128) > max as u128 {
                    proof {
                        assert(digits.subrange(0, (i + 1 - start) as int) =~= prefix);
                        lemma_digits_value_prefix(digits, radix as nat, (i + 1 - start) as int);
                        assert(acc * radix + v > max);
                        assert(digits_value(digits, radix as nat) > max);
                    }
                    return None;
                }
                acc = acc * radix + v;
                i = i + 1;
                proof {
                    assert forall|j: int| 0 <= j < prefix.len() implies (if radix == 16 { is_hex_digit(#[trigger] prefix[j]) } else { is_digit(prefix[j]) }) by {
                        if j < prefix.len() - 1 {
                            assert(prefix[j] == s@.subrange(start as int, i - 1)[j]);
                        }
                    }
                }
            },
        }
    }
    proof {
        assert(s@.subrange(start as int, i as int) =~= digits);
    }
    Some(acc)
}

/// The pieces of `s` between occurrences of `sep`.
pub fn split_chars(s: &[char], sep: char) -> (pieces: Vec<Vec<char>>)
    ensures
        views(pieces@) == split(s@, sep),
{
    let mut pieces: Vec<Vec<char>> = Vec::new();
    let mut start: usize = 0;
    let mut i: usize = 0;
    proof {
        assert(s@.subrange(0, s@.len() as int) =~= s@);
        assert(views(pieces@) =~= Seq::<Seq<char>>::empty());
        assert(split(s@, sep) =~= views(pieces@) + split(s@.subrange(0, s@.len() as int), sep));
    }
    while i < s.len()
        invariant
            start <= i <= s@.len(),
            split(s@, sep) == views(pieces@) + split(s@.subrange(start as int, s@.len() as int), sep),
            forall|j: int| start <= j < i ==> s@[j] != sep,
        decreases s@.len() - i,
    {
        if s[i] == sep {
            let piece = copy_range(s, start, i);
            let ghost rest = s@.subrange(start as int, s@.len() as int);
            proof {
                lemma_find_first(rest, sep, (i - start) as int);
                assert(rest.subrange(0, (i - start) as int) =~= piece@);
                assert(rest.subrange((i - start) + 1, rest.len() as int) =~= s@.subrange(i + 1, s@.len() as int));
            }
            let ghost before = views(pieces@);
            pieces.push(piece);
            proof {
                assert(views(pieces@) =~= before.push(piece@));
                assert(split(s@, sep) =~= views(pieces@) + split(s@.subrange(i + 1, s@.len() as int), sep));
            }
            start = i + 1;
        }
        i = i + 1;
    }
    let last = copy_range(s, start, s.len());
    proof {
        lemma_find_none(s@.subrange(start as int, s@.len() as int), sep);
    }
    let ghost before = views(pieces@);
    pieces.push(last);
    proof {
        assert(views(pieces@) =~= before.push(last@));
        assert(split(s@, sep) =~= views(pieces@));
    }
    pieces
}

/// The length of the run of non-whitespace characters at the start of `s`.
fn token_end(s: &[char]) -> (n: usize)
    ensures
        n == token_len(s@),
{
    let mut n: usize = 0;
    proof {
        assert(s@.subrange(0, s@.len() as int) =~= s@);
    }
    while n < s.len() && !is_ws(s[n])
        invariant
            n <= s@.len(),
            token_len(s@) == n + token_len(s@.subrange(n as int, s@.len() as int)),
        decreases s@.len() - n,
    {
        proof {
            let sub = s@.subrange(n as int, s@.len() as int);
            assert(sub.subrange(1, sub.len() as int) =~= s@.subrange(n + 1, s@.len() as int));
        }
        n = n + 1;
    }
    n
}

/// The first whitespace-separated token of `s`.
pub fn first_token_of(s: &[char]) -> (r: Option<Vec<char>>)
    ensures
        match r {
            Some(v) => first_token(s@) == Some(v@),
            None => first_token(s@) is None,
        },
{
    let lo = leading_ws(s);
    if lo == s.len() {
        return None;
    }
    let t = copy_range(s, lo, s.len());
    let n = token_end(t.as_slice());
    proof {
        lemma_token_len_bound(t@);
    }
    Some(copy_range(t.as_slice(), 0, n))
}

/// `s` after its first whitespace-separated token.
pub fn skip_token_of(s: &[char]) -> (r: Vec<char>)
    ensures
        r@ == skip_token(s@),
{
    let lo = leading_ws(s);
    let t = copy_range(s, lo, s.len());
    let n = token_end(t.as_slice());
    proof {
        lemma_token_len_bound(t@);
    }
    copy_range(t.as_slice(), n, t.len())
}

/// A token never runs past the end of its text.
proof fn lemma_token_len_bound(s: Seq<char>)
    ensures
        token_len(s) <= s.len(),
    decreases s.len(),
{
    if s.len() > 0 && !is_whitespace(s[0]) {
        lemma_token_len_bound(s.subrange(1, s.len() as int));
    }
}

/// The lines of `s`.
pub fn lines_of(s: &[char]) -> (ls: Vec<Vec<char>>)
    ensures
        views(ls@) == lines(s@),
{
    let pieces = split_chars(s, '\n');
    proof {
        lemma_split_len(s@, '\n');
    }
    let n = pieces.len();
    let mut ls: Vec<Vec<char>> = Vec::new();
    let mut i: usize = 0;
    while i + 1 < n
        invariant
            n == views(pieces@).len(),
            n >= 1,
            views(pieces@) == split(s@, '\n'),
            i <= n - 1,
            views(ls@) == views(pieces@).subrange(0, i as int).map_values(|p: Seq<char>| strip_cr(p)),
        decreases n - i,
    {
        let p = &pieces[i];
        let l = if p.len() > 0 && p[p.len() - 1] == '\r' {
            copy_range(p.as_slice(), 0, p.len() - 1)
        } else {
            copy_range(p.as_slice(), 0, p.len())
        };
        proof {
            assert(views(pieces@)[i as int] == p@);
            assert(p@.subrange(0, p@.len() as int) =~= p@);
        }
        let ghost before = views(ls@);
        ls.push(l);
        i = i + 1;
        proof {
            assert(views(ls@) =~= before.push(l@));
            assert(views(ls@) =~= views(pieces@).subrange(0, i as int).map_values(|p: Seq<char>| strip_cr(p)));
        }
    }
    let last = &pieces[n - 1];
    proof {
        assert(views(pieces@)[n - 1] == last@);
    }
    if last.len() > 0 {
        let l = copy_range(last.as_slice(), 0, last.len());
        let ghost before = views(ls@);
        ls.push(l);
        proof {
            assert(last@.subrange(0, last@.len() as int) =~= last@);
            assert(views(ls@) =~= before.push(last@));
        }
    }
    ls
}

/// `split` always gives at least one piece.
pub proof fn lemma_split_len(s: Seq<char>, sep: char)
    ensures
        split(s, sep).len() >= 1,
    decreases s.len(),
{
    match find(s, sep) {
        Some(i) => {
            lemma_find_in_bounds(s, sep);
        },
        None => {},
    }
}

/// What `trim_start` keeps is the end of `s`, and it starts with a character
/// that is not whitespace.
proof fn lemma_trim_start_shape(s: Seq<char>)
    ensures
        trim_start(s).len() <= s.len(),
        trim_start(s) == s.subrange(s.len() - trim_start(s).len(), s.len() as int),
        trim_start(s).len() > 0 ==> !is_whitespace(trim_start(s)[0]),
    decreases s.len(),
{
    if s.len() > 0 && is_whitespace(s[0]) {
        let rest = s.subrange(1, s.len() as int);
        lemma_trim_start_shape(rest);
        assert(rest.subrange(rest.len() - trim_start(rest).len(), rest.len() as int)
            =~= s.subrange(s.len() - trim_start(rest).len(), s.len() as int));
    } else {
        assert(s.subrange(0, s.len() as int) =~= s);
    }
}

/// What `trim_end` keeps is the start of `s`, and it ends with a character
/// that is not whitespace; what it drops is whitespace.
proof fn lemma_trim_end_shape(s: Seq<char>)
    ensures
        trim_end(s).len() <= s.len(),
        trim_end(s) == s.subrange(0, trim_end(s).len() as int),
        trim_end(s).len() > 0 ==> !is_whitespace(trim_end(s)[trim_end(s).len() - 1]),
        forall|i: int| trim_end(s).len() <= i < s.len() ==> is_whitespace(#[trigger] s[i]),
    decreases s.len(),
{
    if s.len() > 0 && is_whitespace(s[s.len() - 1]) {
        let rest = s.subrange(0, s.len() - 1);
        lemma_trim_end_shape(rest);
        assert(rest.subrange(0, trim_end(rest).len() as int) =~= s.subrange(0, trim_end(rest).len() as int));
        assert forall|i: int| trim_end(s).len() <= i < s.len() implies is_whitespace(#[trigger] s[i]) by {
            if i < s.len() - 1 {
                assert(s[i] == rest[i]);
            }
        }
    } else {
        assert(s.subrange(0, s.len() as int) =~= s);
    }
}

/// A trimmed text that is not empty ends with its text's last character or
/// the text ends with whitespace.
pub proof fn lemma_trim_last(s: Seq<char>)
    requires
        trim(s).len() > 0,
    ensures
        s.len() > 0,
        s[s.len() - 1] == trim(s)[trim(s).len() - 1] || is_whitespace(s[s.len() - 1]),
{
    let a = trim_start(s);
    lemma_trim_start_shape(s);
    lemma_trim_end_shape(a);
    let t = trim_end(a);
    if t.len() < a.len() {
        assert(is_whitespace(a[a.len() - 1]));
    } else {
        assert(t =~= a);
    }
    assert(a[a.len() - 1] == s[s.len() - 1]);
}

/// Upper-casing a trimmed text leaves nothing to trim.
pub proof fn lemma_trim_upper_trimmed(s: Seq<char>)
    ensures
        trim(upper(trim(s))) == upper(trim(s)),
{
    let a = trim_start(s);
    lemma_trim_start_shape(s);
    lemma_trim_end_shape(a);
    let t = trim_end(a);
    let u = upper(t);
    if u.len() > 0 {
        assert(t[0] == a[0]);
        assert(!is_whitespace(u[0]));
        assert(!is_whitespace(u[u.len() - 1]));
        assert(trim_start(u) == u);
        assert(trim_end(u) == u);
    }
}

/// Append the decimal digits of `n` to `out`.
pub fn push_decimal(out: &mut String, n: u64)
    ensures
        final(out)@ == old(out)@ + decimal(n as nat),
    decreases n,
{
    if n >= 10 {
        push_decimal(out, n / 10);
    }
    let d = n % 10;
    let digit = if d == 0 { "0" } else if d == 1 { "1" } else if d == 2 { "2" } else if d == 3 { "3" }
        else if d == 4 { "4" } else if d == 5 { "5" } else if d == 6 { "6" } else if d == 7 { "7" }
        else if d == 8 { "8" } else { "9" };
    proof {
        reveal_strlit("0");
        reveal_strlit("1");
        reveal_strlit("2");
        reveal_strlit("3");
        reveal_strlit("4");
        reveal_strlit("5");
        reveal_strlit("6");
        reveal_strlit("7");
        reveal_strlit("8");
        reveal_strlit("9");
    }
    let ghost mid = out@;
    out.append(digit);
    proof {
        assert(digit@ =~= seq![digit_char(d as nat)]);
        if n >= 10 {
            assert(out@ =~= old(out)@ + decimal(n as nat));
        } else {
            assert(out@ =~= old(out)@ + decimal(n as nat));
        }
    }
}

} // verus!
