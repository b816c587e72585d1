//! Parsing of human-readable sizes ("4KB", "1.5GB") and bandwidths ("100MB/s").
//!
//! The text is read as UTF-8 bytes. Leading and trailing Unicode white space
//! is ignored, unit suffixes are matched case-insensitively, and numbers are
//! decimal digits after an optional `+`. A size with a `GB`, `MB` or `KB`
//! suffix may carry a fractional part of at most eighteen digits; the byte
//! count is rounded down.
use vstd::prelude::*;
use vstd::string::StringSliceAdditionalSpecFns;

verus! {

/// Why a size or bandwidth string was not accepted.
#[derive(Debug, Clone, Copy, PartialEq, Eq, Structural)]
pub enum ParseError {
    /// The text is not a number followed by an optional unit.
    Invalid,
    /// The text is well formed but names more than `u64::MAX` bytes.
    TooLarge,
}

pub open spec fn is_space(c: u8) -> bool {
    c == 32 || (9 <= c && c <= 13)
}

pub open spec fn is_digit(c: u8) -> bool {
    48 <= c && c <= 57
}

pub open spec fn upper(c: u8) -> u8 {
    if 97 <= c && c <= 122 {
        (c - 32) as u8
    } else {
        c
    }
}

pub open spec fn lower(c: u8) -> u8 {
    if 65 <= c && c <= 90 {
        (c + 32) as u8
    } else {
        c
    }
}

/// A white-space character of three UTF-8 bytes: U+1680, U+2000 to U+200A,
/// U+2028, U+2029, U+202F, U+205F or U+3000.
pub open spec fn is_space3(a: u8, b: u8, c: u8) -> bool {
    (a == 0xE1 && b == 0x9A && c == 0x80) || (a == 0xE2 && b == 0x80 && ((0x80 <= c && c <= 0x8A)
        || c == 0xA8 || c == 0xA9 || c == 0xAF)) || (a == 0xE2 && b == 0x81 && c == 0x9F) || (a
        == 0xE3 && b == 0x80 && c == 0x80)
}

/// A white-space character of two UTF-8 bytes: U+0085 or U+00A0.
pub open spec fn is_space2(a: u8, b: u8) -> bool {
    a == 0xC2 && (b == 0x85 || b == 0xA0)
}

/// Length of the white-space character that `s` starts with; 0 for none.
pub open spec fn lead_space(s: Seq<u8>) -> int {
    if s.len() >= 1 && is_space(s[0]) {
        1
    } else if s.len() >= 2 && is_space2(s[0], s[1]) {
        2
    } else if s.len() >= 3 && is_space3(s[0], s[1], s[2]) {
        3
    } else {
        0
    }
}

/// Length of the white-space character that `s` ends with; 0 for none.
pub open spec fn trail_space(s: Seq<u8>) -> int {
    let n = s.len() as int;
    if n >= 1 && is_space(s[n - 1]) {
        1
    } else if n >= 2 && is_space2(s[n - 2], s[n - 1]) {
        2
    } else if n >= 3 && is_space3(s[n - 3], s[n - 2], s[n - 1]) {
        3
    } else {
        0
    }
}

pub open spec fn trim_start(s: Seq<u8>) -> Seq<u8>
    decreases s.len(),
{
    if lead_space(s) > 0 {
        trim_start(s.subrange(lead_space(s), s.len() as int))
    } else {
        s
    }
}

pub open spec fn trim_end(s: Seq<u8>) -> Seq<u8>
    decreases s.len(),
{
    if trail_space(s) > 0 {
        trim_end(s.subrange(0, s.len() - trail_space(s)))
    } else {
        s
    }
}

/// The UTF-8 bytes with leading and trailing Unicode white space removed.
pub open spec fn trim(s: Seq<u8>) -> Seq<u8> {
    trim_end(trim_start(s))
}

pub open spec fn all_digits(s: Seq<u8>) -> bool {
    forall|i: int| 0 <= i < s.len() ==> is_digit(#[trigger] s[i])
}

/// The value of a string of decimal digits.
pub open spec fn digits_value(s: Seq<u8>) -> nat
    decreases s.len(),
{
    if s.len() == 0 {
        0
    } else {
        digits_value(s.drop_last()) * 10 + (s.last() - 48) as nat
    }
}

pub open spec fn pow10(n: nat) -> nat
    decreases n,
{
    if n == 0 {
        1
    } else {
        10 * pow10((n - 1) as nat)
    }
}

/// Index of the first `.`, or the length when there is none.
pub open spec fn dot_pos(s: Seq<u8>) -> int
    decreases s.len(),
{
    if s.len() == 0 {
        0
    } else if s[0] == 46 {
        0
    } else {
        1 + dot_pos(s.drop_first())
    }
}

/// The number text without its leading `+`, if it has one.
pub open spec fn unsigned(s: Seq<u8>) -> Seq<u8> {
    if s.len() > 0 && s[0] == 43 {
        s.drop_first()
    } else {
        s
    }
}

/// A non-empty string of digits, read as a whole number.
pub open spec fn whole_number(s: Seq<u8>) -> Option<nat> {
    if s.len() > 0 && all_digits(s) {
        Some(digits_value(s))
    } else {
        None
    }
}

/// Longest fractional part that a scaled decimal may carry.
pub const MAX_FRACTION_DIGITS: usize = 18;

/// `int.frac` times `unit`, rounded down; either part may be empty, not both.
pub open spec fn scaled_decimal(s: Seq<u8>, unit: nat) -> Option<nat> {
    let k = dot_pos(s);
    let int_part = s.subrange(0, k);
    let frac = if k < s.len() {
        s.subrange(k + 1, s.len() as int)
    } else {
        Seq::<u8>::empty()
    };
    if all_digits(int_part) && all_digits(frac) && int_part.len() + frac.len() > 0
        && frac.len() <= MAX_FRACTION_DIGITS {
        Some(digits_value(int_part) * unit + digits_value(frac) * unit / pow10(frac.len()))
    } else {
        None
    }
}

pub open spec fn has_unit(t: Seq<u8>, a: u8, b: u8) -> bool {
    t.len() >= 2 && upper(t[t.len() - 2]) == a && upper(t[t.len() - 1]) == b
}

pub open spec fn kib() -> nat {
    1024
}

pub open spec fn mib() -> nat {
    1048576
}

pub open spec fn gib() -> nat {
    1073741824
}

/// The number of bytes that a size string names, before the range check.
pub open spec fn size_amount(s: Seq<u8>) -> Option<nat> {
    let t = trim(s);
    let n = t.len() as int;
    if has_unit(t, 71, 66) {
        scaled_decimal(unsigned(t.subrange(0, n - 2)), gib())
    } else if has_unit(t, 77, 66) {
        scaled_decimal(unsigned(t.subrange(0, n - 2)), mib())
    } else if has_unit(t, 75, 66) {
        scaled_decimal(unsigned(t.subrange(0, n - 2)), kib())
    } else if n >= 1 && upper(t[n - 1]) == 66 {
        whole_number(unsigned(t.subrange(0, n - 1)))
    } else {
        whole_number(unsigned(t))
    }
}

/// A byte count checked against the range of `u64`.
pub open spec fn in_range(a: Option<nat>) -> Result<u64, ParseError> {
    match a {
        None => Err(ParseError::Invalid),
        Some(v) => if v <= u64::MAX {
            Ok(v as u64)
        } else {
            Err(ParseError::TooLarge)
        },
    }
}

/// What parsing a size string yields.
pub open spec fn size_result(s: Seq<u8>) -> Result<u64, ParseError> {
    in_range(size_amount(s))
}

/// `unlimited`, the bandwidth that names no limit.
pub open spec fn unlimited_word() -> Seq<u8> {
    seq![117u8, 110u8, 108u8, 105u8, 109u8, 105u8, 116u8, 101u8, 100u8]
}

pub open spec fn is_unlimited(t: Seq<u8>) -> bool {
    t.len() == 9 && forall|i: int| 0 <= i < 9 ==> lower(#[trigger] t[i]) == unlimited_word()[i]
}

/// The bytes with every `/s` removed, scanning left to right; the `s` may be
/// `S` or `ſ` (U+017F), the letters whose upper case is `S`.
pub open spec fn drop_per_second(s: Seq<u8>) -> Seq<u8>
    decreases s.len(),
{
    if s.len() >= 2 && s[0] == 47 && upper(s[1]) == 83 {
        drop_per_second(s.subrange(2, s.len() as int))
    } else if s.len() >= 3 && s[0] == 47 && s[1] == 0xC5 && s[2] == 0xBF {
        drop_per_second(s.subrange(3, s.len() as int))
    } else if s.len() == 0 {
        s
    } else {
        seq![s[0]] + drop_per_second(s.drop_first())
    }
}

/// What parsing a bandwidth string yields: `None` for no limit, else bytes per second.
pub open spec fn bandwidth_result(s: Seq<u8>) -> Result<Option<u64>, ParseError> {
    let t = trim(s);
    if is_unlimited(t) {
        Ok(None)
    } else {
        match size_result(drop_per_second(t)) {
            Ok(v) => Ok(Some(v)),
            Err(e) => Err(e),
        }
    }
}

fn lead_space_at(s: &[u8], lo: usize, hi: usize) -> (r: usize)
    requires
        lo <= hi <= s@.len(),
    ensures
        r as int == lead_space(s@.subrange(lo as int, hi as int)),
{
    let ghost t = s@.subrange(lo as int, hi as int);
    let n = hi - lo;
    if n >= 1 {
        assert(t[0] == s@[lo as int]);
    }
    if n >= 2 {
        assert(t[1] == s@[lo + 1]);
    }
    if n >= 3 {
        assert(t[2] == s@[lo + 2]);
    }
    if n >= 1 && (s[lo] == 32 || (9 <= s[lo] && s[lo] <= 13)) {
        1
    } else if n >= 2 && s[lo] == 0xC2 && (s[lo + 1] == 0x85 || s[lo + 1] == 0xA0) {
        2
    } else if n >= 3 && is_space3_at(s, lo) {
        3
    } else {
        0
    }
}

fn is_space3_at(s: &[u8], i: usize) -> (r: bool)
    requires
        i + 3 <= s@.len(),
    ensures
        r == is_space3(s@[i as int], s@[i + 1], s@[i + 2]),
{
    let (a, b, c) = (s[i], s[i + 1], s[i + 2]);
    (a == 0xE1 && b == 0x9A && c == 0x80) || (a == 0xE2 && b == 0x80 && ((0x80 <= c && c <= 0x8A)
        || c == 0xA8 || c == 0xA9 || c == 0xAF)) || (a == 0xE2 && b == 0x81 && c == 0x9F) || (a
        == 0xE3 && b == 0x80 && c == 0x80)
}

fn trail_space_at(s: &[u8], lo: usize, hi: usize) -> (r: usize)
    requires
        lo <= hi <= s@.len(),
    ensures
        r as int == trail_space(s@.subrange(lo as int, hi as int)),
{
    let ghost t = s@.subrange(lo as int, hi as int);
    let n = hi - lo;
    if n >= 1 {
        assert(t[n - 1] == s@[hi - 1]);
    }
    if n >= 2 {
        assert(t[n - 2] == s@[hi - 2]);
    }
    if n >= 3 {
        assert(t[n - 3] == s@[hi - 3]);
    }
    if n >= 1 && (s[hi - 1] == 32 || (9 <= s[hi - 1] && s[hi - 1] <= 13)) {
        1
    } else if n >= 2 && s[hi - 2] == 0xC2 && (s[hi - 1] == 0x85 || s[hi - 1] == 0xA0) {
        2
    } else if n >= 3 && is_space3_at(s, hi - 3) {
        3
    } else {
        0
    }
}

/// Bounds `(lo, hi)` of the bytes that remain after trimming.
fn trim_bounds(s: &[u8]) -> (r: (usize, usize))
    ensures
        r.0 <= r.1 <= s@.len(),
        trim(s@) == s@.subrange(r.0 as int, r.1 as int),
{
    let n = s.len();
    let mut lo: usize = 0;
    proof {
        assert(s@.subrange(0, n as int) =~= s@);
    }
    loop
        invariant
            lo <= n == s@.len(),
            trim_start(s@) == trim_start(s@.subrange(lo as int, n as int)),
        ensures
            lo <= n,
            trim_start(s@) == trim_start(s@.subrange(lo as int, n as int)),
            lead_space(s@.subrange(lo as int, n as int)) == 0,
        decreases n - lo,
    {
        let k = lead_space_at(s, lo, n);
        if k == 0 {
            break;
        }
        assert(s@.subrange(lo as int, n as int).subrange(k as int, (n - lo) as int)
            =~= s@.subrange(lo + k, n as int));
        lo = lo + k;
    }
    let ghost rest = s@.subrange(lo as int, n as int);
    assert(trim_start(rest) == rest);
    let mut hi: usize = n;
    loop
        invariant
            lo <= hi <= n == s@.len(),
            trim_start(s@) == rest,
            rest == s@.subrange(lo as int, n as int),
            trim_end(rest) == trim_end(s@.subrange(lo as int, hi as int)),
        ensures
            lo <= hi <= n,
            trim_start(s@) == rest,
            trim_end(rest) == trim_end(s@.subrange(lo as int, hi as int)),
            trail_space(s@.subrange(lo as int, hi as int)) == 0,
        decreases hi,
    {
        let k = trail_space_at(s, lo, hi);
        if k == 0 {
            break;
        }
        assert(s@.subrange(lo as int, hi as int).subrange(0, (hi - lo - k) as int)
            =~= s@.subrange(lo as int, hi - k));
        hi = hi - k;
    }
    assert(trim_end(s@.subrange(lo as int, hi as int)) == s@.subrange(lo as int, hi as int));
    (lo, hi)
}

proof fn lemma_digits_prefix_le(s: Seq<u8>, j: int)
    requires
        0 <= j <= s.len(),
    ensures
        digits_value(s.subrange(0, j)) <= digits_value(s),
    decreases s.len(),
{
    if j == s.len() {
        assert(s.subrange(0, j) =~= s);
    } else {
        let t = s.drop_last();
        lemma_digits_prefix_le(t, j);
        assert(t.subrange(0, j) =~= s.subrange(0, j));
    }
}

proof fn lemma_digits_step(s: Seq<u8>, lo: int, i: int)
    requires
        0 <= lo <= i < s.len(),
    ensures
        digits_value(s.subrange(lo, i + 1)) == digits_value(s.subrange(lo, i)) * 10 + (s[i] - 48) as nat,
{
    let t = s.subrange(lo, i + 1);
    assert(t.drop_last() =~= s.subrange(lo, i));
}

proof fn lemma_digits_bound(s: Seq<u8>)
    requires
        all_digits(s),
    ensures
        digits_value(s) < pow10(s.len()),
    decreases s.len(),
{
    if s.len() > 0 {
        let t = s.drop_last();
        assert(all_digits(t)) by {
            assert forall|i: int| 0 <= i < t.len() implies is_digit(#[trigger] t[i]) by {
                assert(t[i] == s[i]);
            }
        }
        lemma_digits_bound(t);
        assert(is_digit(s[s.len() - 1]));
    }
}

proof fn lemma_pow10_mono(i: nat, j: nat)
    requires
        i <= j,
    ensures
        1 <= pow10(i) <= pow10(j),
    decreases j,
{
    if j > 0 {
        if j > i {
            lemma_pow10_mono(i, (j - 1) as nat);
        } else {
            lemma_pow10_mono((j - 1) as nat, (j - 1) as nat);
        }
    }
}

/// The value of the digits `s[lo..hi]`, or `None` when it exceeds `u64::MAX`.
fn digits_to_u64(s: &[u8], lo: usize, hi: usize) -> (r: Option<u64>)
    requires
        lo <= hi <= s@.len(),
        all_digits(s@.subrange(lo as int, hi as int)),
    ensures
        r == (if digits_value(s@.subrange(lo as int, hi as int)) <= u64::MAX {
            Some(digits_value(s@.subrange(lo as int, hi as int)) as u64)
        } else {
            None::<u64>
        }),
{
    let ghost whole = s@.subrange(lo as int, hi as int);
    let mut acc: u64 = 0;
    let mut i: usize = lo;
    proof {
        assert(s@.subrange(lo as int, lo as int) =~= Seq::<u8>::empty());
    }
    while i < hi
        invariant
            lo <= i <= hi <= s@.len(),
            whole == s@.subrange(lo as int, hi as int),
            all_digits(whole),
            acc == digits_value(s@.subrange(lo as int, i as int)),
        decreases hi - i,
    {
        assert(is_digit(s@[i as int])) by {
            assert(whole[i - lo] == s@[i as int]);
        }
        proof {
            lemma_digits_step(s@, lo as int, i as int);
        }
        let v: u128 = acc as u128 * 10 + (s[i] - 48) as u128;
        if v > u64::MAX as u128 {
            proof {
                assert(whole.subrange(0, i + 1 - lo) =~= s@.subrange(lo as int, i + 1));
                lemma_digits_prefix_le(whole, i + 1 - lo);
            }
            return None;
        }
        acc = v as u64;
        i = i + 1;
    }
    Some(acc)
}

/// Index of the first `.` in `s[lo..hi]`, relative to `lo`, or `hi - lo`.
fn find_dot(s: &[u8], lo: usize, hi: usize) -> (r: usize)
    requires
        lo <= hi <= s@.len(),
    ensures
        r as int == dot_pos(s@.subrange(lo as int, hi as int)),
        r <= hi - lo,
{
    let mut i: usize = lo;
    while i < hi && s[i] != 46
        invariant
            lo <= i <= hi <= s@.len(),
            dot_pos(s@.subrange(lo as int, hi as int)) == (i - lo) + dot_pos(s@.subrange(i as int, hi as int)),
        decreases hi - i,
    {
        assert(s@.subrange(i as int, hi as int).drop_first() =~= s@.subrange(i + 1, hi as int));
        i = i + 1;
    }
    (i - lo) as usize
}

fn all_digits_in(s: &[u8], lo: usize, hi: usize) -> (r: bool)
    requires
        lo <= hi <= s@.len(),
    ensures
        r == all_digits(s@.subrange(lo as int, hi as int)),
{
    let mut i: usize = lo;
    while i < hi
        invariant
            lo <= i <= hi <= s@.len(),
            forall|j: int| lo <= j < i ==> is_digit(#[trigger] s@[j]),
        decreases hi - i,
    {
        if s[i] < 48 || s[i] > 57 {
            assert(s@.subrange(lo as int, hi as int)[i - lo] == s@[i as int]);
            return false;
        }
        i = i + 1;
    }
    assert forall|j: int| 0 <= j < hi - lo implies is_digit(#[trigger] s@.subrange(lo as int, hi as int)[j]) by {
        assert(s@.subrange(lo as int, hi as int)[j] == s@[j + lo]);
    }
    true
}

fn pow10_u64(n: usize) -> (r: u64)
    requires
        n <= MAX_FRACTION_DIGITS,
    ensures
        r as nat == pow10(n as nat),
{
    proof {
        reveal_with_fuel(pow10, 19);
        assert(pow10(18) == 1_000_000_000_000_000_000);
    }
    let mut p: u64 = 1;
    let mut i: usize = 0;
    while i < n
        invariant
            i <= n <= 18,
            p as nat == pow10(i as nat),
            pow10(18) == 1_000_000_000_000_000_000,
        decreases n - i,
    {
        proof {
            lemma_pow10_mono((i + 1) as nat, 18);
        }
        p = p * 10;
        i = i + 1;
    }
    p
}

fn ascii_upper(c: u8) -> (r: u8)
    ensures
        r == upper(c),
{
    if 97 <= c && c <= 122 {
        c - 32
    } else {
        c
    }
}

/// Where the number in `s[lo..hi]` starts once a leading `+` is skipped.
fn skip_plus(s: &[u8], lo: usize, hi: usize) -> (r: usize)
    requires
        lo <= hi <= s@.len(),
    ensures
        lo <= r <= hi,
        s@.subrange(r as int, hi as int) == unsigned(s@.subrange(lo as int, hi as int)),
{
    if lo < hi && s[lo] == 43 {
        assert(s@.subrange(lo as int, hi as int).drop_first() =~= s@.subrange(lo + 1, hi as int));
        lo + 1
    } else {
        lo
    }
}

/// A whole number written in `s[lo..hi]`.
fn parse_whole(s: &[u8], lo: usize, hi: usize) -> (r: Result<u64, ParseError>)
    requires
        lo <= hi <= s@.len(),
    ensures
        r == in_range(whole_number(s@.subrange(lo as int, hi as int))),
{
    if lo < hi && all_digits_in(s, lo, hi) {
        match digits_to_u64(s, lo, hi) {
            Some(v) => Ok(v),
            None => Err(ParseError::TooLarge),
        }
    } else {
        Err(ParseError::Invalid)
    }
}

/// A decimal written in `s[lo..hi]`, times `unit`, rounded down.
fn parse_scaled(s: &[u8], lo: usize, hi: usize, unit: u64) -> (r: Result<u64, ParseError>)
    requires
        lo <= hi <= s@.len(),
        1 <= unit <= 1073741824,
    ensures
        r == in_range(scaled_decimal(s@.subrange(lo as int, hi as int), unit as nat)),
{
    let ghost d = s@.subrange(lo as int, hi as int);
    let k = find_dot(s, lo, hi);
    let dot = lo + k;
    let frac_lo = if dot < hi {
        dot + 1
    } else {
        hi
    };
    let ghost int_part = d.subrange(0, k as int);
    let ghost frac = if k < d.len() {
        d.subrange(k + 1, d.len() as int)
    } else {
        Seq::<u8>::empty()
    };
    assert(int_part =~= s@.subrange(lo as int, dot as int));
    assert(frac =~= s@.subrange(frac_lo as int, hi as int));
    if !all_digits_in(s, lo, dot) || !all_digits_in(s, frac_lo, hi) || (dot - lo) + (hi
        - frac_lo) == 0 || hi - frac_lo > MAX_FRACTION_DIGITS {
        return Err(ParseError::Invalid);
    }
    let flen = hi - frac_lo;
    proof {
        lemma_digits_bound(frac);
        lemma_pow10_mono(flen as nat, 18);
        reveal_with_fuel(pow10, 19);
        assert(pow10(18) == 1_000_000_000_000_000_000);
    }
    let f = match digits_to_u64(s, frac_lo, hi) {
        Some(f) => f,
        None => {
            return Err(ParseError::Invalid);
        },
    };
    let p = pow10_u64(flen);
    assert(f < 1_000_000_000_000_000_000);
    assert(f as int * unit as int <= 1_000_000_000_000_000_000 * 1073741824) by (nonlinear_arith)
        requires
            f < 1_000_000_000_000_000_000,
            1 <= unit <= 1073741824,
    ;
    let frac_part: u128 = (f as u128 * unit as u128) / p as u128;
    match digits_to_u64(s, lo, dot) {
        None => {
            let ghost iv = digits_value(int_part);
            assert(iv * unit + frac_part >= iv) by (nonlinear_arith)
                requires
                    unit >= 1,
                    frac_part >= 0,
            ;
            Err(ParseError::TooLarge)
        },
        Some(i) => {
            assert(i as int * unit as int <= 18446744073709551615 * 1073741824) by (nonlinear_arith)
                requires
                    i <= 18446744073709551615,
                    1 <= unit <= 1073741824,
            ;
            let v: u128 = i as u128 * unit as u128 + frac_part;
            if v > u64::MAX as u128 {
                Err(ParseError::TooLarge)
            } else {
                Ok(v as u64)
            }
        },
    }
}

/// Parses a size given as bytes; see [`parse_size_string`].
pub fn parse_size_bytes(s: &[u8]) -> (r: Result<u64, ParseError>)
    ensures
        r == size_result(s@),
{
    let (lo, hi) = trim_bounds(s);
    let ghost t = s@.subrange(lo as int, hi as int);
    let n = hi - lo;
    if n >= 2 {
        assert(t[n - 2] == s@[hi - 2]);
        assert(t[n - 1] == s@[hi - 1]);
        assert(t.subrange(0, n - 2) =~= s@.subrange(lo as int, hi - 2));
        let a = ascii_upper(s[hi - 2]);
        let b = ascii_upper(s[hi - 1]);
        if b == 66 {
            if a == 71 {
                return parse_scaled(s, skip_plus(s, lo, hi - 2), hi - 2, 1073741824);
            } else if a == 77 {
                return parse_scaled(s, skip_plus(s, lo, hi - 2), hi - 2, 1048576);
            } else if a == 75 {
                return parse_scaled(s, skip_plus(s, lo, hi - 2), hi - 2, 1024);
            }
        }
    }
    if n >= 1 && ascii_upper(s[hi - 1]) == 66 {
        assert(t[n - 1] == s@[hi - 1]);
        assert(t.subrange(0, n - 1) =~= s@.subrange(lo as int, hi - 1));
        parse_whole(s, skip_plus(s, lo, hi - 1), hi - 1)
    } else {
        parse_whole(s, skip_plus(s, lo, hi), hi)
    }
}

/// Parses a size such as `"4KB"`, `"1.5GB"`, `"512B"` or `"1024"` into bytes.
///
/// `KB`, `MB` and `GB` are powers of 1024 and may take a fractional number;
/// `B` and a bare number take a whole number. Case and surrounding ASCII
/// whitespace are ignored.
pub fn parse_size_string(size_str: &str) -> (r: Result<u64, ParseError>)
    ensures
        r == size_result(size_str.spec_bytes()),
{
    parse_size_bytes(size_str.as_bytes())
}

fn ascii_lower(c: u8) -> (r: u8)
    ensures
        r == lower(c),
{
    if 65 <= c && c <= 90 {
        c + 32
    } else {
        c
    }
}

fn is_unlimited_at(s: &[u8], lo: usize, hi: usize) -> (r: bool)
    requires
        lo <= hi <= s@.len(),
    ensures
        r == is_unlimited(s@.subrange(lo as int, hi as int)),
{
    if hi - lo != 9 {
        return false;
    }
    let word: Vec<u8> = vec![117u8, 110u8, 108u8, 105u8, 109u8, 105u8, 116u8, 101u8, 100u8];
    assert(word@ =~= unlimited_word());
    let ghost t = s@.subrange(lo as int, hi as int);
    let mut j: usize = 0;
    while j < 9
        invariant
            j <= 9,
            hi == lo + 9,
            hi <= s@.len(),
            word@ == unlimited_word(),
            t == s@.subrange(lo as int, hi as int),
            forall|i: int| 0 <= i < j ==> lower(#[trigger] t[i]) == unlimited_word()[i],
        decreases 9 - j,
    {
        assert(t[j as int] == s@[lo + j]);
        if ascii_lower(s[lo + j]) != word[j] {
            return false;
        }
        j = j + 1;
    }
    true
}

/// Parses a bandwidth given as bytes; see [`parse_bandwidth_string`].
pub fn parse_bandwidth_bytes(s: &[u8]) -> (r: Result<Option<u64>, ParseError>)
    ensures
        r == bandwidth_result(s@),
{
    let (lo, hi) = trim_bounds(s);
    if is_unlimited_at(s, lo, hi) {
        return Ok(None);
    }
    let ghost t = s@.subrange(lo as int, hi as int);
    let mut out: Vec<u8> = Vec::new();
    let mut i: usize = lo;
    while i < hi
        invariant
            lo <= i <= hi <= s@.len(),
            t == s@.subrange(lo as int, hi as int),
            out@ + drop_per_second(s@.subrange(i as int, hi as int)) == drop_per_second(t),
        decreases hi - i,
    {
        let ghost r = s@.subrange(i as int, hi as int);
        if i + 1 < hi && s[i] == 47 && ascii_upper(s[i + 1]) == 83 {
            assert(r.subrange(2, r.len() as int) =~= s@.subrange(i + 2, hi as int));
            i = i + 2;
        } else if hi - i > 2 && s[i] == 47 && s[i + 1] == 0xC5 && s[i + 2] == 0xBF {
            assert(r.subrange(3, r.len() as int) =~= s@.subrange(i + 3, hi as int));
            i = i + 3;
        } else {
            assert(r.drop_first() =~= s@.subrange(i + 1, hi as int));
            let ghost before = out@;
            out.push(s[i]);
            assert(before + drop_per_second(r) =~= out@ + drop_per_second(
                s@.subrange(i + 1, hi as int),
            ));
            i = i + 1;
        }
    }
    assert(out@ + drop_per_second(s@.subrange(i as int, hi as int)) =~= out@);
    match parse_size_bytes(out.as_slice()) {
        Ok(v) => Ok(Some(v)),
        Err(e) => Err(e),
    }
}

/// Parses a bandwidth such as `"100MB/s"` into bytes per second; `"unlimited"`
/// (any case) gives `None`. Every `/s` is dropped before the size is read.
pub fn parse_bandwidth_string(bw_str: &str) -> (r: Result<Option<u64>, ParseError>)
    ensures
        r == bandwidth_result(bw_str.spec_bytes()),
{
    parse_bandwidth_bytes(bw_str.as_bytes())
}

} // verus!
