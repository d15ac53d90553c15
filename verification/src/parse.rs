//! Parsing of the common formats used on command lines: booleans, and
//! integers in decimal, hex (`0x`), octal (`0o`) or binary (`0b`).
//!
//! Everything only works with UTF-8.
use vstd::prelude::*;
use crate::text::{decimal, digit_char, is_ws, trim, trim_bounds, str_chars};

verus! {

/// Why a string could not be parsed.
#[derive(Debug, Clone, Copy, PartialEq, Eq)]
pub enum ParseError {
    /// Not one of the accepted spellings of a bool.
    InvalidBool,
    /// Not a number in the expected radix, or too large for the integer
    /// type the number is read as.
    InvalidNumber,
    /// An unsigned integer with a leading `-`.
    NegativeUnsigned,
    /// A number that was read but does not fit the requested type.
    OutOfRange,
}

/// ASCII lower-casing of one character.
pub open spec fn ascii_lower(c: char) -> char {
    if 'A' <= c && c <= 'Z' {
        ((c as u32) + 32) as char
    } else {
        c
    }
}

/// Case-insensitive (ASCII) equality with a lower-case word.
pub open spec fn eq_ignore_case(s: Seq<char>, word: Seq<char>) -> bool {
    s.len() == word.len() && forall|k: int| 0 <= k < s.len() ==> ascii_lower(#[trigger] s[k])
        == word[k]
}

/// Bools: after trimming whitespace, empty, `0` or `false` is `false`, and
/// `1` or `true` is `true`, case-insensitive; anything else is an error.
pub open spec fn bool_spec(x: Seq<char>) -> Result<bool, ParseError> {
    let t = trim(x);
    if t.len() == 0 || t == seq!['0'] || eq_ignore_case(t, seq!['f', 'a', 'l', 's', 'e']) {
        Ok(false)
    } else if t == seq!['1'] || eq_ignore_case(t, seq!['t', 'r', 'u', 'e']) {
        Ok(true)
    } else {
        Err(ParseError::InvalidBool)
    }
}

fn matches_word(t: &Vec<char>, a: usize, b: usize, word: &[char]) -> (r: bool)
    requires
        a <= b <= t.len(),
        forall|k: int| 0 <= k < word@.len() ==> 'a' <= #[trigger] word@[k] <= 'z',
    ensures
        r == eq_ignore_case(t@.subrange(a as int, b as int), word@),
{
    if b - a != word.len() {
        return false;
    }
    let mut k: usize = 0;
    while k < word.len()
        invariant
            a <= b <= t.len(),
            b - a == word.len(),
            k <= word.len(),
            forall|j: int| 0 <= j < k ==> ascii_lower(t@[a + j]) == word@[j],
        decreases word.len() - k,
    {
        let c = t[a + k];
        let lc = if 'A' <= c && c <= 'Z' {
            ((c as u32) + 32) as u8 as char
        } else {
            c
        };
        assert(lc == ascii_lower(c)) by {
            if 'A' <= c && c <= 'Z' {
                assert((c as u32) + 32 < 256);
            }
        }
        if lc != word[k] {
            assert(ascii_lower(t@.subrange(a as int, b as int)[k as int]) != word@[k as int]);
            return false;
        }
        k = k + 1;
    }
    assert forall|j: int| 0 <= j < t@.subrange(a as int, b as int).len() implies ascii_lower(
        #[trigger] t@.subrange(a as int, b as int)[j],
    ) == word@[j] by {
        assert(t@.subrange(a as int, b as int)[j] == t@[a + j]);
    }
    true
}

/// Parses a bool: empty, `0`, `1`, `false` or `true` (case-insensitive),
/// after trimming whitespace.
pub fn parse_bool(x: &str) -> (r: Result<bool, ParseError>)
    ensures
        r == bool_spec(x@),
{
    let t = str_chars(x);
    let (a, b) = trim_bounds(&t);
    let ghost tt = t@.subrange(a as int, b as int);
    if b == a {
        return Ok(false);
    }
    if b - a == 1 && t[a] == '0' {
        assert(tt =~= seq!['0']);
        return Ok(false);
    }
    if b - a == 1 && t[a] == '1' {
        assert(tt =~= seq!['1']);
        assert(tt != seq!['0']) by {
            assert(tt[0] != seq!['0'][0]);
        }
        assert(!eq_ignore_case(tt, seq!['f', 'a', 'l', 's', 'e']));
        return Ok(true);
    }
    let fw = ['f', 'a', 'l', 's', 'e'];
    let tw = ['t', 'r', 'u', 'e'];
    assert(fw@ =~= seq!['f', 'a', 'l', 's', 'e']);
    assert(tw@ =~= seq!['t', 'r', 'u', 'e']);
    if b - a == 1 {
        assert(tt != seq!['0'] && tt != seq!['1']) by {
            if tt == seq!['0'] {
                assert(tt[0] == t@[a as int]);
            }
            if tt == seq!['1'] {
                assert(tt[0] == t@[a as int]);
            }
        }
    } else {
        assert(tt.len() != 1);
    }
    if matches_word(&t, a, b, &fw) {
        return Ok(false);
    }
    if matches_word(&t, a, b, &tw) {
        return Ok(true);
    }
    Err(ParseError::InvalidBool)
}

} // verus!

verus! {

/// Value of a digit character (`0-9`, then `a-z` or `A-Z` from 10), or 99
/// for any other character.
pub open spec fn digit_of(c: char) -> int {
    if '0' <= c && c <= '9' {
        (c as int) - ('0' as int)
    } else if 'a' <= c && c <= 'z' {
        (c as int) - ('a' as int) + 10
    } else if 'A' <= c && c <= 'Z' {
        (c as int) - ('A' as int) + 10
    } else {
        99
    }
}

/// Every character is a digit below `radix`.
pub open spec fn digits_ok(s: Seq<char>, radix: int) -> bool {
    forall|k: int| 0 <= k < s.len() ==> digit_of(#[trigger] s[k]) < radix
}

/// The value of a digit string in `radix`, most significant digit first.
pub open spec fn digits_val(s: Seq<char>, radix: int) -> int
    decreases s.len(),
{
    if s.len() == 0 {
        0
    } else {
        digits_val(s.drop_last(), radix) * radix + digit_of(s.last())
    }
}

/// What std's `from_str_radix` gives for an integer type whose values range
/// over `[lo, hi]`: an optional `+` (or `-`, for signed types) followed by at
/// least one digit; `None` for anything else or a value out of range.
pub open spec fn std_radix(s: Seq<char>, radix: int, lo: int, hi: int) -> Option<int> {
    let neg = lo < 0 && s.len() > 0 && s[0] == '-';
    let body = if s.len() > 0 && (s[0] == '+' || neg) {
        s.drop_first()
    } else {
        s
    };
    if body.len() == 0 || !digits_ok(body, radix) {
        None
    } else {
        let v = if neg {
            -digits_val(body, radix)
        } else {
            digits_val(body, radix)
        };
        if lo <= v && v <= hi {
            Some(v)
        } else {
            None
        }
    }
}

/// Reading an integer of type range `[lo, hi]`, read through an integer type
/// of range `[dlo, dhi]`: after trimming whitespace, a `0x`, `0o` or `0b`
/// prefix (either case) selects hex, octal or binary, and anything else is
/// decimal; a sign is only read in decimal, and an unsigned type refuses a
/// leading `-`. A number that the reading type cannot hold is
/// `InvalidNumber`; one that it holds but the target cannot is `OutOfRange`.
pub open spec fn int_spec(x: Seq<char>, lo: int, hi: int, dlo: int, dhi: int) -> Result<
    int,
    ParseError,
> {
    let t = trim(x);
    let signed = lo < 0;
    if !signed && t.len() > 0 && t[0] == '-' {
        Err(ParseError::NegativeUnsigned)
    } else {
        let read = if t.len() > 0 && (t[0] == '+' || (signed && t[0] == '-')) {
            std_radix(t, 10, dlo, dhi)
        } else if t.len() >= 2 && t[0] == '0' && (t[1] == 'x' || t[1] == 'X') {
            std_radix(t.skip(2), 16, dlo, dhi)
        } else if t.len() >= 2 && t[0] == '0' && (t[1] == 'o' || t[1] == 'O') {
            std_radix(t.skip(2), 8, dlo, dhi)
        } else if t.len() >= 2 && t[0] == '0' && (t[1] == 'b' || t[1] == 'B') {
            std_radix(t.skip(2), 2, dlo, dhi)
        } else {
            std_radix(t, 10, dlo, dhi)
        };
        match read {
            None => Err(ParseError::InvalidNumber),
            Some(v) => if lo <= v && v <= hi {
                Ok(v)
            } else {
                Err(ParseError::OutOfRange)
            },
        }
    }
}

fn digit_exec(c: char) -> (r: u32)
    ensures
        r == digit_of(c),
{
    if '0' <= c && c <= '9' {
        (c as u32) - ('0' as u32)
    } else if 'a' <= c && c <= 'z' {
        (c as u32) - ('a' as u32) + 10
    } else if 'A' <= c && c <= 'Z' {
        (c as u32) - ('A' as u32) + 10
    } else {
        99
    }
}

proof fn lemma_digits_val_take(s: Seq<char>, radix: int, k: int)
    requires
        0 <= k < s.len(),
    ensures
        digits_val(s.take(k + 1), radix) == digits_val(s.take(k), radix) * radix + digit_of(s[k]),
{
    assert(s.take(k + 1).drop_last() =~= s.take(k));
}

proof fn lemma_digits_val_mono(s: Seq<char>, radix: int, k: int)
    requires
        0 <= k <= s.len(),
        radix >= 1,
        digits_ok(s, radix),
    ensures
        digits_val(s, radix) >= digits_val(s.take(k), radix) >= 0,
    decreases s.len() - k,
{
    if k == s.len() {
        assert(s.take(k) =~= s);
        lemma_digits_val_nonneg(s, radix);
    } else {
        lemma_digits_val_take(s, radix, k);
        lemma_digits_val_nonneg(s.take(k), radix);
        let a = digits_val(s.take(k), radix);
        assert(digit_of(s[k]) >= 0);
        assert(a * radix >= a) by (nonlinear_arith)
            requires
                a >= 0,
                radix >= 1,
        ;
        lemma_digits_val_mono(s, radix, k + 1);
    }
}

proof fn lemma_digits_val_nonneg(s: Seq<char>, radix: int)
    requires
        radix >= 1,
        digits_ok(s, radix),
    ensures
        digits_val(s, radix) >= 0,
    decreases s.len(),
{
    if s.len() > 0 {
        assert(digits_ok(s.drop_last(), radix)) by {
            assert forall|k: int| 0 <= k < s.drop_last().len() implies digit_of(
                #[trigger] s.drop_last()[k],
            ) < radix by {
                assert(s.drop_last()[k] == s[k]);
            }
        }
        lemma_digits_val_nonneg(s.drop_last(), radix);
        let a = digits_val(s.drop_last(), radix);
        assert(a * radix >= 0) by (nonlinear_arith)
            requires
                a >= 0,
                radix >= 1,
        ;
        assert(digit_of(s.last()) >= 0);
    }
}

/// Reads `t[a..b]` as std's `from_str_radix` does for a type of range
/// `[-lo_mag, hi]`; gives the sign and magnitude.
fn std_radix_exec(t: &Vec<char>, a: usize, b: usize, radix: u32, lo_mag: u128, hi: u128) -> (r:
    Option<(bool, u128)>)
    requires
        a <= b <= t.len(),
        2 <= radix <= 16,
    ensures
        match r {
            Some((neg, m)) => std_radix(t@.subrange(a as int, b as int), radix as int, -lo_mag, hi as int)
                == Some(if neg { -(m as int) } else { m as int }),
            None => std_radix(t@.subrange(a as int, b as int), radix as int, -lo_mag, hi as int) is None,
        },
{
    let ghost s = t@.subrange(a as int, b as int);
    let neg = lo_mag > 0 && a < b && t[a] == '-';
    assert(a < b ==> s[0] == t@[a as int]);
    let start = if a < b && (t[a] == '+' || neg) {
        a + 1
    } else {
        a
    };
    let ghost body = t@.subrange(start as int, b as int);
    assert(body =~= if s.len() > 0 && (s[0] == '+' || neg) {
        s.drop_first()
    } else {
        s
    });
    if start == b {
        return None;
    }
    let limit: u128 = if neg {
        lo_mag
    } else {
        hi
    };
    let mut acc: u128 = 0;
    let mut k = start;
    while k < b
        invariant
            a <= start <= k <= b <= t.len(),
            start < b,
            2 <= radix <= 16,
            s == t@.subrange(a as int, b as int),
            body == t@.subrange(start as int, b as int),
            neg == (lo_mag > 0 && s.len() > 0 && s[0] == '-'),
            body == if s.len() > 0 && (s[0] == '+' || neg) {
                s.drop_first()
            } else {
                s
            },
            limit == if neg {
                lo_mag
            } else {
                hi
            },
            digits_ok(body.take(k - start), radix as int),
            acc as int == digits_val(body.take(k - start), radix as int),
            acc <= limit,
        decreases b - k,
    {
        let d = digit_exec(t[k]);
        assert(body[k - start] == t@[k as int]);
        if d >= radix {
            assert(!digits_ok(body, radix as int));
            return None;
        }
        proof {
            lemma_digits_val_take(body, radix as int, k - start);
            assert(body.take(k - start + 1) =~= body.take(k - start).push(body[k - start]));
        }
        let next = match acc.checked_mul(radix as u128) {
            Some(m) => m.checked_add(d as u128),
            None => None,
        };
        match next {
            Some(v) => {
                if v > limit {
                    proof {
                        if digits_ok(body, radix as int) {
                            lemma_digits_val_mono(body, radix as int, k - start + 1);
                        }
                    }
                    return None;
                }
                acc = v;
            },
            None => {
                proof {
                    if digits_ok(body, radix as int) {
                        lemma_digits_val_mono(body, radix as int, k - start + 1);
                    }
                }
                return None;
            },
        }
        k = k + 1;
    }
    assert(body.take(b - start) =~= body);
    Some((neg, acc))
}

} // verus!

verus! {

/// A sign and magnitude as an integer.
pub open spec fn signed_int(neg: bool, m: u128) -> int {
    if neg {
        -(m as int)
    } else {
        m as int
    }
}

/// Reads an integer as `int_spec` says, for a target of range
/// `[-lo_mag, hi]` read through a type of range `[-dlo_mag, dhi]`.
fn read_int(x: &str, lo_mag: u128, hi: u128, dlo_mag: u128, dhi: u128) -> (r: Result<
    (bool, u128),
    ParseError,
>)
    requires
        lo_mag <= dlo_mag,
        hi <= dhi,
        lo_mag == 0 <==> dlo_mag == 0,
    ensures
        match r {
            Ok((neg, m)) => int_spec(x@, -lo_mag, hi as int, -dlo_mag, dhi as int) == Ok::<
                int,
                ParseError,
            >(signed_int(neg, m)),
            Err(e) => int_spec(x@, -lo_mag, hi as int, -dlo_mag, dhi as int) == Err::<
                int,
                ParseError,
            >(e),
        },
{
    let t = str_chars(x);
    let (a, b) = trim_bounds(&t);
    let ghost tt = t@.subrange(a as int, b as int);
    assert(tt == trim(x@));
    assert(a < b ==> tt[0] == t@[a as int]);
    assert(a + 1 < b ==> tt[1] == t@[a + 1]);
    if lo_mag == 0 && a < b && t[a] == '-' {
        return Err(ParseError::NegativeUnsigned);
    }
    let read = if a < b && (t[a] == '+' || (lo_mag > 0 && t[a] == '-')) {
        std_radix_exec(&t, a, b, 10, dlo_mag, dhi)
    } else if b - a >= 2 && t[a] == '0' && (t[a + 1] == 'x' || t[a + 1] == 'X') {
        assert(tt.skip(2) =~= t@.subrange(a + 2, b as int));
        std_radix_exec(&t, a + 2, b, 16, dlo_mag, dhi)
    } else if b - a >= 2 && t[a] == '0' && (t[a + 1] == 'o' || t[a + 1] == 'O') {
        assert(tt.skip(2) =~= t@.subrange(a + 2, b as int));
        std_radix_exec(&t, a + 2, b, 8, dlo_mag, dhi)
    } else if b - a >= 2 && t[a] == '0' && (t[a + 1] == 'b' || t[a + 1] == 'B') {
        assert(tt.skip(2) =~= t@.subrange(a + 2, b as int));
        std_radix_exec(&t, a + 2, b, 2, dlo_mag, dhi)
    } else {
        std_radix_exec(&t, a, b, 10, dlo_mag, dhi)
    };
    match read {
        None => Err(ParseError::InvalidNumber),
        Some((neg, m)) => {
            if (neg && m <= lo_mag) || (!neg && m <= hi) {
                Ok((neg, m))
            } else {
                Err(ParseError::OutOfRange)
            }
        },
    }
}

} // verus!

verus! {

/// A parse result with its value taken as an integer.
pub open spec fn widen<T>(r: Result<T, ParseError>, f: spec_fn(T) -> int) -> Result<int, ParseError> {
    match r {
        Ok(v) => Ok(f(v)),
        Err(e) => Err(e),
    }
}

fn to_i128(neg: bool, m: u128) -> (r: i128)
    requires
        neg ==> m <= 0x8000_0000_0000_0000_0000_0000_0000_0000,
        !neg ==> m < 0x8000_0000_0000_0000_0000_0000_0000_0000,
    ensures
        r == signed_int(neg, m),
{
    if neg {
        if m == 0x8000_0000_0000_0000_0000_0000_0000_0000 {
            i128::MIN
        } else {
            0 - (m as i128)
        }
    } else {
        m as i128
    }
}

/// Parses a `u8`, read as a `u32` first (see `int_spec`).
pub fn parse_u8(x: &str) -> (r: Result<u8, ParseError>)
    ensures
        widen(r, |v: u8| v as int) == int_spec(x@, 0, u8::MAX as int, 0, u32::MAX as int),
{
    match read_int(x, 0, u8::MAX as u128, 0, u32::MAX as u128) {
        Ok((_, m)) => Ok(m as u8),
        Err(e) => Err(e),
    }
}

/// Parses a `u16`, read as a `u32` first (see `int_spec`).
pub fn parse_u16(x: &str) -> (r: Result<u16, ParseError>)
    ensures
        widen(r, |v: u16| v as int) == int_spec(x@, 0, u16::MAX as int, 0, u32::MAX as int),
{
    match read_int(x, 0, u16::MAX as u128, 0, u32::MAX as u128) {
        Ok((_, m)) => Ok(m as u16),
        Err(e) => Err(e),
    }
}

/// Parses a `u32` (see `int_spec`).
pub fn parse_u32(x: &str) -> (r: Result<u32, ParseError>)
    ensures
        widen(r, |v: u32| v as int) == int_spec(x@, 0, u32::MAX as int, 0, u32::MAX as int),
{
    match read_int(x, 0, u32::MAX as u128, 0, u32::MAX as u128) {
        Ok((_, m)) => Ok(m as u32),
        Err(e) => Err(e),
    }
}

/// Parses a `u64` (see `int_spec`).
pub fn parse_u64(x: &str) -> (r: Result<u64, ParseError>)
    ensures
        widen(r, |v: u64| v as int) == int_spec(x@, 0, u64::MAX as int, 0, u64::MAX as int),
{
    match read_int(x, 0, u64::MAX as u128, 0, u64::MAX as u128) {
        Ok((_, m)) => Ok(m as u64),
        Err(e) => Err(e),
    }
}

/// Parses a `u128` (see `int_spec`).
pub fn parse_u128(x: &str) -> (r: Result<u128, ParseError>)
    ensures
        widen(r, |v: u128| v as int) == int_spec(x@, 0, u128::MAX as int, 0, u128::MAX as int),
{
    match read_int(x, 0, u128::MAX, 0, u128::MAX) {
        Ok((_, m)) => Ok(m),
        Err(e) => Err(e),
    }
}

/// Parses a `usize` (see `int_spec`).
pub fn parse_usize(x: &str) -> (r: Result<usize, ParseError>)
    ensures
        widen(r, |v: usize| v as int) == int_spec(
            x@,
            0,
            usize::MAX as int,
            0,
            usize::MAX as int,
        ),
{
    match read_int(x, 0, usize::MAX as u128, 0, usize::MAX as u128) {
        Ok((_, m)) => Ok(m as usize),
        Err(e) => Err(e),
    }
}

/// Parses an `i8`, read as an `i32` first (see `int_spec`).
pub fn parse_i8(x: &str) -> (r: Result<i8, ParseError>)
    ensures
        widen(r, |v: i8| v as int) == int_spec(
            x@,
            i8::MIN as int,
            i8::MAX as int,
            i32::MIN as int,
            i32::MAX as int,
        ),
{
    match read_int(x, 128, i8::MAX as u128, 0x8000_0000, i32::MAX as u128) {
        Ok((neg, m)) => Ok(to_i128(neg, m) as i8),
        Err(e) => Err(e),
    }
}

/// Parses an `i16`, read as an `i32` first (see `int_spec`).
pub fn parse_i16(x: &str) -> (r: Result<i16, ParseError>)
    ensures
        widen(r, |v: i16| v as int) == int_spec(
            x@,
            i16::MIN as int,
            i16::MAX as int,
            i32::MIN as int,
            i32::MAX as int,
        ),
{
    match read_int(x, 0x8000, i16::MAX as u128, 0x8000_0000, i32::MAX as u128) {
        Ok((neg, m)) => Ok(to_i128(neg, m) as i16),
        Err(e) => Err(e),
    }
}

/// Parses an `i32` (see `int_spec`).
pub fn parse_i32(x: &str) -> (r: Result<i32, ParseError>)
    ensures
        widen(r, |v: i32| v as int) == int_spec(
            x@,
            i32::MIN as int,
            i32::MAX as int,
            i32::MIN as int,
            i32::MAX as int,
        ),
{
    match read_int(x, 0x8000_0000, i32::MAX as u128, 0x8000_0000, i32::MAX as u128) {
        Ok((neg, m)) => Ok(to_i128(neg, m) as i32),
        Err(e) => Err(e),
    }
}

/// Parses an `i64` (see `int_spec`).
pub fn parse_i64(x: &str) -> (r: Result<i64, ParseError>)
    ensures
        widen(r, |v: i64| v as int) == int_spec(
            x@,
            i64::MIN as int,
            i64::MAX as int,
            i64::MIN as int,
            i64::MAX as int,
        ),
{
    match read_int(
        x,
        0x8000_0000_0000_0000,
        i64::MAX as u128,
        0x8000_0000_0000_0000,
        i64::MAX as u128,
    ) {
        Ok((neg, m)) => Ok(to_i128(neg, m) as i64),
        Err(e) => Err(e),
    }
}

/// Parses an `i128` (see `int_spec`).
pub fn parse_i128(x: &str) -> (r: Result<i128, ParseError>)
    ensures
        widen(r, |v: i128| v as int) == int_spec(
            x@,
            i128::MIN as int,
            i128::MAX as int,
            i128::MIN as int,
            i128::MAX as int,
        ),
{
    let lim: u128 = 0x8000_0000_0000_0000_0000_0000_0000_0000;
    match read_int(x, lim, i128::MAX as u128, lim, i128::MAX as u128) {
        Ok((neg, m)) => Ok(to_i128(neg, m)),
        Err(e) => Err(e),
    }
}

/// Parses an `isize` (see `int_spec`).
pub fn parse_isize(x: &str) -> (r: Result<isize, ParseError>)
    ensures
        widen(r, |v: isize| v as int) == int_spec(
            x@,
            isize::MIN as int,
            isize::MAX as int,
            isize::MIN as int,
            isize::MAX as int,
        ),
{
    let lim: u128 = (isize::MAX as u128) + 1;
    match read_int(x, lim, isize::MAX as u128, lim, isize::MAX as u128) {
        Ok((neg, m)) => Ok(to_i128(neg, m) as isize),
        Err(e) => Err(e),
    }
}

} // verus!

verus! {

/// A type that can be read from text, as on a command line.
///
/// `parses_to(x, r)` says which results reading `x` may give; the
/// library's own impls pin it down to exactly one.
pub trait Parse: Sized {
    type Output;

    spec fn parses_to(x: Seq<char>, r: Result<Self::Output, ParseError>) -> bool;

    /// Whether two results count as the same reading.
    spec fn same_result(a: Result<Self::Output, ParseError>, b: Result<Self::Output, ParseError>) -> bool;

    /// Reading a text has one result: any two results it may give are the
    /// same.
    proof fn lemma_parse_unique(
        x: Seq<char>,
        a: Result<Self::Output, ParseError>,
        b: Result<Self::Output, ParseError>,
    )
        requires
            Self::parses_to(x, a),
            Self::parses_to(x, b),
        ensures
            Self::same_result(a, b),
    ;

    fn parse_borrowed(x: &str) -> (r: Result<Self::Output, ParseError>)
        ensures
            Self::parses_to(x@, r),
    ;

    fn parse_owned(x: String) -> (r: Result<Self::Output, ParseError>)
        ensures
            Self::parses_to(x@, r),
    {
        Self::parse_borrowed(x.as_str())
    }
}

impl Parse for bool {
    type Output = bool;

    open spec fn parses_to(x: Seq<char>, r: Result<bool, ParseError>) -> bool {
        r == bool_spec(x)
    }

    open spec fn same_result(a: Result<bool, ParseError>, b: Result<bool, ParseError>) -> bool {
        a == b
    }

    proof fn lemma_parse_unique(x: Seq<char>, a: Result<bool, ParseError>, b: Result<bool, ParseError>) {
    }

    fn parse_borrowed(x: &str) -> (r: Result<bool, ParseError>) {
        parse_bool(x)
    }
}

impl Parse for String {
    type Output = String;

    open spec fn parses_to(x: Seq<char>, r: Result<String, ParseError>) -> bool {
        r matches Ok(s) && s@ == x
    }

    open spec fn same_result(a: Result<String, ParseError>, b: Result<String, ParseError>) -> bool {
        match (a, b) {
            (Ok(u), Ok(v)) => u@ == v@,
            (Err(e), Err(f)) => e == f,
            _ => false,
        }
    }

    proof fn lemma_parse_unique(x: Seq<char>, a: Result<String, ParseError>, b: Result<String, ParseError>) {
    }

    fn parse_borrowed(x: &str) -> (r: Result<String, ParseError>) {
        Ok(x.to_string())
    }

    fn parse_owned(x: String) -> (r: Result<String, ParseError>) {
        Ok(x)
    }
}

impl Parse for u8 {
    type Output = u8;

    open spec fn parses_to(x: Seq<char>, r: Result<u8, ParseError>) -> bool {
        widen(r, |v: u8| v as int) == int_spec(x, 0, u8::MAX as int, 0, u32::MAX as int)
    }

    open spec fn same_result(a: Result<u8, ParseError>, b: Result<u8, ParseError>) -> bool {
        a == b
    }

    proof fn lemma_parse_unique(x: Seq<char>, a: Result<u8, ParseError>, b: Result<u8, ParseError>) {
    }

    fn parse_borrowed(x: &str) -> (r: Result<u8, ParseError>) {
        parse_u8(x)
    }
}

impl Parse for u16 {
    type Output = u16;

    open spec fn parses_to(x: Seq<char>, r: Result<u16, ParseError>) -> bool {
        widen(r, |v: u16| v as int) == int_spec(x, 0, u16::MAX as int, 0, u32::MAX as int)
    }

    open spec fn same_result(a: Result<u16, ParseError>, b: Result<u16, ParseError>) -> bool {
        a == b
    }

    proof fn lemma_parse_unique(x: Seq<char>, a: Result<u16, ParseError>, b: Result<u16, ParseError>) {
    }

    fn parse_borrowed(x: &str) -> (r: Result<u16, ParseError>) {
        parse_u16(x)
    }
}

impl Parse for u32 {
    type Output = u32;

    open spec fn parses_to(x: Seq<char>, r: Result<u32, ParseError>) -> bool {
        widen(r, |v: u32| v as int) == int_spec(x, 0, u32::MAX as int, 0, u32::MAX as int)
    }

    open spec fn same_result(a: Result<u32, ParseError>, b: Result<u32, ParseError>) -> bool {
        a == b
    }

    proof fn lemma_parse_unique(x: Seq<char>, a: Result<u32, ParseError>, b: Result<u32, ParseError>) {
    }

    fn parse_borrowed(x: &str) -> (r: Result<u32, ParseError>) {
        parse_u32(x)
    }
}

impl Parse for u64 {
    type Output = u64;

    open spec fn parses_to(x: Seq<char>, r: Result<u64, ParseError>) -> bool {
        widen(r, |v: u64| v as int) == int_spec(x, 0, u64::MAX as int, 0, u64::MAX as int)
    }

    open spec fn same_result(a: Result<u64, ParseError>, b: Result<u64, ParseError>) -> bool {
        a == b
    }

    proof fn lemma_parse_unique(x: Seq<char>, a: Result<u64, ParseError>, b: Result<u64, ParseError>) {
    }

    fn parse_borrowed(x: &str) -> (r: Result<u64, ParseError>) {
        parse_u64(x)
    }
}

impl Parse for u128 {
    type Output = u128;

    open spec fn parses_to(x: Seq<char>, r: Result<u128, ParseError>) -> bool {
        widen(r, |v: u128| v as int) == int_spec(x, 0, u128::MAX as int, 0, u128::MAX as int)
    }

    open spec fn same_result(a: Result<u128, ParseError>, b: Result<u128, ParseError>) -> bool {
        a == b
    }

    proof fn lemma_parse_unique(x: Seq<char>, a: Result<u128, ParseError>, b: Result<u128, ParseError>) {
    }

    fn parse_borrowed(x: &str) -> (r: Result<u128, ParseError>) {
        parse_u128(x)
    }
}

impl Parse for usize {
    type Output = usize;

    open spec fn parses_to(x: Seq<char>, r: Result<usize, ParseError>) -> bool {
        widen(r, |v: usize| v as int) == int_spec(x, 0, usize::MAX as int, 0, usize::MAX as int)
    }

    open spec fn same_result(a: Result<usize, ParseError>, b: Result<usize, ParseError>) -> bool {
        a == b
    }

    proof fn lemma_parse_unique(x: Seq<char>, a: Result<usize, ParseError>, b: Result<usize, ParseError>) {
    }

    fn parse_borrowed(x: &str) -> (r: Result<usize, ParseError>) {
        parse_usize(x)
    }
}

impl Parse for i8 {
    type Output = i8;

    open spec fn parses_to(x: Seq<char>, r: Result<i8, ParseError>) -> bool {
        widen(r, |v: i8| v as int) == int_spec(x, i8::MIN as int, i8::MAX as int, i32::MIN as int, i32::MAX as int)
    }

    open spec fn same_result(a: Result<i8, ParseError>, b: Result<i8, ParseError>) -> bool {
        a == b
    }

    proof fn lemma_parse_unique(x: Seq<char>, a: Result<i8, ParseError>, b: Result<i8, ParseError>) {
    }

    fn parse_borrowed(x: &str) -> (r: Result<i8, ParseError>) {
        parse_i8(x)
    }
}

impl Parse for i16 {
    type Output = i16;

    open spec fn parses_to(x: Seq<char>, r: Result<i16, ParseError>) -> bool {
        widen(r, |v: i16| v as int) == int_spec(x, i16::MIN as int, i16::MAX as int, i32::MIN as int, i32::MAX as int)
    }

    open spec fn same_result(a: Result<i16, ParseError>, b: Result<i16, ParseError>) -> bool {
        a == b
    }

    proof fn lemma_parse_unique(x: Seq<char>, a: Result<i16, ParseError>, b: Result<i16, ParseError>) {
    }

    fn parse_borrowed(x: &str) -> (r: Result<i16, ParseError>) {
        parse_i16(x)
    }
}

impl Parse for i32 {
    type Output = i32;

    open spec fn parses_to(x: Seq<char>, r: Result<i32, ParseError>) -> bool {
        widen(r, |v: i32| v as int) == int_spec(x, i32::MIN as int, i32::MAX as int, i32::MIN as int, i32::MAX as int)
    }

    open spec fn same_result(a: Result<i32, ParseError>, b: Result<i32, ParseError>) -> bool {
        a == b
    }

    proof fn lemma_parse_unique(x: Seq<char>, a: Result<i32, ParseError>, b: Result<i32, ParseError>) {
    }

    fn parse_borrowed(x: &str) -> (r: Result<i32, ParseError>) {
        parse_i32(x)
    }
}

impl Parse for i64 {
    type Output = i64;

    open spec fn parses_to(x: Seq<char>, r: Result<i64, ParseError>) -> bool {
        widen(r, |v: i64| v as int) == int_spec(x, i64::MIN as int, i64::MAX as int, i64::MIN as int, i64::MAX as int)
    }

    open spec fn same_result(a: Result<i64, ParseError>, b: Result<i64, ParseError>) -> bool {
        a == b
    }

    proof fn lemma_parse_unique(x: Seq<char>, a: Result<i64, ParseError>, b: Result<i64, ParseError>) {
    }

    fn parse_borrowed(x: &str) -> (r: Result<i64, ParseError>) {
        parse_i64(x)
    }
}

impl Parse for i128 {
    type Output = i128;

    open spec fn parses_to(x: Seq<char>, r: Result<i128, ParseError>) -> bool {
        widen(r, |v: i128| v as int) == int_spec(x, i128::MIN as int, i128::MAX as int, i128::MIN as int, i128::MAX as int)
    }

    open spec fn same_result(a: Result<i128, ParseError>, b: Result<i128, ParseError>) -> bool {
        a == b
    }

    proof fn lemma_parse_unique(x: Seq<char>, a: Result<i128, ParseError>, b: Result<i128, ParseError>) {
    }

    fn parse_borrowed(x: &str) -> (r: Result<i128, ParseError>) {
        parse_i128(x)
    }
}

impl Parse for isize {
    type Output = isize;

    open spec fn parses_to(x: Seq<char>, r: Result<isize, ParseError>) -> bool {
        widen(r, |v: isize| v as int) == int_spec(x, isize::MIN as int, isize::MAX as int, isize::MIN as int, isize::MAX as int)
    }

    open spec fn same_result(a: Result<isize, ParseError>, b: Result<isize, ParseError>) -> bool {
        a == b
    }

    proof fn lemma_parse_unique(x: Seq<char>, a: Result<isize, ParseError>, b: Result<isize, ParseError>) {
    }

    fn parse_borrowed(x: &str) -> (r: Result<isize, ParseError>) {
        parse_isize(x)
    }
}

/// Reads a value from a `&str`.
pub fn parse<T: Parse>(x: &str) -> (r: Result<T::Output, ParseError>)
    ensures
        T::parses_to(x@, r),
{
    T::parse_borrowed(x)
}

/// Reading a `String` and reading the same text borrowed agree, for every
/// `Parse` type: both results are the same reading.
pub proof fn law_parse_owned_agrees<T: Parse>(
    x: Seq<char>,
    owned: Result<T::Output, ParseError>,
    borrowed: Result<T::Output, ParseError>,
)
    requires
        T::parses_to(x, owned),
        T::parses_to(x, borrowed),
    ensures
        T::same_result(owned, borrowed),
{
    T::lemma_parse_unique(x, owned, borrowed);
}

/// Reads a value from a `String`.
pub fn parse_owned<T: Parse>(x: String) -> (r: Result<T::Output, ParseError>)
    ensures
        T::parses_to(x@, r),
{
    T::parse_owned(x)
}

} // verus!

verus! {

/// The `.parse_to()` form of [`parse`], for chained calls.
pub trait ParseTo: Sized {
    spec fn text(&self) -> Seq<char>;

    fn parse_to<T: Parse>(self) -> (r: Result<T::Output, ParseError>)
        ensures
            T::parses_to(self.text(), r),
    ;
}

impl<'a> ParseTo for &'a str {
    open spec fn text(&self) -> Seq<char> {
        (*self)@
    }

    fn parse_to<T: Parse>(self) -> (r: Result<T::Output, ParseError>) {
        T::parse_borrowed(self)
    }
}

impl ParseTo for String {
    open spec fn text(&self) -> Seq<char> {
        self@
    }

    fn parse_to<T: Parse>(self) -> (r: Result<T::Output, ParseError>) {
        T::parse_owned(self)
    }
}

} // verus!

verus! {

proof fn lemma_decimal_digits(n: nat)
    ensures
        decimal(n).len() >= 1,
        digits_ok(decimal(n), 10),
        digits_val(decimal(n), 10) == n,
        forall|i: int| 0 <= i < decimal(n).len() ==> '0' <= #[trigger] decimal(n)[i] <= '9',
        n >= 10 ==> decimal(n)[0] != '0',
    decreases n,
{
    if n < 10 {
        let c = digit_char(n);
        assert(decimal(n) == seq![c]);
        assert(seq![c].drop_last() =~= Seq::<char>::empty());
        assert(digits_val(Seq::<char>::empty(), 10) == 0);
        assert(seq![c].last() == c);
        assert(digit_of(c) == n);
        assert(seq![c][0] == c);
    } else {
        lemma_decimal_digits(n / 10);
        let d = decimal(n / 10);
        let c = digit_char(n % 10);
        assert(digit_of(c) == n % 10);
        assert(decimal(n) == d.push(c));
        assert(d.push(c).drop_last() =~= d);
        assert(d.push(c).last() == c);
        assert(digits_val(decimal(n), 10) == (n / 10) * 10 + n % 10);
        assert forall|i: int| 0 <= i < decimal(n).len() implies '0' <= #[trigger] decimal(n)[i]
            <= '9' by {
            if i < d.len() {
                assert(decimal(n)[i] == d[i]);
            }
        }
        assert(decimal(n)[0] == d[0]);
        if n / 10 < 10 {
            assert(d[0] == digit_char(n / 10));
        }
    }
}

/// Reading gives back a number written in decimal: the decimal text of
/// any number the target type holds reads as that number, for every
/// unsigned integer type (`{}` then `parse` is the identity).
pub proof fn law_parse_reads_decimal(n: nat, hi: int, dhi: int)
    requires
        n <= hi <= dhi,
    ensures
        int_spec(decimal(n), 0, hi, 0, dhi) == Ok::<int, ParseError>(n as int),
{
    let t = decimal(n);
    lemma_decimal_digits(n);
    assert(!is_ws(t[0]));
    assert(!is_ws(t.last())) by {
        assert(t.last() == t[t.len() - 1]);
    }
    assert(crate::text::ws_prefix_len(t) == 0);
    assert(crate::text::ws_suffix_len(t) == 0);
    assert(trim(t) =~= t) by {
        assert(crate::text::trim_start(t) =~= t);
    }
    assert(t[0] != '-' && t[0] != '+');
    if t.len() >= 2 {
        assert(n >= 10) by {
            if n < 10 {
                assert(decimal(n).len() == 1);
            }
        }
    }
}

} // verus!
