//! Integer literals of the assembly language.
use vstd::prelude::*;
use crate::source::Source;

verus! {

/// Why a literal could not be read as an integer.
#[derive(PartialEq, Eq, Structural, Debug, Clone, Copy)]
pub enum IntErrorKind {
    /// Nothing to read.
    Empty,
    /// A character that is not a digit of the radix, or a lone sign.
    InvalidDigit,
    /// The value is above `i32::MAX`.
    PosOverflow,
    /// The value is below `i32::MIN`.
    NegOverflow,
}

/// The value of `c` as a digit of `radix` (digits beyond 9 are letters of
/// either case).
pub open spec fn digit_value(c: char, radix: u32) -> Option<u32> {
    let d: int = if '0' <= c <= '9' {
        c as u32 - '0' as u32
    } else if 'a' <= c <= 'z' {
        c as u32 - 'a' as u32 + 10
    } else if 'A' <= c <= 'Z' {
        c as u32 - 'A' as u32 + 10
    } else {
        radix as int
    };
    if d < radix { Some(d as u32) } else { None }
}

/// Reads the digits from left to right, accumulating towards positive or
/// negative values; the first character that is no digit, or the first step
/// that leaves the range of `i32`, decides the error.
pub open spec fn scan_digits(s: Seq<char>, radix: u32, negative: bool) -> Result<int, IntErrorKind>
    decreases s.len(),
{
    if s.len() == 0 {
        Ok(0)
    } else {
        match scan_digits(s.drop_last(), radix, negative) {
            Err(e) => Err(e),
            Ok(v) => match digit_value(s.last(), radix) {
                None => Err(IntErrorKind::InvalidDigit),
                Some(d) => {
                    let n = if negative { v * radix - d } else { v * radix + d };
                    if n > i32::MAX {
                        Err(IntErrorKind::PosOverflow)
                    } else if n < i32::MIN {
                        Err(IntErrorKind::NegOverflow)
                    } else {
                        Ok(n)
                    }
                },
            },
        }
    }
}

/// An optionally signed integer in the given radix.
pub open spec fn int_of_radix(s: Seq<char>, radix: u32) -> Result<i32, IntErrorKind> {
    if s.len() == 0 {
        Err(IntErrorKind::Empty)
    } else if (s[0] == '+' || s[0] == '-') && s.len() == 1 {
        Err(IntErrorKind::InvalidDigit)
    } else {
        let negative = s[0] == '-';
        let digits = if s[0] == '+' || s[0] == '-' { s.drop_first() } else { s };
        match scan_digits(digits, radix, negative) {
            Ok(v) => Ok(v as i32),
            Err(e) => Err(e),
        }
    }
}

/// A literal of the assembly language: `0x` introduces hexadecimal, `0b`
/// binary, anything else is decimal; a single character is always decimal.
pub open spec fn number_literal(s: Seq<char>) -> Result<i32, IntErrorKind> {
    if s.len() == 1 {
        int_of_radix(s, 10)
    } else if s.len() >= 2 && s[0] == '0' && s[1] == 'x' {
        int_of_radix(s.subrange(2, s.len() as int), 16)
    } else if s.len() >= 2 && s[0] == '0' && s[1] == 'b' {
        int_of_radix(s.subrange(2, s.len() as int), 2)
    } else {
        int_of_radix(s, 10)
    }
}

fn digit(c: char, radix: u32) -> (r: Option<u32>)
    requires
        2 <= radix <= 36,
    ensures
        r == digit_value(c, radix),
{
    let d: u32 = if '0' <= c && c <= '9' {
        c as u32 - '0' as u32
    } else if 'a' <= c && c <= 'z' {
        c as u32 - 'a' as u32 + 10
    } else if 'A' <= c && c <= 'Z' {
        c as u32 - 'A' as u32 + 10
    } else {
        radix
    };
    if d < radix { Some(d) } else { None }
}

/// Reads `src[start..end]` as an optionally signed integer in `radix`.
pub fn parse_int_radix(src: &Source, start: usize, end: usize, radix: u32) -> (r: Result<i32, IntErrorKind>)
    requires
        start <= end <= src@.len(),
        2 <= radix <= 36,
    ensures
        r == int_of_radix(src@.subrange(start as int, end as int), radix),
{
    let ghost s = src@.subrange(start as int, end as int);
    if start == end {
        return Err(IntErrorKind::Empty);
    }
    let first = src.at(start);
    if (first == '+' || first == '-') && end - start == 1 {
        return Err(IntErrorKind::InvalidDigit);
    }
    assert(s[0] == first && s.len() == end - start);
    let negative = first == '-';
    let from: usize = if first == '+' || first == '-' { start + 1 } else { start };
    let ghost digits = src@.subrange(from as int, end as int);
    assert(digits =~= (if s[0] == '+' || s[0] == '-' { s.drop_first() } else { s }));
    let mut acc: i64 = 0;
    let mut i: usize = from;
    while i < end
        invariant
            from <= i <= end <= src@.len(),
            2 <= radix <= 36,
            digits == src@.subrange(from as int, end as int),
            s == src@.subrange(start as int, end as int),
            s.len() > 0,
            !((s[0] == '+' || s[0] == '-') && s.len() == 1),
            negative == (s[0] == '-'),
            digits == (if s[0] == '+' || s[0] == '-' { s.drop_first() } else { s }),
            scan_digits(digits.subrange(0, i - from), radix, negative) == Ok::<int, IntErrorKind>(acc as int),
            i32::MIN <= acc <= i32::MAX,
        decreases end - i,
    {
        let ghost prefix = digits.subrange(0, (i + 1 - from) as int);
        assert(prefix.drop_last() =~= digits.subrange(0, i - from));
        assert(prefix.last() == src@[i as int]);
        match digit(src.at(i), radix) {
            None => {
                assert(scan_digits(prefix, radix, negative) == Err::<int, IntErrorKind>(IntErrorKind::InvalidDigit));
                proof { lemma_scan_error_sticks(digits, (i + 1 - from) as int, radix, negative); }
                return Err(IntErrorKind::InvalidDigit);
            },
            Some(d) => {
                assert(-0x8000_0000 * 36 <= acc * radix <= 0x7fff_ffff * 36) by (nonlinear_arith)
                    requires
                        i32::MIN <= acc <= i32::MAX,
                        2 <= radix <= 36,
                ;
                let n: i64 = if negative { acc * radix as i64 - d as i64 } else { acc * radix as i64 + d as i64 };
                if n > i32::MAX as i64 {
                    proof { lemma_scan_error_sticks(digits, (i + 1 - from) as int, radix, negative); }
                    return Err(IntErrorKind::PosOverflow);
                } else if n < i32::MIN as i64 {
                    proof { lemma_scan_error_sticks(digits, (i + 1 - from) as int, radix, negative); }
                    return Err(IntErrorKind::NegOverflow);
                }
                acc = n;
            },
        }
        i = i + 1;
    }
    assert(digits.subrange(0, end - from) =~= digits);
    Ok(acc as i32)
}

/// Once a prefix of the digits fails, the whole scan fails the same way.
proof fn lemma_scan_error_sticks(s: Seq<char>, k: int, radix: u32, negative: bool)
    requires
        0 <= k <= s.len(),
        scan_digits(s.subrange(0, k), radix, negative) is Err,
    ensures
        scan_digits(s, radix, negative) == scan_digits(s.subrange(0, k), radix, negative),
    decreases s.len() - k,
{
    if k < s.len() {
        assert(s.subrange(0, k + 1).drop_last() =~= s.subrange(0, k));
        lemma_scan_error_sticks(s, k + 1, radix, negative);
    } else {
        assert(s.subrange(0, k) =~= s);
    }
}

/// Reads `src[start..end]` as an integer literal of the assembly language.
pub fn parse_number(src: &Source, start: usize, end: usize) -> (r: Result<i32, IntErrorKind>)
    requires
        start <= end <= src@.len(),
    ensures
        r == number_literal(src@.subrange(start as int, end as int)),
{
    let ghost s = src@.subrange(start as int, end as int);
    if end - start == 1 {
        parse_int_radix(src, start, end, 10)
    } else if end - start >= 2 && src.at(start) == '0' && src.at(start + 1) == 'x' {
        assert(s.subrange(2, s.len() as int) =~= src@.subrange(start + 2, end as int));
        parse_int_radix(src, start + 2, end, 16)
    } else if end - start >= 2 && src.at(start) == '0' && src.at(start + 1) == 'b' {
        assert(s.subrange(2, s.len() as int) =~= src@.subrange(start + 2, end as int));
        parse_int_radix(src, start + 2, end, 2)
    } else {
        parse_int_radix(src, start, end, 10)
    }
}

} // verus!
