//! Decimal integers read from text, with the standard library's rules and
//! error messages: an optional sign, then decimal digits, in range.

use vstd::prelude::*;

verus! {

/// Why a text is no integer of the wanted type.
#[derive(Debug, Clone, Copy, PartialEq, Eq, Structural)]
pub enum IntErrorKind {
    /// The text is empty
    Empty,
    /// A character is no digit (a sign alone counts as one)
    InvalidDigit,
    /// The number is above the type's range
    PosOverflow,
    /// The number is below the type's range
    NegOverflow,
}

/// The message of each kind of error.
pub open spec fn int_error_text(e: IntErrorKind) -> Seq<char> {
    match e {
        IntErrorKind::Empty => "cannot parse integer from empty string"@,
        IntErrorKind::InvalidDigit => "invalid digit found in string"@,
        IntErrorKind::PosOverflow => "number too large to fit in target type"@,
        IntErrorKind::NegOverflow => "number too small to fit in target type"@,
    }
}

impl IntErrorKind {
    /// The error's message.
    pub fn message(&self) -> (s: String)
        ensures
            s@ == int_error_text(*self),
    {
        match self {
            IntErrorKind::Empty => "cannot parse integer from empty string".to_string(),
            IntErrorKind::InvalidDigit => "invalid digit found in string".to_string(),
            IntErrorKind::PosOverflow => "number too large to fit in target type".to_string(),
            IntErrorKind::NegOverflow => "number too small to fit in target type".to_string(),
        }
    }
}

/// Whether `c` is a decimal digit.
pub open spec fn is_digit(c: char) -> bool {
    '0' <= c && c <= '9'
}

/// The digits `ds` read after `acc`, left to right, each step kept within
/// `min ..= max` (a negative number is built downwards): the first
/// character that is no digit, or the first step out of range, is the
/// error.
pub open spec fn scan_digits(ds: Seq<char>, acc: int, negative: bool, min: int, max: int) -> Result<int, IntErrorKind>
    decreases ds.len(),
{
    if ds.len() == 0 {
        Ok(acc)
    } else if !is_digit(ds[0]) {
        Err(IntErrorKind::InvalidDigit)
    } else {
        let d = ds[0] as int - '0' as int;
        let next = if negative {
            acc * 10 - d
        } else {
            acc * 10 + d
        };
        if next > max {
            Err(IntErrorKind::PosOverflow)
        } else if next < min {
            Err(IntErrorKind::NegOverflow)
        } else {
            scan_digits(ds.drop_first(), next, negative, min, max)
        }
    }
}

/// The integer in `min ..= max` that `s` writes: an optional `+` (or `-`
/// where `signed`), then digits; an empty text, or a sign alone, is an
/// error.
pub open spec fn parse_integer(s: Seq<char>, signed: bool, min: int, max: int) -> Result<int, IntErrorKind> {
    if s.len() == 0 {
        Err(IntErrorKind::Empty)
    } else if (s[0] == '+' || s[0] == '-') && s.len() == 1 {
        Err(IntErrorKind::InvalidDigit)
    } else if s[0] == '+' {
        scan_digits(s.drop_first(), 0, false, min, max)
    } else if s[0] == '-' && signed {
        scan_digits(s.drop_first(), 0, true, min, max)
    } else {
        scan_digits(s, 0, false, min, max)
    }
}

/// The steps of a scan stay within `min ..= max`.
proof fn lemma_scan_in_range(ds: Seq<char>, acc: int, negative: bool, min: int, max: int)
    requires
        min <= acc <= max,
    ensures
        scan_digits(ds, acc, negative, min, max) matches Ok(v) ==> min <= v <= max,
    decreases ds.len(),
{
    if ds.len() > 0 && is_digit(ds[0]) {
        let d = ds[0] as int - '0' as int;
        let next = if negative { acc * 10 - d } else { acc * 10 + d };
        if min <= next <= max {
            lemma_scan_in_range(ds.drop_first(), next, negative, min, max);
        }
    }
}

/// Scan `s` from character `start` on, as `scan_digits` does.
fn scan(s: &str, start: usize, negative: bool, min: i128, max: i128) -> (r: Result<i128, IntErrorKind>)
    requires
        start <= s@.len(),
        min <= 0 <= max,
        -0x1_0000_0000_0000_0000 <= min,
        max <= 0x1_0000_0000_0000_0000,
    ensures
        r == match scan_digits(s@.skip(start as int), 0, negative, min as int, max as int) {
            Ok(v) => Ok::<i128, IntErrorKind>(v as i128),
            Err(e) => Err(e),
        },
        r matches Ok(v) ==> min <= v <= max,
{
    let n = s.unicode_len();
    let mut acc: i128 = 0;
    let mut i: usize = start;
    proof {
        lemma_scan_in_range(s@.skip(start as int), 0, negative, min as int, max as int);
    }
    while i < n
        invariant
            n == s@.len(),
            start <= i <= n,
            min <= acc <= max,
            -0x1_0000_0000_0000_0000 <= min,
            max <= 0x1_0000_0000_0000_0000,
            scan_digits(s@.skip(start as int), 0, negative, min as int, max as int) == scan_digits(
                s@.skip(i as int),
                acc as int,
                negative,
                min as int,
                max as int,
            ),
        decreases n - i,
    {
        let c = s.get_char(i);
        assert(s@.skip(i as int)[0] == c);
        assert(s@.skip(i as int).drop_first() =~= s@.skip(i + 1));
        if !('0' <= c && c <= '9') {
            return Err(IntErrorKind::InvalidDigit);
        }
        let d = (c as u32 - '0' as u32) as i128;
        assert(d == c as int - '0' as int);
        let next = if negative {
            acc * 10 - d
        } else {
            acc * 10 + d
        };
        if next > max {
            return Err(IntErrorKind::PosOverflow);
        }
        if next < min {
            return Err(IntErrorKind::NegOverflow);
        }
        acc = next;
        i = i + 1;
    }
    assert(s@.skip(i as int) =~= Seq::<char>::empty());
    Ok(acc)
}

/// Read a decimal `i32` from `s`.
pub fn parse_i32(s: &str) -> (r: Result<i32, IntErrorKind>)
    ensures
        r == match parse_integer(s@, true, i32::MIN as int, i32::MAX as int) {
            Ok(v) => Ok::<i32, IntErrorKind>(v as i32),
            Err(e) => Err(e),
        },
        parse_integer(s@, true, i32::MIN as int, i32::MAX as int) matches Ok(v) ==> i32::MIN <= v <= i32::MAX,
{
    let n = s.unicode_len();
    if n == 0 {
        return Err(IntErrorKind::Empty);
    }
    let c0 = s.get_char(0);
    if (c0 == '+' || c0 == '-') && n == 1 {
        return Err(IntErrorKind::InvalidDigit);
    }
    let (negative, start) = if c0 == '+' {
        (false, 1)
    } else if c0 == '-' {
        (true, 1)
    } else {
        (false, 0)
    };
    proof {
        assert(s@.skip(1) =~= s@.drop_first());
        assert(s@.skip(0) =~= s@);
    }
    proof {
        lemma_scan_in_range(s@.skip(start as int), 0, negative, i32::MIN as int, i32::MAX as int);
    }
    match scan(s, start, negative, i32::MIN as i128, i32::MAX as i128) {
        Ok(v) => Ok(v as i32),
        Err(e) => Err(e),
    }
}

/// Read a decimal `u64` from `s`.
pub fn parse_u64(s: &str) -> (r: Result<u64, IntErrorKind>)
    ensures
        r == match parse_integer(s@, false, 0, u64::MAX as int) {
            Ok(v) => Ok::<u64, IntErrorKind>(v as u64),
            Err(e) => Err(e),
        },
        parse_integer(s@, false, 0, u64::MAX as int) matches Ok(v) ==> 0 <= v <= u64::MAX,
{
    let n = s.unicode_len();
    if n == 0 {
        return Err(IntErrorKind::Empty);
    }
    let c0 = s.get_char(0);
    if (c0 == '+' || c0 == '-') && n == 1 {
        return Err(IntErrorKind::InvalidDigit);
    }
    let start: usize = if c0 == '+' {
        1
    } else {
        0
    };
    proof {
        assert(s@.skip(1) =~= s@.drop_first());
        assert(s@.skip(0) =~= s@);
    }
    proof {
        lemma_scan_in_range(s@.skip(start as int), 0, false, 0, u64::MAX as int);
    }
    match scan(s, start, false, 0, u64::MAX as i128) {
        Ok(v) => Ok(v as u64),
        Err(e) => Err(e),
    }
}

} // verus!
