//! Decimal and hexadecimal rendering of integers, and the std string calls the library uses.

use vstd::prelude::*;
use vstd::string::StringSliceAdditionalSpecFns;

verus! {

/// The ASCII character of a digit value below sixteen, lower-case letters above nine.
pub open spec fn digit_char(d: nat) -> char {
    if d < 10 { (48 + d) as char } else { (87 + d) as char }
}

/// The decimal rendering of a number, without leading zeros.
pub open spec fn decimal(n: nat) -> Seq<char>
    decreases n,
{
    if n < 10 {
        seq![digit_char(n)]
    } else {
        decimal(n / 10).push(digit_char(n % 10))
    }
}

/// The lower-case hexadecimal rendering of a number, without prefix or leading zeros.
pub open spec fn hexadecimal(n: nat) -> Seq<char>
    decreases n,
{
    if n < 16 {
        seq![digit_char(n)]
    } else {
        hexadecimal(n / 16).push(digit_char(n % 16))
    }
}

/// Appends one character (std `String::push`).
#[verifier::external_body]
pub(crate) fn push_char(s: &mut String, c: char)
    ensures
        final(s)@ == old(s)@.push(c),
{
    s.push(c);
}

pub(crate) fn digit(d: u64) -> (c: char)
    requires
        d < 16,
    ensures
        c == digit_char(d as nat),
{
    let b: u8 = if d < 10 { 48 + d as u8 } else { 87 + d as u8 };
    b as char
}

/// Appends the decimal rendering of `n`.
pub fn append_decimal(s: &mut String, n: u64)
    ensures
        final(s)@ == old(s)@ + decimal(n as nat),
    decreases n,
{
    if n >= 10 {
        append_decimal(s, n / 10);
    }
    let c = digit(n % 10);
    push_char(s, c);
    proof {
        if n < 10 {
            assert(n % 10 == n);
        }
        assert(old(s)@ + decimal(n as nat) =~= old(s)@ + (if n >= 10 { decimal((n / 10) as nat) } else { Seq::<char>::empty() }).push(c));
    }
}

/// Appends the lower-case hexadecimal rendering of `n`.
pub fn append_hex(s: &mut String, n: u64)
    ensures
        final(s)@ == old(s)@ + hexadecimal(n as nat),
    decreases n,
{
    if n >= 16 {
        append_hex(s, n / 16);
    }
    let c = digit(n % 16);
    push_char(s, c);
    proof {
        if n < 16 {
            assert(n % 16 == n);
        }
        assert(old(s)@ + hexadecimal(n as nat) =~= old(s)@ + (if n >= 16 { hexadecimal((n / 16) as nat) } else { Seq::<char>::empty() }).push(c));
    }
}

/// The decimal rendering of `n` as a string.
pub fn decimal_string(n: u64) -> (r: String)
    ensures
        r@ == decimal(n as nat),
{
    let mut s = String::new();
    append_decimal(&mut s, n);
    assert(Seq::<char>::empty() + decimal(n as nat) =~= decimal(n as nat));
    s
}

/// Why a decimal `u32` could not be read (the kinds of std's `ParseIntError`
/// that an unsigned parse can give).
#[derive(Clone, Copy, Debug, PartialEq, Eq, Structural)]
pub enum ParseIdError {
    Empty,
    InvalidDigit,
    PosOverflow,
}

impl ParseIdError {
    pub open spec fn spec_message(self) -> Seq<char> {
        match self {
            ParseIdError::Empty => "cannot parse integer from empty string"@,
            ParseIdError::InvalidDigit => "invalid digit found in string"@,
            ParseIdError::PosOverflow => "number too large to fit in target type"@,
        }
    }

    /// The text std prints for the error.
    pub fn message(&self) -> (r: String)
        ensures
            r@ == self.spec_message(),
    {
        match self {
            ParseIdError::Empty => String::from_str("cannot parse integer from empty string"),
            ParseIdError::InvalidDigit => String::from_str("invalid digit found in string"),
            ParseIdError::PosOverflow => String::from_str("number too large to fit in target type"),
        }
    }
}

/// Reads decimal digits left to right onto `acc`: the first byte that is not
/// a digit is an invalid digit, a value past `u32::MAX` an overflow.
pub open spec fn parse_digits(b: Seq<u8>, acc: nat) -> Result<u32, ParseIdError>
    decreases b.len(),
{
    if b.len() == 0 {
        Ok(acc as u32)
    } else if !(48 <= b[0] <= 57) {
        Err(ParseIdError::InvalidDigit)
    } else if acc * 10 + (b[0] - 48) > u32::MAX {
        Err(ParseIdError::PosOverflow)
    } else {
        parse_digits(b.drop_first(), (acc * 10 + (b[0] - 48)) as nat)
    }
}

/// std's `u32::from_str`: an optional leading `+` (not alone), then decimal digits.
pub open spec fn parse_u32(b: Seq<u8>) -> Result<u32, ParseIdError> {
    if b.len() == 0 {
        Err(ParseIdError::Empty)
    } else if b[0] == 43 && b.len() > 1 {
        parse_digits(b.drop_first(), 0)
    } else {
        parse_digits(b, 0)
    }
}

fn parse_digits_from(b: &[u8], start: usize) -> (r: Result<u32, ParseIdError>)
    requires
        start <= b@.len(),
    ensures
        r == parse_digits(b@.subrange(start as int, b@.len() as int), 0),
{
    let mut acc: u64 = 0;
    let mut i: usize = start;
    while i < b.len()
        invariant
            start <= i <= b@.len(),
            acc <= u32::MAX,
            parse_digits(b@.subrange(start as int, b@.len() as int), 0)
                == parse_digits(b@.subrange(i as int, b@.len() as int), acc as nat),
        decreases b.len() - i,
    {
        let c = b[i];
        let ghost rest = b@.subrange(i as int, b@.len() as int);
        assert(rest[0] == c);
        assert(rest.drop_first() =~= b@.subrange(i + 1, b@.len() as int));
        if c < 48 || c > 57 {
            return Err(ParseIdError::InvalidDigit);
        }
        let next: u64 = acc * 10 + (c - 48) as u64;
        if next > 4294967295 {
            return Err(ParseIdError::PosOverflow);
        }
        acc = next;
        i = i + 1;
    }
    assert(b@.subrange(i as int, b@.len() as int).len() == 0);
    Ok(acc as u32)
}

/// Parses a decimal `u32` as std's `str::parse::<u32>` does.
pub fn parse_u32_str(s: &str) -> (r: Result<u32, ParseIdError>)
    ensures
        r == parse_u32(s.spec_bytes()),
{
    let b = s.as_bytes();
    if b.len() == 0 {
        return Err(ParseIdError::Empty);
    }
    if b[0] == 43 && b.len() > 1 {
        assert(b@.drop_first() =~= b@.subrange(1, b@.len() as int));
        parse_digits_from(b, 1)
    } else {
        assert(b@ =~= b@.subrange(0, b@.len() as int));
        parse_digits_from(b, 0)
    }
}

} // verus!
