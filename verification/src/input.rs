//! Lines of input: each is one sample, a signed integer in base ten.

use vstd::prelude::*;

verus! {

/// Why a line is no sample.
#[derive(Clone, Copy, Debug, PartialEq, Eq)]
pub enum ParseError {
    /// The line is not an optional sign followed by one digit or more.
    NotAnInteger,
    /// The line is an integer that no sample can hold.
    OutOfRange,
}

/// `byte` is one of the ten digits.
pub open spec fn is_digit(byte: u8) -> bool {
    0x30 <= byte <= 0x39
}

/// `line` begins with a plus or a minus sign.
pub open spec fn has_sign(line: Seq<u8>) -> bool {
    line.len() > 0 && (line[0] == 0x2B || line[0] == 0x2D)
}

/// `line` begins with a minus sign.
pub open spec fn is_negative(line: Seq<u8>) -> bool {
    line.len() > 0 && line[0] == 0x2D
}

/// What follows the sign, if there is one.
pub open spec fn digits_of(line: Seq<u8>) -> Seq<u8> {
    if has_sign(line) {
        line.drop_first()
    } else {
        line
    }
}

/// `line` is an optional sign followed by one digit or more, and nothing
/// else.
pub open spec fn is_integer(line: Seq<u8>) -> bool {
    let digits = digits_of(line);
    digits.len() > 0 && forall|i: int| 0 <= i < digits.len() ==> is_digit(#[trigger] digits[i])
}

/// The number that `digits` spell in base ten.
pub open spec fn magnitude(digits: Seq<u8>) -> nat
    decreases digits.len(),
{
    if digits.len() == 0 {
        0
    } else {
        (10 * magnitude(digits.drop_last()) + (digits.last() - 0x30)) as nat
    }
}

/// The integer that `line` spells.
pub open spec fn value_of(line: Seq<u8>) -> int
    recommends
        is_integer(line),
{
    if is_negative(line) {
        -magnitude(digits_of(line))
    } else {
        magnitude(digits_of(line)) as int
    }
}

/// The sample that `line` holds, or why it holds none.
pub open spec fn parsed(line: Seq<u8>) -> Result<i32, ParseError> {
    if !is_integer(line) {
        Err(ParseError::NotAnInteger)
    } else if i32::MIN <= value_of(line) <= i32::MAX {
        Ok(value_of(line) as i32)
    } else {
        Err(ParseError::OutOfRange)
    }
}

/// Reads a sample from a line without its line ending.
pub fn parse_sample(line: &[u8]) -> (sample: Result<i32, ParseError>)
    ensures
        sample == parsed(line@),
{
    let n = line.len();
    let first: usize = if n > 0 && (line[0] == 0x2B || line[0] == 0x2D) {
        1
    } else {
        0
    };
    let negative = n > 0 && line[0] == 0x2D;
    if first == n {
        return Err(ParseError::NotAnInteger);
    }
    let ghost digits = digits_of(line@);
    let mut total: i64 = 0;
    let mut too_large = false;
    let mut i: usize = first;
    while i < n
        invariant
            first <= i <= n,
            n == line@.len(),
            digits == digits_of(line@),
            digits.len() == n - first,
            forall|k: int| 0 <= k < digits.len() ==> digits[k] == line@[first + k],
            forall|k: int| 0 <= k < i - first ==> is_digit(#[trigger] digits[k]),
            !too_large ==> total == magnitude(digits.take(i - first)) && total <= 0x8000_0000,
            too_large ==> magnitude(digits.take(i - first)) > 0x8000_0000,
        decreases n - i,
    {
        let byte = line[i];
        if byte < 0x30 || byte > 0x39 {
            assert(!is_digit(digits[i - first]));
            return Err(ParseError::NotAnInteger);
        }
        proof {
            let longer = digits.take(i - first + 1);
            assert(longer.drop_last() == digits.take(i - first));
            assert(longer.last() == byte);
        }
        if !too_large {
            total = total * 10 + (byte - 0x30) as i64;
            if total > 0x8000_0000 {
                too_large = true;
            }
        }
        i += 1;
    }
    assert(digits.take(i - first) == digits);
    if too_large {
        Err(ParseError::OutOfRange)
    } else if negative {
        Ok((-total) as i32)
    } else if total <= 0x7FFF_FFFF {
        Ok(total as i32)
    } else {
        Err(ParseError::OutOfRange)
    }
}

} // verus!
