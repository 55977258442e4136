//! Integer values: a decimal number and an optional suffix that scales it by
//! a power of 1024.

use vstd::prelude::*;
use vstd::slice::slice_subrange;

use crate::bytes::{MINUS, PLUS};
use crate::value::Error;

verus! {

/// A suffix of an integer: the power of 1024 that it is to be scaled by.
#[derive(Clone, Copy, Debug, PartialEq, Eq, Hash)]
pub enum Suffix {
    /// `k`: 1024.
    Kibi,
    /// `m`: 1024 * 1024.
    Mebi,
    /// `g`: 1024 * 1024 * 1024.
    Gibi,
}

/// An integer as it was written: the number, and the suffix beside it. The
/// number is not scaled.
#[derive(Clone, Copy, Debug, PartialEq, Eq, Hash)]
pub struct Integer {
    pub value: i64,
    pub suffix: Option<Suffix>,
}

/// `b` is a decimal digit.
pub open spec fn is_digit(b: u8) -> bool {
    '0' as u8 <= b <= '9' as u8
}

/// `s` is one decimal digit or more.
pub open spec fn is_digits(s: Seq<u8>) -> bool {
    s.len() > 0 && forall|i: int| 0 <= i < s.len() ==> is_digit(#[trigger] s[i])
}

/// The number that the decimal digits `s` write.
pub open spec fn digits_value(s: Seq<u8>) -> int
    decreases s.len(),
{
    if s.len() == 0 {
        0
    } else {
        10 * digits_value(s.drop_last()) + (s.last() - '0' as u8)
    }
}

/// The number that `s` writes: decimal digits, with `+` or `-` before them
/// or without a sign.
pub open spec fn decimal(s: Seq<u8>) -> Option<int> {
    if s.len() > 0 && s[0] == MINUS {
        if is_digits(s.subrange(1, s.len() as int)) {
            Some(-digits_value(s.subrange(1, s.len() as int)))
        } else {
            None
        }
    } else if s.len() > 0 && s[0] == PLUS {
        if is_digits(s.subrange(1, s.len() as int)) {
            Some(digits_value(s.subrange(1, s.len() as int)))
        } else {
            None
        }
    } else if is_digits(s) {
        Some(digits_value(s))
    } else {
        None
    }
}

/// The suffix that the byte `b` writes, in either case.
pub open spec fn suffix_of(b: u8) -> Option<Suffix> {
    if b == 'k' as u8 || b == 'K' as u8 {
        Some(Suffix::Kibi)
    } else if b == 'm' as u8 || b == 'M' as u8 {
        Some(Suffix::Mebi)
    } else if b == 'g' as u8 || b == 'G' as u8 {
        Some(Suffix::Gibi)
    } else {
        None
    }
}

/// `v` fits into 64 bits with a sign.
pub open spec fn fits(v: int) -> bool {
    i64::MIN <= v <= i64::MAX
}

/// The integer `v` with the suffix `suffix`, where `v` fits.
pub open spec fn checked(v: int, suffix: Option<Suffix>) -> Result<Integer, Error> {
    if fits(v) {
        Ok(Integer { value: v as i64, suffix })
    } else {
        Err(Error::IntegerOverflow)
    }
}

/// The integer that `text` writes. A number alone has no suffix. Otherwise
/// the last byte is taken for the suffix and what stands before it for the
/// number.
pub open spec fn integer(text: Seq<u8>) -> Result<Integer, Error> {
    match decimal(text) {
        Some(v) => checked(v, None),
        None => if text.len() == 0 {
            Err(Error::InvalidInteger)
        } else {
            match decimal(text.drop_last()) {
                None => Err(Error::InvalidInteger),
                Some(v) => match suffix_of(text.last()) {
                    None => Err(Error::InvalidSuffix),
                    Some(suffix) => checked(v, Some(suffix)),
                },
            }
        },
    }
}

/// What a suffix scales by.
pub open spec fn factor(suffix: Option<Suffix>) -> int {
    match suffix {
        None => 1,
        Some(Suffix::Kibi) => 1024,
        Some(Suffix::Mebi) => 1_048_576,
        Some(Suffix::Gibi) => 1_073_741_824,
    }
}

/// The limit of what the digits of a number may come to: the magnitude of
/// the least value of 64 bits.
pub const MAGNITUDE_LIMIT: u64 = 0x8000_0000_0000_0000;

/// What [`read_digits`] found.
pub enum Digits {
    /// Not digits alone, or no byte at all.
    NotANumber,
    /// Digits whose number is over [`MAGNITUDE_LIMIT`].
    TooLarge,
    /// Digits, and their number.
    Number(u64),
}

/// One digit more: ten times the number so far, and the digit.
proof fn lemma_digits_value_step(s: Seq<u8>, i: int)
    requires
        0 <= i < s.len(),
    ensures
        digits_value(s.subrange(0, i + 1)) == 10 * digits_value(s.subrange(0, i)) + (s[i] - '0' as u8),
{
    assert(s.subrange(0, i + 1).drop_last() =~= s.subrange(0, i));
}

/// Reads `s` as decimal digits.
pub fn read_digits(s: &[u8]) -> (r: Digits)
    ensures
        match r {
            Digits::NotANumber => !is_digits(s@),
            Digits::TooLarge => is_digits(s@) && digits_value(s@) > MAGNITUDE_LIMIT,
            Digits::Number(n) => is_digits(s@) && digits_value(s@) == n && n <= MAGNITUDE_LIMIT,
        },
{
    if s.len() == 0 {
        return Digits::NotANumber;
    }
    let mut acc: u64 = 0;
    let mut too_large = false;
    let mut i: usize = 0;
    while i < s.len()
        invariant
            i <= s.len(),
            forall|k: int| 0 <= k < i ==> is_digit(#[trigger] s[k]),
            !too_large ==> acc == digits_value(s@.subrange(0, i as int)) && acc <= MAGNITUDE_LIMIT,
            too_large ==> digits_value(s@.subrange(0, i as int)) > MAGNITUDE_LIMIT,
        decreases s.len() - i,
    {
        let b = s[i];
        if b < '0' as u8 || b > '9' as u8 {
            return Digits::NotANumber;
        }
        proof {
            lemma_digits_value_step(s@, i as int);
        }
        if !too_large {
            let wide: u128 = acc as u128 * 10 + (b - '0' as u8) as u128;
            if wide > MAGNITUDE_LIMIT as u128 {
                too_large = true;
            } else {
                acc = wide as u64;
            }
        }
        i += 1;
    }
    assert(s@.subrange(0, s.len() as int) =~= s@);
    if too_large {
        Digits::TooLarge
    } else {
        Digits::Number(acc)
    }
}

/// What [`read_decimal`] found.
pub enum Decimal {
    /// Not a decimal number.
    NotANumber,
    /// A decimal number that does not fit into 64 bits.
    TooLarge,
    /// A decimal number.
    Number(i64),
}

/// Reads `s` as a decimal number with an optional sign.
pub fn read_decimal(s: &[u8]) -> (r: Decimal)
    ensures
        match r {
            Decimal::NotANumber => decimal(s@) is None,
            Decimal::TooLarge => decimal(s@) is Some && !fits(decimal(s@)->0),
            Decimal::Number(v) => decimal(s@) == Some(v as int),
        },
{
    let negative = s.len() > 0 && s[0] == MINUS;
    let signed = s.len() > 0 && (s[0] == MINUS || s[0] == PLUS);
    let digits = if signed {
        slice_subrange(s, 1, s.len())
    } else {
        s
    };
    match read_digits(digits) {
        Digits::NotANumber => Decimal::NotANumber,
        Digits::TooLarge => Decimal::TooLarge,
        Digits::Number(n) => {
            if negative {
                if n == MAGNITUDE_LIMIT {
                    Decimal::Number(i64::MIN)
                } else {
                    Decimal::Number(-(n as i64))
                }
            } else if n == MAGNITUDE_LIMIT {
                Decimal::TooLarge
            } else {
                Decimal::Number(n as i64)
            }
        },
    }
}

fn read_suffix(b: u8) -> (r: Option<Suffix>)
    ensures
        r == suffix_of(b),
{
    if b == 'k' as u8 || b == 'K' as u8 {
        Some(Suffix::Kibi)
    } else if b == 'm' as u8 || b == 'M' as u8 {
        Some(Suffix::Mebi)
    } else if b == 'g' as u8 || b == 'G' as u8 {
        Some(Suffix::Gibi)
    } else {
        None
    }
}

impl Integer {
    /// Reads an integer from text without quotes.
    pub fn decode(text: &[u8]) -> (r: Result<Integer, Error>)
        ensures
            r == integer(text@),
    {
        match read_decimal(text) {
            Decimal::Number(value) => Ok(Integer { value, suffix: None }),
            Decimal::TooLarge => Err(Error::IntegerOverflow),
            Decimal::NotANumber => {
                let n = text.len();
                if n == 0 {
                    return Err(Error::InvalidInteger);
                }
                assert(text@.drop_last() == text@.subrange(0, n - 1));
                match read_decimal(slice_subrange(text, 0, n - 1)) {
                    Decimal::NotANumber => Err(Error::InvalidInteger),
                    Decimal::TooLarge => match read_suffix(text[n - 1]) {
                        None => Err(Error::InvalidSuffix),
                        Some(_) => Err(Error::IntegerOverflow),
                    },
                    Decimal::Number(value) => match read_suffix(text[n - 1]) {
                        None => Err(Error::InvalidSuffix),
                        Some(suffix) => Ok(Integer { value, suffix: Some(suffix) }),
                    },
                }
            },
        }
    }

    /// The number scaled by its suffix, where that fits into 64 bits.
    pub fn to_decimal(&self) -> (r: Option<i64>)
        ensures
            match r {
                Some(v) => v == self.value * factor(self.suffix),
                None => !fits(self.value * factor(self.suffix)),
            },
    {
        let scale: i128 = match self.suffix {
            None => 1,
            Some(Suffix::Kibi) => 1024,
            Some(Suffix::Mebi) => 1_048_576,
            Some(Suffix::Gibi) => 1_073_741_824,
        };
        assert(scale == factor(self.suffix));
        let value = self.value as i128;
        assert(-0x2000_0000_0000_0000_0000_0000 <= value * scale <= 0x2000_0000_0000_0000_0000_0000)
            by (nonlinear_arith)
            requires
                -0x8000_0000_0000_0000 <= value <= 0x8000_0000_0000_0000,
                1 <= scale <= 0x4000_0000,
        ;
        let scaled: i128 = value * scale;
        if scaled < i64::MIN as i128 || scaled > i64::MAX as i128 {
            None
        } else {
            Some(scaled as i64)
        }
    }
}

/// A suffix leaves the number as it was written: digits alone are their
/// number without a suffix, and digits before a suffix are the same number
/// beside that suffix.
pub proof fn lemma_suffix_leaves_number_unscaled(digits: Seq<u8>, b: u8)
    requires
        is_digits(digits),
        fits(digits_value(digits)),
        suffix_of(b) is Some,
    ensures
        integer(digits) == Ok::<Integer, Error>(
            Integer { value: digits_value(digits) as i64, suffix: None },
        ),
        integer(digits.push(b)) == Ok::<Integer, Error>(
            Integer { value: digits_value(digits) as i64, suffix: suffix_of(b) },
        ),
{
    let text = digits.push(b);
    assert(is_digit(digits[0]));
    assert(text[0] == digits[0]);
    assert(!is_digits(text)) by {
        assert(text[text.len() - 1] == b);
    }
    assert(text.drop_last() =~= digits);
}

} // verus!
