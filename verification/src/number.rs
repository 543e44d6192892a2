//! Decimal integer literals: an optional sign followed by at least one
//! digit, read as a value or as a register index.

use crate::lexer::{DIGIT_NINE, DIGIT_ZERO, MINUS};
use crate::value::Value;
use vstd::prelude::*;
use vstd::string::*;

verus! {

/// The byte of a plus sign.
pub const PLUS: u8 = 0x2b;

/// The magnitude of the most negative [`Value`].
pub const VALUE_MIN_MAGNITUDE: u64 = 0x8000_0000_0000_0000;

/// A byte that is a decimal digit.
pub open spec fn is_digit(byte: u8) -> bool {
    DIGIT_ZERO <= byte <= DIGIT_NINE
}

/// Whether every byte is a decimal digit.
pub open spec fn all_digits(digits: Seq<u8>) -> bool {
    forall|i: int| 0 <= i < digits.len() ==> is_digit(#[trigger] digits[i])
}

/// The number that a string of decimal digits denotes, most significant
/// digit first; leading zeros count for nothing.
pub open spec fn digits_value(digits: Seq<u8>) -> nat
    decreases digits.len(),
{
    if digits.len() == 0 {
        0
    } else {
        (digits_value(digits.drop_last()) * 10 + (digits.last() - DIGIT_ZERO)) as nat
    }
}

/// The integer that a literal denotes: an optional `+`, or for a signed
/// literal an optional `-`, then one or more digits and nothing else.
pub open spec fn integer_of(text: Seq<u8>, signed: bool) -> Option<int> {
    let negative = signed && text.len() > 0 && text[0] == MINUS;
    let digits = if text.len() > 0 && (text[0] == PLUS || negative) {
        text.drop_first()
    } else {
        text
    };
    if digits.len() > 0 && all_digits(digits) {
        Some(
            if negative {
                -(digits_value(digits) as int)
            } else {
                digits_value(digits) as int
            },
        )
    } else {
        None
    }
}

/// The value that a literal denotes, where it denotes one that fits.
pub open spec fn value_of(text: Seq<u8>) -> Option<Value> {
    match integer_of(text, true) {
        Some(integer) => if i64::MIN <= integer <= i64::MAX {
            Some(integer as Value)
        } else {
            None
        },
        None => None,
    }
}

/// The register index that a literal denotes, where it denotes one; a
/// literal with a minus sign denotes none.
pub open spec fn index_of(text: Seq<u8>) -> Option<u8> {
    match integer_of(text, false) {
        Some(integer) => if integer <= u8::MAX {
            Some(integer as u8)
        } else {
            None
        },
        None => None,
    }
}

/// A string of digits denotes at least what any of its prefixes denotes.
proof fn lemma_digits_value_prefix(digits: Seq<u8>, length: int)
    requires
        all_digits(digits),
        0 <= length <= digits.len(),
    ensures
        digits_value(digits.take(length)) <= digits_value(digits),
    decreases digits.len(),
{
    if length == digits.len() {
        assert(digits.take(length) =~= digits);
    } else {
        assert(digits.drop_last().take(length) =~= digits.take(length));
        lemma_digits_value_prefix(digits.drop_last(), length);
    }
}

/// Reads the digits that `bytes` holds from `start` on.
///
/// `None` unless there is at least one byte, all are digits, and the number
/// they denote is at most `limit`.
fn parse_magnitude(bytes: &[u8], start: usize, limit: u64) -> (magnitude: Option<u64>)
    requires
        start <= bytes@.len(),
        limit >= 9,
    ensures
        magnitude == ({
            let digits = bytes@.subrange(start as int, bytes@.len() as int);
            if digits.len() > 0 && all_digits(digits) && digits_value(digits) <= limit {
                Some(digits_value(digits) as u64)
            } else {
                None
            }
        }),
{
    let ghost digits = bytes@.subrange(start as int, bytes@.len() as int);
    if start >= bytes.len() {
        return None;
    }
    let mut value: u64 = 0;
    let mut index: usize = start;
    proof {
        assert(digits.take(0) =~= Seq::<u8>::empty());
    }
    while index < bytes.len()
        invariant
            start <= index <= bytes@.len(),
            digits == bytes@.subrange(start as int, bytes@.len() as int),
            digits.len() > 0,
            all_digits(digits.take(index - start)),
            value == digits_value(digits.take(index - start)),
            value <= limit,
            limit >= 9,
        decreases bytes@.len() - index,
    {
        let byte = bytes[index];
        assert(byte == digits[index - start]);
        if byte < DIGIT_ZERO || byte > DIGIT_NINE {
            return None;
        }
        let digit = (byte - DIGIT_ZERO) as u64;
        proof {
            let longer = digits.take(index - start + 1);
            assert(longer.drop_last() =~= digits.take(index - start));
            assert(digits_value(longer) == value * 10 + digit);
            assert(all_digits(longer)) by {
                assert forall|i: int| 0 <= i < longer.len() implies is_digit(
                    #[trigger] longer[i],
                ) by {
                    if i < index - start {
                        assert(longer[i] == digits.take(index - start)[i]);
                    }
                }
            }
            if all_digits(digits) {
                lemma_digits_value_prefix(digits, index - start + 1);
            }
        }
        if value > (limit - digit) / 10 {
            return None;
        }
        value = value * 10 + digit;
        index += 1;
    }
    proof {
        assert(digits.take(index - start) =~= digits);
    }
    Some(value)
}

/// Reads a literal as a value.
pub fn parse_value(text: &str) -> (value: Option<Value>)
    ensures
        value == value_of(text.spec_bytes()),
{
    let bytes = text.as_bytes();
    if bytes.len() == 0 {
        return None;
    }
    let negative = bytes[0] == MINUS;
    let start: usize = if bytes[0] == PLUS || negative {
        1
    } else {
        0
    };
    let limit: u64 = if negative {
        VALUE_MIN_MAGNITUDE
    } else {
        VALUE_MIN_MAGNITUDE - 1
    };
    proof {
        if start == 1 {
            assert(bytes@.subrange(1, bytes@.len() as int) =~= bytes@.drop_first());
        } else {
            assert(bytes@.subrange(0, bytes@.len() as int) =~= bytes@);
        }
    }
    match parse_magnitude(bytes, start, limit) {
        Some(magnitude) => {
            if !negative {
                Some(magnitude as Value)
            } else if magnitude == VALUE_MIN_MAGNITUDE {
                Some(i64::MIN)
            } else {
                Some(-(magnitude as Value))
            }
        },
        None => None,
    }
}

/// Reads a literal as a register index.
pub fn parse_index(text: &str) -> (index: Option<u8>)
    ensures
        index == index_of(text.spec_bytes()),
{
    let bytes = text.as_bytes();
    if bytes.len() == 0 {
        return None;
    }
    let start: usize = if bytes[0] == PLUS {
        1
    } else {
        0
    };
    proof {
        if start == 1 {
            assert(bytes@.subrange(1, bytes@.len() as int) =~= bytes@.drop_first());
        } else {
            assert(bytes@.subrange(0, bytes@.len() as int) =~= bytes@);
        }
    }
    match parse_magnitude(bytes, start, 255) {
        Some(magnitude) => Some(magnitude as u8),
        None => None,
    }
}

} // verus!
