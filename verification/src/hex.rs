//! Hexadecimal digits and numbers in text.

use vstd::prelude::*;
use std::num::ParseIntError;

verus! {

/// The error of the standard library's integer parsers.
#[verifier::external_type_specification]
#[verifier::external_body]
pub struct ExParseIntError(ParseIntError);

/// The value of a hexadecimal digit, of either case.
pub open spec fn hex_digit_value(c: char) -> Option<u8> {
    if '0' <= c <= '9' {
        Some((c as u32 - '0' as u32) as u8)
    } else if 'a' <= c <= 'f' {
        Some((c as u32 - 'a' as u32 + 10) as u8)
    } else if 'A' <= c <= 'F' {
        Some((c as u32 - 'A' as u32 + 10) as u8)
    } else {
        None
    }
}

/// Every character is a hexadecimal digit.
pub open spec fn is_hex_run(s: Seq<char>) -> bool {
    forall|i: int| 0 <= i < s.len() ==> (#[trigger] hex_digit_value(s[i])) is Some
}

/// The number that a run of hexadecimal digits denotes, most significant
/// digit first.
pub open spec fn hex_run_value(s: Seq<char>) -> nat
    decreases s.len(),
{
    if s.len() == 0 {
        0
    } else {
        16 * hex_run_value(s.drop_last()) + hex_digit_value(s.last()).unwrap_or(0) as nat
    }
}

/// The byte that a text denotes in base 16: an optional `+`, then at least
/// one hexadecimal digit and nothing else, with a value that fits in a
/// byte. `None` for every other text.
pub open spec fn spec_parse_hex_u8(s: Seq<char>) -> Option<u8> {
    let digits = if s.len() > 0 && s[0] == '+' {
        s.drop_first()
    } else {
        s
    };
    if digits.len() > 0 && is_hex_run(digits) && hex_run_value(digits) <= u8::MAX {
        Some(hex_run_value(digits) as u8)
    } else {
        None
    }
}

/// `u8::from_str_radix` with radix 16. The standard library accepts an
/// optional `+` sign followed by digits only, of either case, and fails on
/// an empty text, on any other character, and on a value above 255; it
/// says which in the error.
#[verifier::external_body]
pub(crate) fn parse_hex_u8(s: &str) -> (r: Result<u8, ParseIntError>)
    ensures
        r is Ok <==> spec_parse_hex_u8(s@) is Some,
        r matches Ok(v) ==> spec_parse_hex_u8(s@) == Some(v),
{
    u8::from_str_radix(s, 16)
}

/// What a text of one character denotes.
pub proof fn lemma_parse_single(s: Seq<char>)
    requires
        s.len() == 1,
    ensures
        spec_parse_hex_u8(s) == hex_digit_value(s[0]),
{
    reveal_with_fuel(hex_run_value, 2);
    if s[0] == '+' {
        assert(s.drop_first().len() == 0);
    } else {
        assert(s.drop_last().len() == 0);
        if hex_digit_value(s[0]) is Some {
            assert(is_hex_run(s));
        } else {
            assert(!is_hex_run(s));
        }
    }
}

/// What a text of two characters without a sign denotes.
pub proof fn lemma_parse_pair(s: Seq<char>)
    requires
        s.len() == 2,
        s[0] != '+',
    ensures
        spec_parse_hex_u8(s) == match (hex_digit_value(s[0]), hex_digit_value(s[1])) {
            (Some(high), Some(low)) => Some((16 * high + low) as u8),
            _ => None,
        },
{
    reveal_with_fuel(hex_run_value, 3);
    assert(s.drop_last().len() == 1);
    assert(s.drop_last().drop_last().len() == 0);
    assert(s.drop_last().last() == s[0]);
    if hex_digit_value(s[0]) is Some && hex_digit_value(s[1]) is Some {
        assert(is_hex_run(s));
    } else {
        assert(!is_hex_run(s));
    }
}

} // verus!
