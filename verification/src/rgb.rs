//! 24-bit colours and their textual form.

use vstd::prelude::*;
use std::num::ParseIntError;
use std::str::FromStr;
use vstd::utf8::is_ascii_chars;
use crate::hex::{hex_digit_value, lemma_parse_pair, lemma_parse_single, parse_hex_u8};

verus! {

/// Why a text is no colour.
#[derive(Debug, PartialEq, Eq)]
pub enum ParseRgbError {
    /// RGB values must have length 6: six characters of one byte each.
    LengthError,
    /// One of six ASCII characters is no hexadecimal digit.
    ParseIntError(ParseIntError),
}

impl From<ParseIntError> for ParseRgbError {
    fn from(parse_int_error: ParseIntError) -> (e: Self) {
        ParseRgbError::ParseIntError(parse_int_error)
    }
}

impl vstd::std_specs::convert::FromSpecImpl<ParseIntError> for ParseRgbError {
    open spec fn obeys_from_spec() -> bool {
        true
    }

    open spec fn from_spec(parse_int_error: ParseIntError) -> Self {
        ParseRgbError::ParseIntError(parse_int_error)
    }
}

impl ParseRgbError {
    /// Says in words what went wrong: for a wrong length that a colour has
    /// six digits, else what the number parser says of its error.
    pub fn to_string(&self) -> (text: String)
        ensures
            *self == ParseRgbError::LengthError ==> text@ == "RGB values must have length 6"@,
    {
        match self {
            ParseRgbError::LengthError => "RGB values must have length 6".to_owned(),
            ParseRgbError::ParseIntError(parse_int_error) => parse_int_error.to_string(),
        }
    }
}

/// The digits of a colour text: the text without one leading `#`.
pub open spec fn hex_part(s: Seq<char>) -> Seq<char> {
    if s.len() > 0 && s[0] == '#' {
        s.drop_first()
    } else {
        s
    }
}

/// The digits of a colour text have the length of a colour: they are six
/// characters, each of them ASCII, so that they take six bytes.
pub open spec fn has_colour_length(s: Seq<char>) -> bool {
    hex_part(s).len() == 6 && is_ascii_chars(hex_part(s))
}

/// The byte that two hexadecimal digits denote.
pub open spec fn spec_hex_pair(high: char, low: char) -> Option<u8> {
    match (hex_digit_value(high), hex_digit_value(low)) {
        (Some(h), Some(l)) => Some((16 * h + l) as u8),
        _ => None,
    }
}

/// The colour that a text denotes: six hexadecimal digits of either case,
/// two for each of red, green and blue, after an optional `#`.
pub open spec fn spec_from_hex(s: Seq<char>) -> Option<Rgb> {
    let d = hex_part(s);
    if d.len() != 6 {
        None
    } else {
        match (spec_hex_pair(d[0], d[1]), spec_hex_pair(d[2], d[3]), spec_hex_pair(d[4], d[5])) {
            (Some(r), Some(g), Some(b)) => Some(Rgb { r, g, b }),
            _ => None,
        }
    }
}

/// The upper-case hexadecimal digit of a value below 16.
pub open spec fn hex_digit(value: int) -> char {
    seq!['0', '1', '2', '3', '4', '5', '6', '7', '8', '9', 'A', 'B', 'C', 'D', 'E', 'F'][value]
}

/// A letter in upper case; any other character as it is.
pub open spec fn ascii_upper(c: char) -> char {
    if 'a' <= c <= 'z' {
        ((c as u32 - 32) as u8) as char
    } else {
        c
    }
}

/// Two texts that differ at most in the case of their letters.
pub open spec fn same_ignoring_case(s: Seq<char>, t: Seq<char>) -> bool {
    &&& s.len() == t.len()
    &&& forall|i: int| 0 <= i < s.len() ==> ascii_upper(#[trigger] s[i]) == ascii_upper(t[i])
}

/// RGB value, represented as three `u8`s.
#[derive(Debug, Clone, Copy, PartialEq, Eq, Structural)]
pub struct Rgb {
    pub r: u8,
    pub g: u8,
    pub b: u8,
}

impl Rgb {
    /// The three channels in wire order: red, green, blue.
    pub open spec fn spec_bytes(self) -> Seq<u8> {
        seq![self.r, self.g, self.b]
    }

    /// The colour `0xRRGGBB`; bits above the low 24 are ignored.
    pub open spec fn spec_from_u32(rgb: u32) -> Rgb {
        Rgb {
            r: ((rgb & 0xFF0000) >> 16) as u8,
            g: ((rgb & 0x00FF00) >> 8) as u8,
            b: (rgb & 0x0000FF) as u8,
        }
    }

    /// The colour with the given red, green and blue.
    pub fn new(r: u8, g: u8, b: u8) -> (c: Self)
        ensures
            c == (Rgb { r, g, b }),
    {
        Rgb { r, g, b }
    }

    /// Builds a colour from a `0xRRGGBB` literal.
    pub fn from_u32(rgb: u32) -> (c: Self)
        ensures
            c == Rgb::spec_from_u32(rgb),
    {
        let r: u32 = (rgb & 0xFF0000) >> 16;
        let g: u32 = (rgb & 0x00FF00) >> 8;
        let b: u32 = rgb & 0x0000FF;
        assert(r < 256 && g < 256 && b < 256) by (bit_vector)
            requires
                r == (rgb & 0xFF0000) >> 16,
                g == (rgb & 0x00FF00) >> 8,
                b == rgb & 0x0000FF,
        ;
        Rgb { r: r as u8, g: g as u8, b: b as u8 }
    }

    /// The three channels in wire order: red, green, blue.
    pub fn bytes(&self) -> (out: [u8; 3])
        ensures
            out@ == self.spec_bytes(),
    {
        [self.r, self.g, self.b]
    }

    /// The canonical text of the colour: `#` and six upper-case
    /// hexadecimal digits.
    pub open spec fn spec_to_string(self) -> Seq<char> {
        seq![
            '#',
            hex_digit(self.r as int / 16),
            hex_digit(self.r as int % 16),
            hex_digit(self.g as int / 16),
            hex_digit(self.g as int % 16),
            hex_digit(self.b as int / 16),
            hex_digit(self.b as int % 16),
        ]
    }

    /// Writes the colour as `#RRGGBB`.
    pub fn to_string(&self) -> (text: String)
        ensures
            text@ == self.spec_to_string(),
    {
        let mut text = String::new();
        proof {
            reveal_strlit("#");
        }
        text.append("#");
        text.append(hex_digit_str(self.r / 16));
        text.append(hex_digit_str(self.r % 16));
        text.append(hex_digit_str(self.g / 16));
        text.append(hex_digit_str(self.g % 16));
        text.append(hex_digit_str(self.b / 16));
        text.append(hex_digit_str(self.b % 16));
        assert(text@ =~= self.spec_to_string());
        text
    }

    /// Reads a colour from six hexadecimal digits, with or without a `#` in
    /// front. A text is refused for its length unless its digits are six
    /// ASCII characters; six ASCII characters that are not all hexadecimal
    /// digits are refused with the error of the number parser.
    pub fn from_hex(s: &str) -> (r: Result<Rgb, ParseRgbError>)
        ensures
            r is Ok <==> spec_from_hex(s@) is Some,
            match r {
                Ok(c) => spec_from_hex(s@) == Some(c),
                Err(ParseRgbError::LengthError) => !has_colour_length(s@),
                Err(ParseRgbError::ParseIntError(_)) => has_colour_length(s@) && spec_from_hex(s@)
                    is None,
            },
    {
        let n = s.unicode_len();
        let start: usize = if n > 0 && s.get_char(0) == '#' {
            1
        } else {
            0
        };
        if n - start != 6 {
            return Err(ParseRgbError::LengthError);
        }
        let ghost d = hex_part(s@);
        assert(forall|i: int| 0 <= i < 6 ==> d[i] == s@[start + i]);
        proof {
            lemma_hex_digits_are_ascii(s@);
        }
        if !s.is_ascii() {
            assert(!is_ascii_chars(d)) by {
                if is_ascii_chars(d) {
                    assert forall|i: int| 0 <= i < s@.len() implies '\0' <= #[trigger] s@[i]
                        <= '\u{7f}' by {
                        if i >= start {
                            assert(s@[i] == d[i - start]);
                        }
                    }
                }
            }
            return Err(ParseRgbError::LengthError);
        }
        assert(is_ascii_chars(d)) by {
            assert forall|i: int| 0 <= i < d.len() implies '\0' <= #[trigger] d[i] <= '\u{7f}' by {
                assert(d[i] == s@[start + i]);
            }
        }
        let r = match parse_pair(s, start) {
            Ok(v) => v,
            Err(e) => {
                return Err(ParseRgbError::ParseIntError(e));
            },
        };
        let g = match parse_pair(s, start + 2) {
            Ok(v) => v,
            Err(e) => {
                return Err(ParseRgbError::ParseIntError(e));
            },
        };
        let b = match parse_pair(s, start + 4) {
            Ok(v) => v,
            Err(e) => {
                return Err(ParseRgbError::ParseIntError(e));
            },
        };
        Ok(Rgb { r, g, b })
    }

    /// Writing a colour and reading the text back gives the colour.
    pub proof fn lemma_round_trip(self)
        ensures
            spec_from_hex(self.spec_to_string()) == Some(self),
    {
        lemma_hex_digit_value(self.r as int / 16);
        lemma_hex_digit_value(self.r as int % 16);
        lemma_hex_digit_value(self.g as int / 16);
        lemma_hex_digit_value(self.g as int % 16);
        lemma_hex_digit_value(self.b as int / 16);
        lemma_hex_digit_value(self.b as int % 16);
        let text = self.spec_to_string();
        assert(hex_part(text) =~= text.drop_first());
    }
}

/// Reading a colour does not depend on the case of the digits.
pub proof fn lemma_case_insensitive(s: Seq<char>, t: Seq<char>)
    requires
        same_ignoring_case(s, t),
    ensures
        spec_from_hex(s) == spec_from_hex(t),
{
    assert forall|c: char, d: char| ascii_upper(c) == ascii_upper(d) implies hex_digit_value(c)
        == hex_digit_value(d) && (c == '#' <==> d == '#') by {
        lemma_upper_digit_value(c);
        lemma_upper_digit_value(d);
    }
    if s.len() > 0 {
        assert(ascii_upper(s[0]) == ascii_upper(t[0]));
    }
    let ds = hex_part(s);
    let dt = hex_part(t);
    assert(ds.len() == dt.len());
    if ds.len() == 6 {
        let k = s.len() - 6;
        assert forall|i: int| 0 <= i < 6 implies hex_digit_value(ds[i]) == hex_digit_value(
            dt[i],
        ) by {
            assert(ds[i] == s[k + i] && dt[i] == t[k + i]);
            assert(ascii_upper(s[k + i]) == ascii_upper(t[k + i]));
        }
    }
}

/// A text that denotes a colour has the length of a colour: hexadecimal
/// digits are ASCII characters.
pub proof fn lemma_hex_digits_are_ascii(s: Seq<char>)
    ensures
        spec_from_hex(s) is Some ==> has_colour_length(s),
{
    let d = hex_part(s);
    if spec_from_hex(s) is Some {
        assert forall|i: int| 0 <= i < d.len() implies '\0' <= #[trigger] d[i] <= '\u{7f}' by {
            assert(hex_digit_value(d[i]) is Some);
        }
    }
}

/// A character and its upper-case form denote the same digit, and `#` is
/// no letter.
proof fn lemma_upper_digit_value(c: char)
    ensures
        hex_digit_value(ascii_upper(c)) == hex_digit_value(c),
        ascii_upper(c) == '#' <==> c == '#',
{
}

/// The digit written for a value below 16 denotes that value.
proof fn lemma_hex_digit_value(value: int)
    requires
        0 <= value < 16,
    ensures
        hex_digit_value(hex_digit(value)) == Some(value as u8),
{
}

/// The upper-case hexadecimal digit of a value below 16, as a text.
fn hex_digit_str(value: u8) -> (text: &'static str)
    requires
        value < 16,
    ensures
        text@ == seq![hex_digit(value as int)],
{
    proof {
        reveal_strlit("0");
        reveal_strlit("1");
        reveal_strlit("2");
        reveal_strlit("3");
        reveal_strlit("4");
        reveal_strlit("5");
        reveal_strlit("6");
        reveal_strlit("7");
        reveal_strlit("8");
        reveal_strlit("9");
        reveal_strlit("A");
        reveal_strlit("B");
        reveal_strlit("C");
        reveal_strlit("D");
        reveal_strlit("E");
        reveal_strlit("F");
    }
    let text = match value {
        0 => "0",
        1 => "1",
        2 => "2",
        3 => "3",
        4 => "4",
        5 => "5",
        6 => "6",
        7 => "7",
        8 => "8",
        9 => "9",
        10 => "A",
        11 => "B",
        12 => "C",
        13 => "D",
        14 => "E",
        _ => "F",
    };
    assert(text@ =~= seq![hex_digit(value as int)]);
    text
}

/// Reads the two hexadecimal digits at `at`. A sign, which the number
/// parser would take in front of a digit, is no digit here.
fn parse_pair(s: &str, at: usize) -> (r: Result<u8, ParseIntError>)
    requires
        at + 2 <= s@.len() <= usize::MAX,
    ensures
        r is Ok <==> spec_hex_pair(s@[at as int], s@[at + 1]) is Some,
        r matches Ok(v) ==> spec_hex_pair(s@[at as int], s@[at + 1]) == Some(v),
{
    if s.get_char(at) == '+' {
        let sign = s.substring_char(at, at + 1);
        proof {
            lemma_parse_single(sign@);
        }
        parse_hex_u8(sign)
    } else {
        let pair = s.substring_char(at, at + 2);
        proof {
            lemma_parse_pair(pair@);
        }
        parse_hex_u8(pair)
    }
}

impl FromStr for Rgb {
    type Err = ParseRgbError;

    /// Reads a colour as [`Rgb::from_hex`] does.
    fn from_str(s: &str) -> (r: Result<Self, Self::Err>)
        ensures
            r is Ok <==> spec_from_hex(s@) is Some,
            match r {
                Ok(c) => spec_from_hex(s@) == Some(c),
                Err(ParseRgbError::LengthError) => !has_colour_length(s@),
                Err(ParseRgbError::ParseIntError(_)) => has_colour_length(s@) && spec_from_hex(s@)
                    is None,
            },
    {
        Rgb::from_hex(s)
    }
}

impl Default for Rgb {
    /// Black.
    fn default() -> (c: Self)
        ensures
            c == (Rgb { r: 0, g: 0, b: 0 }),
    {
        Rgb { r: 0, g: 0, b: 0 }
    }
}

} // verus!
