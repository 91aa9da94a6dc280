use std::str::FromStr;

use i2control::rgb::{ParseRgbError, Rgb};

#[test]
fn rgb_round_trip_of_a_text() {
    let c = Rgb::from_hex("#A1B2C3").unwrap();
    assert_eq!(c, Rgb::new(0xA1, 0xB2, 0xC3));
    assert_eq!(c.to_string(), "#A1B2C3");
}

#[test]
fn rgb_round_trip_of_every_channel_value() {
    for v in 0..=255u8 {
        let c = Rgb::new(v, 255 - v, v ^ 0x5A);
        assert_eq!(Rgb::from_hex(&c.to_string()), Ok(c));
    }
}

#[test]
fn rgb_parsing_ignores_case() {
    let upper = Rgb::from_hex("#ABCDEF").unwrap();
    assert_eq!(Rgb::from_hex("#abcdef"), Ok(upper));
    assert_eq!(Rgb::from_hex("#aBcDeF"), Ok(upper));
    assert_eq!(upper, Rgb::new(0xAB, 0xCD, 0xEF));
}

#[test]
fn rgb_hash_is_optional() {
    assert_eq!(Rgb::from_hex("ff0005"), Ok(Rgb::new(255, 0, 5)));
    assert_eq!(Rgb::from_hex("#FF0005"), Ok(Rgb::new(255, 0, 5)));
}

#[test]
fn rgb_formats_with_leading_zeros() {
    assert_eq!(Rgb::new(0, 1, 0x0A).to_string(), "#00010A");
    assert_eq!(Rgb::new(255, 0, 5).to_string(), "#FF0005");
}

#[test]
fn rgb_wrong_length_is_a_length_error() {
    assert_eq!(Rgb::from_hex(""), Err(ParseRgbError::LengthError));
    assert_eq!(Rgb::from_hex("#"), Err(ParseRgbError::LengthError));
    assert_eq!(Rgb::from_hex("#A1B2C"), Err(ParseRgbError::LengthError));
    assert_eq!(Rgb::from_hex("A1B2C3D"), Err(ParseRgbError::LengthError));
    assert_eq!(Rgb::from_hex("#A1B2C3D4"), Err(ParseRgbError::LengthError));
}

#[test]
fn rgb_only_one_hash_is_taken_off() {
    assert_eq!(Rgb::from_hex("##A1B2C3"), Err(ParseRgbError::LengthError));
    assert!(matches!(Rgb::from_hex("##A1B2C"), Err(ParseRgbError::ParseIntError(_))));
}

#[test]
fn rgb_non_digit_is_a_parse_error() {
    assert!(matches!(Rgb::from_hex("#GGGGGG"), Err(ParseRgbError::ParseIntError(_))));
    assert!(matches!(Rgb::from_hex("12345Z"), Err(ParseRgbError::ParseIntError(_))));
    assert!(matches!(Rgb::from_hex("#12 456"), Err(ParseRgbError::ParseIntError(_))));
}

#[test]
fn rgb_sign_is_no_digit() {
    assert!(matches!(Rgb::from_hex("+1+2+3"), Err(ParseRgbError::ParseIntError(_))));
    assert!(matches!(Rgb::from_hex("#1122+3"), Err(ParseRgbError::ParseIntError(_))));
    assert!(matches!(Rgb::from_hex("#11223+"), Err(ParseRgbError::ParseIntError(_))));
}

#[test]
fn rgb_text_with_a_character_beyond_ascii_is_a_length_error() {
    assert_eq!(Rgb::from_hex("a\u{e9}b123"), Err(ParseRgbError::LengthError));
    assert_eq!(Rgb::from_hex("#a\u{e9}b123"), Err(ParseRgbError::LengthError));
    assert_eq!(Rgb::from_hex("12345\u{4e2d}"), Err(ParseRgbError::LengthError));
    assert_eq!(Rgb::from_hex("\u{e9}\u{e9}12"), Err(ParseRgbError::LengthError));
    assert_eq!(Rgb::from_hex("\u{e9}\u{e9}\u{e9}"), Err(ParseRgbError::LengthError));
    assert_eq!(Rgb::from_str("a\u{e9}b123"), Err(ParseRgbError::LengthError));
}

#[test]
fn rgb_parse_error_is_for_six_ascii_characters() {
    for text in ["12345G", "#12345g", "#12 456", "+12345", "zzzzzz", "#\u{7f}12345"] {
        assert!(matches!(Rgb::from_hex(text), Err(ParseRgbError::ParseIntError(_))), "{text}");
    }
}

#[test]
fn rgb_from_str_reads_as_from_hex() {
    assert_eq!(Rgb::from_str("#FF0005"), Ok(Rgb::new(255, 0, 5)));
    assert_eq!("#0a0B0c".parse::<Rgb>(), Ok(Rgb::new(10, 11, 12)));
    assert_eq!("nothing".parse::<Rgb>(), Err(ParseRgbError::LengthError));
}

#[test]
fn rgb_parse_error_converts() {
    let e = u8::from_str_radix("x", 16).unwrap_err();
    assert_eq!(ParseRgbError::from(e.clone()), ParseRgbError::ParseIntError(e));
}

#[test]
fn rgb_from_u32_splits_channels() {
    assert_eq!(Rgb::from_u32(0xDEADBE), Rgb::new(0xDE, 0xAD, 0xBE));
    assert_eq!(Rgb::from_u32(0xFF00_0000), Rgb::new(0, 0, 0));
    assert_eq!(Rgb::from_u32(0x0004FF), Rgb::new(0x00, 0x04, 0xFF));
}

#[test]
fn rgb_bytes_are_in_wire_order() {
    assert_eq!(Rgb::new(1, 2, 3).bytes(), [1, 2, 3]);
}

#[test]
fn rgb_default_is_black() {
    assert_eq!(Rgb::default(), Rgb::new(0, 0, 0));
}
