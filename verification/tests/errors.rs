use i2control::decimal::decimal;
use i2control::message::MessageBuilderError;
use i2control::report::ReportBuilderError;
use i2control::rgb::{ParseRgbError, Rgb};

#[test]
fn decimal_of_small_and_large_numbers() {
    assert_eq!(decimal(0), "0");
    assert_eq!(decimal(7), "7");
    assert_eq!(decimal(10), "10");
    assert_eq!(decimal(109), "109");
    assert_eq!(decimal(4080), "4080");
    assert_eq!(decimal(usize::MAX), usize::MAX.to_string());
}

#[test]
fn decimal_agrees_with_the_standard_library() {
    for n in 0..5000usize {
        assert_eq!(decimal(n), n.to_string());
    }
}

#[test]
fn message_builder_error_in_words() {
    assert_eq!(
        MessageBuilderError::DataLenError { block_i: 13 }.to_string(),
        "Message full, not enough room to write block 13"
    );
    assert_eq!(
        MessageBuilderError::HeaderLenError { report_i: 0, header_len: 17 }.to_string(),
        "Header of report 0 too long (17)"
    );
    assert_eq!(
        MessageBuilderError::BlockLenError { block_i: 2, block_len: 120 }.to_string(),
        "Block 2 too long (120)"
    );
}

#[test]
fn report_builder_error_in_words() {
    assert_eq!(
        ReportBuilderError::LengthError.to_string(),
        "Pushing to this report would exceed its maximum capacity"
    );
}

#[test]
fn parse_rgb_error_in_words() {
    assert_eq!(ParseRgbError::LengthError.to_string(), "RGB values must have length 6");
    let e = Rgb::from_hex("#12345G").unwrap_err();
    assert_eq!(e.to_string(), u8::from_str_radix("5G", 16).unwrap_err().to_string());
}
