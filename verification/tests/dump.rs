use std::num::ParseIntError;

use i2control::dump::hex_from_dump;

fn by_lines_and_words(dump: &str) -> Result<Vec<u8>, ParseIntError> {
    let mut dat = Vec::new();
    for line in dump.lines() {
        for val in line.split_ascii_whitespace().skip(1) {
            dat.push(u8::from_str_radix(val, 16)?);
        }
    }
    Ok(dat)
}

#[test]
fn dump_bytes_follow_the_label_of_each_line() {
    let dump = "0000  03 04 FB 00 01\n0010  0a ff\n";
    assert_eq!(hex_from_dump(dump), Ok(vec![0x03, 0x04, 0xFB, 0x00, 0x01, 0x0A, 0xFF]));
}

#[test]
fn dump_label_need_not_be_a_number() {
    assert_eq!(hex_from_dump("offset: 01 02"), Ok(vec![1, 2]));
    assert_eq!(hex_from_dump("zz"), Ok(vec![]));
}

#[test]
fn dump_without_bytes() {
    assert_eq!(hex_from_dump(""), Ok(vec![]));
    assert_eq!(hex_from_dump("\n\n  \n"), Ok(vec![]));
    assert_eq!(hex_from_dump("0000\n0010\n"), Ok(vec![]));
}

#[test]
fn dump_white_space_of_every_kind_parts_words() {
    assert_eq!(hex_from_dump("a\t1\r2\x0C3 4\r\nb 5"), Ok(vec![1, 2, 3, 4, 5]));
    assert_eq!(hex_from_dump("   a   10   "), Ok(vec![0x10]));
}

#[test]
fn dump_word_that_is_no_byte_is_an_error() {
    assert_eq!(hex_from_dump("00 zz"), by_lines_and_words("00 zz"));
    assert!(hex_from_dump("00 zz").is_err());
    assert!(hex_from_dump("00 01 100").is_err());
    assert!(hex_from_dump("00 01\n10 0x02").is_err());
    assert!(hex_from_dump("00 -1").is_err());
    assert!(hex_from_dump("00 \u{e9}").is_err());
}

#[test]
fn dump_first_error_is_reported() {
    let dump = "00 01 100 zz";
    assert_eq!(hex_from_dump(dump), Err(u8::from_str_radix("100", 16).unwrap_err()));
    let dump = "00 01 zz 100";
    assert_eq!(hex_from_dump(dump), Err(u8::from_str_radix("zz", 16).unwrap_err()));
}

#[test]
fn dump_word_may_carry_a_sign_and_zeros() {
    assert_eq!(hex_from_dump("00 +f 000A"), Ok(vec![0x0F, 0x0A]));
}

#[test]
fn dump_label_may_hold_any_character() {
    assert_eq!(hex_from_dump("\u{e9}t\u{e9} 7f\n\u{4e2d} 80"), Ok(vec![0x7F, 0x80]));
}

#[test]
fn dump_reads_as_lines_and_words_do() {
    let alphabet = [' ', '\t', '\n', '\r', '\x0C', '0', 'a', 'F', '+', 'g', '\u{e9}', '1', '7'];
    let mut state: u64 = 0x2545_F491_4F6C_DD1D;
    for _ in 0..4000 {
        let mut text = String::new();
        state = state.wrapping_mul(6364136223846793005).wrapping_add(1442695040888963407);
        let len = (state >> 33) % 24;
        for _ in 0..len {
            state = state.wrapping_mul(6364136223846793005).wrapping_add(1442695040888963407);
            text.push(alphabet[((state >> 33) % alphabet.len() as u64) as usize]);
        }
        assert_eq!(hex_from_dump(&text), by_lines_and_words(&text), "{text:?}");
    }
}
