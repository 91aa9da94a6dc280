use i2control::timeout::{timeout_message, DISABLED, OPERATION_ID};

#[test]
fn timeout_disabled_sends_ff() {
    let m = timeout_message(None).unwrap();
    assert_eq!(m.len(), 1);
    assert_eq!(
        m.report(0).data(),
        &vec![0x03, 0x06, 0xFB, 0xFF, 0, 0, 0, 0, 0, 0, 0, 0, 0, 0, 0, 0]
    );
}

#[test]
fn timeout_minutes_are_sent_as_they_are() {
    let m = timeout_message(Some(42)).unwrap();
    assert_eq!(m.len(), 1);
    assert_eq!(
        m.report(0).data(),
        &vec![0x03, 0x06, 0xFB, 42, 0, 0, 0, 0, 0, 0, 0, 0, 0, 0, 0, 0]
    );
}

#[test]
fn timeout_header_has_three_bytes() {
    for minutes in [0u8, 1, 100] {
        let m = timeout_message(Some(minutes)).unwrap();
        let data = m.report(0).data();
        assert_eq!(&data[..3], &[0x03, OPERATION_ID, 0xFB]);
        assert_eq!(data[3], minutes);
        assert!(data[4..].iter().all(|b| *b == 0));
    }
}

#[test]
fn timeout_constants() {
    assert_eq!(OPERATION_ID, 0x06);
    assert_eq!(DISABLED, 0xFF);
}
