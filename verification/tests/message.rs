use i2control::message::{default_header, Message, MessageBuilder, MessageBuilderError};
use i2control::report::{Header, Report};

fn bytes_of(m: &Message) -> Vec<Vec<u8>> {
    m.reports().iter().map(|r| r.data().clone()).collect()
}

#[test]
fn message_default_header() {
    assert_eq!(default_header(0x02, 1), [0x03, 0x02, 0xFB, 0x01, 0x01]);
    assert_eq!(default_header(0x02, 1), Report::default_header(0x02, 1));
}

#[test]
fn message_is_never_empty() {
    assert!(Message::new(Vec::new()).is_none());
    let m = Message::new(vec![Report::new(vec![1; 16]).unwrap()]).unwrap();
    assert_eq!(m.len(), 1);
    assert_eq!(m.report(0).data(), &vec![1; 16]);
}

#[test]
fn message_builder_capacity_and_len() {
    let b = MessageBuilder::new(1, 3);
    assert_eq!(b.capacity(), 33);
    assert_eq!(b.len(), 0);
    let b = b.push(1).unwrap().push_block(&[2, 3]).unwrap();
    assert_eq!(b.len(), 3);
    assert_eq!(MessageBuilder::new_with_header(1, 3, Header::Truncated).capacity(), 39);
    assert_eq!(MessageBuilder::new_with_header(1, 3, Header::WithMode(1)).capacity(), 30);
}

#[test]
fn message_builder_with_header_replaces_the_header() {
    let b = MessageBuilder::new(6, 1).with_header(Header::Truncated).unwrap();
    let m = b.push(9).unwrap().build();
    assert_eq!(
        bytes_of(&m.unwrap()),
        vec![vec![0x03, 0x06, 0xFB, 9, 0, 0, 0, 0, 0, 0, 0, 0, 0, 0, 0, 0]]
    );
    let b = MessageBuilder::new(6, 2).with_header(Header::Custom(vec![0xEE; 4])).unwrap();
    assert_eq!(b.capacity(), 24);
}

#[test]
fn message_builder_with_header_keeps_what_was_pushed() {
    let b = MessageBuilder::new(0x06, 2).push(42).unwrap();
    let b = b.with_header(Header::Truncated).unwrap().push(43).unwrap();
    assert_eq!(b.blocks(), &vec![vec![42], vec![43]]);
    assert_eq!(
        bytes_of(&b.build().unwrap()),
        vec![
            vec![0x03, 0x06, 0xFB, 0x2A, 0x2B, 0, 0, 0, 0, 0, 0, 0, 0, 0, 0, 0],
            vec![0x03, 0x06, 0xFB, 0, 0, 0, 0, 0, 0, 0, 0, 0, 0, 0, 0, 0],
        ]
    );
    let b = MessageBuilder::new(0x06, 2).push(42).unwrap();
    let b = b.with_header(Header::Custom(vec![0x03, 0x06, 0xFB, 0x00])).unwrap().push(43).unwrap();
    assert_eq!(
        bytes_of(&b.build().unwrap()),
        vec![
            vec![0x03, 0x06, 0xFB, 0x00, 0x2A, 0x2B, 0, 0, 0, 0, 0, 0, 0, 0, 0, 0],
            vec![0x03, 0x06, 0xFB, 0x00, 0, 0, 0, 0, 0, 0, 0, 0, 0, 0, 0, 0],
        ]
    );
}

#[test]
fn message_builder_with_header_places_the_blocks_again() {
    let five = [1u8, 2, 3, 4, 5];
    let b = MessageBuilder::new(2, 2).push_block(&five).unwrap().push_block(&five).unwrap();
    assert_eq!(b.len(), 10);
    let b = b.push(9).unwrap().with_header(Header::WithMode(7)).unwrap();
    assert_eq!(b.blocks(), &vec![five.to_vec(), five.to_vec(), vec![9]]);
    assert_eq!(b.len(), 11);
    assert_eq!(
        bytes_of(&b.build().unwrap()),
        vec![
            vec![0x03, 0x02, 0xFB, 0, 1, 7, 1, 2, 3, 4, 5, 1, 2, 3, 4, 5],
            vec![0x03, 0x02, 0xFB, 1, 1, 7, 9, 0, 0, 0, 0, 0, 0, 0, 0, 0],
        ]
    );
}

#[test]
fn message_builder_with_header_fails_where_the_blocks_no_longer_fit() {
    let six = [0u8; 6];
    let b = MessageBuilder::new(2, 1).with_header(Header::Truncated).unwrap();
    let b = b.push_block(&six).unwrap().push_block(&six).unwrap();
    assert_eq!(
        b.with_header(Header::Standard).err(),
        Some(MessageBuilderError::DataLenError { block_i: 1 })
    );
    let b = MessageBuilder::new(2, 3).push_block(&[0; 11]).unwrap();
    assert_eq!(
        b.with_header(Header::WithMode(1)).err(),
        Some(MessageBuilderError::BlockLenError { block_i: 0, block_len: 11 })
    );
    let b = MessageBuilder::new(2, 3).push(1).unwrap();
    assert_eq!(
        b.with_header(Header::Custom(vec![0; 17])).err(),
        Some(MessageBuilderError::HeaderLenError { report_i: 0, header_len: 17 })
    );
}

#[test]
fn message_builder_with_header_forgets_the_moves_between_reports() {
    let b = MessageBuilder::new(2, 2).push(1).unwrap().incr_report().unwrap().push(2).unwrap();
    assert_eq!(b.len(), 12);
    let b = b.with_header(Header::Standard).unwrap();
    assert_eq!(b.len(), 2);
}

#[test]
fn message_builder_header_that_is_too_long_is_told_before_any_payload() {
    let long = || MessageBuilder::new(0x02, 1).with_header(Header::Custom(vec![0; 17])).unwrap();
    let error = MessageBuilderError::HeaderLenError { report_i: 0, header_len: 17 };
    assert_eq!(long().push(1).err(), Some(error));
    assert_eq!(long().push_block(&[1, 2, 3]).err(), Some(error));
    assert_eq!(long().push_block(&[]).err(), Some(error));
    assert_eq!(long().push_block(&[0; 20]).err(), Some(error));
    assert_eq!(long().build().err(), Some(error));
    let exact = MessageBuilder::new(0x02, 1).with_header(Header::Custom(vec![0; 16])).unwrap();
    assert_eq!(exact.push(1).err(), Some(MessageBuilderError::DataLenError { block_i: 0 }));
}

#[test]
fn message_builder_keeps_blocks_whole() {
    let m = MessageBuilder::new(2, 3)
        .push(1)
        .unwrap()
        .push_block(&[0xA1, 0xA2, 0xA3, 0xA4, 0xA5, 0xA6])
        .unwrap()
        .push_block(&[0xB1, 0xB2, 0xB3, 0xB4, 0xB5, 0xB6])
        .unwrap()
        .push(2)
        .unwrap()
        .build()
        .unwrap();
    assert_eq!(
        bytes_of(&m),
        vec![
            vec![0x03, 0x02, 0xFB, 0, 1, 1, 0xA1, 0xA2, 0xA3, 0xA4, 0xA5, 0xA6, 0, 0, 0, 0],
            vec![0x03, 0x02, 0xFB, 1, 1, 0xB1, 0xB2, 0xB3, 0xB4, 0xB5, 0xB6, 2, 0, 0, 0, 0],
            vec![0x03, 0x02, 0xFB, 2, 1, 0, 0, 0, 0, 0, 0, 0, 0, 0, 0, 0],
        ]
    );
}

#[test]
fn message_builder_every_block_lies_in_one_report() {
    let blocks: Vec<Vec<u8>> = (1..=9u8).map(|k| vec![k; (k % 5 + 1) as usize]).collect();
    let mut b = MessageBuilder::new(7, 4);
    for block in &blocks {
        b = b.push_block(block).unwrap();
    }
    assert_eq!(b.blocks(), &blocks);
    let m = b.build().unwrap();
    for block in &blocks {
        let holders = m
            .reports()
            .iter()
            .filter(|r| r.data()[5..].windows(block.len()).any(|w| w == &block[..]))
            .count();
        assert_eq!(holders, 1);
    }
}

#[test]
fn message_builder_records_blocks_in_order() {
    let b = MessageBuilder::new(1, 2).push(7).unwrap().push_block(&[1, 2, 3]).unwrap();
    let b = b.push_block(&[]).unwrap();
    assert_eq!(b.blocks(), &vec![vec![7], vec![1, 2, 3], vec![]]);
}

#[test]
fn message_builder_refuses_a_block_longer_than_a_payload() {
    assert_eq!(
        MessageBuilder::new(1, 4).push_block(&[0; 12]).err(),
        Some(MessageBuilderError::BlockLenError { block_i: 0, block_len: 12 })
    );
    let b = MessageBuilder::new(1, 4).push(1).unwrap().push_block(&[2; 11]).unwrap();
    assert_eq!(
        b.push_block(&[0; 12]).err(),
        Some(MessageBuilderError::BlockLenError { block_i: 2, block_len: 12 })
    );
    let b = MessageBuilder::new(1, 4).incr_report().unwrap().incr_report().unwrap();
    assert_eq!(
        b.push_block(&[0; 16]).err(),
        Some(MessageBuilderError::BlockLenError { block_i: 0, block_len: 16 })
    );
}

#[test]
fn message_builder_long_block_is_refused_under_every_header() {
    for h in 0..=16usize {
        let header = || Header::Custom(vec![0; h]);
        let fits = vec![1u8; 16 - h];
        let too_long = vec![1u8; 17 - h];
        assert!(MessageBuilder::new_with_header(1, 2, header()).push_block(&fits).is_ok());
        assert_eq!(
            MessageBuilder::new_with_header(1, 2, header()).push_block(&too_long).err(),
            Some(MessageBuilderError::BlockLenError { block_i: 0, block_len: 17 - h })
        );
        let moved = MessageBuilder::new_with_header(1, 2, header()).incr_report().unwrap();
        assert_eq!(
            moved.push_block(&too_long).err(),
            Some(MessageBuilderError::BlockLenError { block_i: 0, block_len: 17 - h })
        );
    }
}

#[test]
fn message_builder_refuses_a_block_when_the_batch_is_full() {
    let b = MessageBuilder::new(1, 1).push_block(&[0; 9]).unwrap();
    assert_eq!(
        b.push_block(&[1, 2, 3]).err(),
        Some(MessageBuilderError::DataLenError { block_i: 1 })
    );
    assert_eq!(
        MessageBuilder::new(1, 0).push_block(&[1]).err(),
        Some(MessageBuilderError::DataLenError { block_i: 0 })
    );
}

#[test]
fn message_builder_refuses_a_byte_when_the_batch_is_full() {
    let mut b = MessageBuilder::new(1, 2);
    for _ in 0..22 {
        b = b.push(0).unwrap();
    }
    assert_eq!(b.push(0).err(), Some(MessageBuilderError::DataLenError { block_i: 22 }));
    assert_eq!(
        MessageBuilder::new(1, 0).push(0).err(),
        Some(MessageBuilderError::DataLenError { block_i: 0 })
    );
}

#[test]
fn message_builder_incr_report_fails_on_the_last_report() {
    let b = MessageBuilder::new(1, 2).push(1).unwrap().incr_report().unwrap();
    assert_eq!(b.len(), 11);
    assert_eq!(b.incr_report().err(), Some(MessageBuilderError::DataLenError { block_i: 1 }));
}

#[test]
fn message_builder_build_without_reports_fails() {
    assert_eq!(
        MessageBuilder::new(1, 0).build().err(),
        Some(MessageBuilderError::DataLenError { block_i: 0 })
    );
}

#[test]
fn message_builder_build_refuses_a_header_that_is_too_long() {
    let b = MessageBuilder::new_with_header(1, 2, Header::Custom(vec![0; 17]));
    assert_eq!(
        b.build().err(),
        Some(MessageBuilderError::HeaderLenError { report_i: 0, header_len: 17 })
    );
    let b = MessageBuilder::new_with_header(1, 2, Header::Custom(vec![0xCC; 16]));
    assert_eq!(bytes_of(&b.build().unwrap()), vec![vec![0xCC; 16], vec![0xCC; 16]]);
}

#[test]
fn message_builder_build_yields_the_declared_number_of_reports() {
    for n in [1u8, 2, 3, 4, 255] {
        let m = MessageBuilder::new(5, n).push(1).unwrap().build().unwrap();
        assert_eq!(m.len(), n as usize);
        assert!(m.reports().iter().all(|r| r.data().len() == 16));
    }
}

#[test]
fn message_builder_data_len() {
    assert_eq!(MessageBuilder::new(1, 3).data_len(), 11);
    assert_eq!(MessageBuilder::new_with_header(1, 3, Header::Truncated).data_len(), 13);
    assert_eq!(MessageBuilder::new_with_header(1, 3, Header::Custom(vec![0; 30])).data_len(), 0);
}

#[test]
fn message_clone_is_equal() {
    let m = MessageBuilder::new(2, 3).push_block(&[1, 2, 3]).unwrap().build().unwrap();
    assert_eq!(m.clone(), m);
    assert_eq!(bytes_of(&m.clone()), bytes_of(&m));
}

#[test]
fn message_builder_packs_as_a_plain_packer_does() {
    let mut state: u64 = 0x9E37_79B9_7F4A_7C15;
    let mut next = |bound: u64| {
        state = state.wrapping_mul(6364136223846793005).wrapping_add(1442695040888963407);
        (state >> 33) % bound
    };
    for _ in 0..2000 {
        let header_len = next(18) as usize;
        let reports = next(5) as usize;
        let room = 16usize.saturating_sub(header_len);
        let mut b = Some(MessageBuilder::new_with_header(
            9,
            reports as u8,
            Header::Custom(vec![0xEE; header_len]),
        ));
        let mut payloads: Vec<Vec<u8>> = vec![Vec::new(); reports];
        let mut cursor = 0usize;
        let mut count = 0usize;
        for _ in 0..next(12) {
            let block: Vec<u8> = (0..next(8)).map(|k| (count * 16 + k as usize + 1) as u8).collect();
            let expected = if header_len > 16 {
                Err(MessageBuilderError::HeaderLenError { report_i: 0, header_len })
            } else if block.len() > room {
                Err(MessageBuilderError::BlockLenError { block_i: count, block_len: block.len() })
            } else if reports == 0 {
                Err(MessageBuilderError::DataLenError { block_i: count })
            } else if payloads[cursor].len() + block.len() <= room {
                Ok(cursor)
            } else if cursor + 1 < reports {
                Ok(cursor + 1)
            } else {
                Err(MessageBuilderError::DataLenError { block_i: count })
            };
            match (b.take().unwrap().push_block(&block), expected) {
                (Ok(after), Ok(target)) => {
                    cursor = target;
                    payloads[cursor].extend(&block);
                    count += 1;
                    b = Some(after);
                }
                (Err(e), Err(expected)) => {
                    assert_eq!(e, expected);
                    break;
                }
                (got, expected) => panic!("{:?} where {:?} was due", got.err(), expected),
            }
        }
        let Some(b) = b else { continue };
        let built = b.build();
        if reports == 0 {
            assert_eq!(built.err(), Some(MessageBuilderError::DataLenError { block_i: 0 }));
        } else if header_len > 16 {
            assert_eq!(
                built.err(),
                Some(MessageBuilderError::HeaderLenError { report_i: 0, header_len })
            );
        } else {
            let expected: Vec<Vec<u8>> = payloads
                .iter()
                .map(|p| {
                    let mut r = vec![0xEE; header_len];
                    r.extend(p);
                    r.resize(16, 0);
                    r
                })
                .collect();
            assert_eq!(bytes_of(&built.unwrap()), expected);
        }
    }
}
