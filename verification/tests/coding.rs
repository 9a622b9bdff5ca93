use sdr_bullet::demod::rds::{classify, encode_block, GroupDecoder, Offset, RdsDecoder, RdsState};

fn feed(decoder: &mut RdsDecoder, block: u32) {
    for bit in (0..26).rev() {
        decoder.push_bit((block >> bit) & 1 == 1);
    }
}

const ORDER: [Offset; 4] = [Offset::A, Offset::B, Offset::C, Offset::D];

#[test]
fn a_fresh_decoder_takes_the_first_whole_group() {
    let words = [0xC201, 0x0540, 0x1234, 0x4142];
    let mut d = RdsDecoder::new();
    for (word, offset) in words.iter().zip(ORDER) {
        feed(&mut d, encode_block(*word, offset));
    }
    assert!(d.is_synchronised());
    assert_eq!(d.state().program_id, Some(0xC201));
    assert_eq!((d.state().blocks_valid, d.state().blocks_invalid), (4, 0));
    assert_eq!(d.state().groups_decoded, 1);
    assert_eq!(d.state().program_type, Some(10));
    assert!(d.state().traffic_program);
}

#[test]
fn version_b_groups_may_repeat_the_identification() {
    let mut d = RdsDecoder::new();
    let third = [Offset::A, Offset::B, Offset::CPrime, Offset::D];
    for (word, offset) in [0xBEEF, 0x2810, 0xBEEF, 0x4869].iter().zip(third) {
        feed(&mut d, encode_block(*word, offset));
    }
    assert_eq!(d.state().blocks_valid, 4);
    assert_eq!(d.state().radio_text, "Hi");
}

#[test]
fn inverted_symbols_give_the_same_data() {
    let mut symbols = vec![false];
    for (word, offset) in [0xC201, 0x0540, 0x1234, 0x4142].iter().zip(ORDER) {
        let block = encode_block(*word, offset);
        for bit in (0..26).rev() {
            let last = *symbols.last().unwrap();
            symbols.push(last != ((block >> bit) & 1 == 1));
        }
    }
    for inverted in [false, true] {
        let mut d = RdsDecoder::new();
        for s in &symbols {
            d.push_symbol(*s != inverted);
        }
        assert_eq!(d.state().program_id, Some(0xC201));
        assert_eq!(d.state().groups_decoded, 1);
    }
}

#[test]
fn sync_is_given_up_after_nine_failures_in_a_row() {
    let mut d = RdsDecoder::new();
    feed(&mut d, encode_block(0x1234, Offset::A));
    assert!(d.is_synchronised());
    let bad = encode_block(0, Offset::A) ^ 1;
    assert_eq!(classify(bad), None);
    for k in 1..=9 {
        assert!(d.is_synchronised(), "gave up after {}", k - 1);
        feed(&mut d, bad);
    }
    assert!(!d.is_synchronised());
    assert_eq!((d.state().blocks_valid, d.state().blocks_invalid), (1, 9));
    feed(&mut d, encode_block(0x1234, Offset::A));
    assert!(d.is_synchronised());
}

#[test]
fn a_group_with_a_failed_last_block_is_not_interpreted() {
    let mut d = RdsDecoder::new();
    for (word, offset) in [0xC201u16, 0x0540, 0x1234].iter().zip(ORDER) {
        feed(&mut d, encode_block(*word, offset));
    }
    feed(&mut d, encode_block(0x4142, Offset::D) ^ 0x100);
    assert_eq!(d.state().groups_decoded, 0);
    assert_eq!(d.state().program_id, None);
    assert_eq!((d.state().blocks_valid, d.state().blocks_invalid), (3, 1));
}

#[test]
fn a_group_with_any_failed_block_is_not_interpreted() {
    let words = [0x1234u16, 0x0140, 0x0000, 0x4142];
    for failed in 0..4 {
        let mut d = RdsDecoder::new();
        // In step first, so that a failed first block has a place in a group.
        for (word, offset) in words.iter().zip(ORDER) {
            feed(&mut d, encode_block(*word, offset));
        }
        let before = d.state().clone();
        for (k, (word, offset)) in words.iter().zip(ORDER).enumerate() {
            let flip = if k == failed { 1 << 25 } else { 0 };
            feed(&mut d, encode_block(*word ^ 0x0001, offset) ^ flip);
        }
        let mut expected = before;
        expected.blocks_valid += 3;
        expected.blocks_invalid += 1;
        assert_eq!(*d.state(), expected, "block {failed}");

        // The next clean group is interpreted again.
        for (word, offset) in words.iter().zip(ORDER) {
            feed(&mut d, encode_block(*word, offset));
        }
        assert_eq!(d.state().groups_decoded, 2);
    }
}

#[test]
fn a_bad_second_block_keeps_a_fresh_decoder_silent() {
    let mut d = RdsDecoder::new();
    feed(&mut d, encode_block(0x1234, Offset::A));
    feed(&mut d, encode_block(0x0140, Offset::B) ^ (1 << 25));
    feed(&mut d, encode_block(0x0000, Offset::C));
    feed(&mut d, encode_block(0x4142, Offset::D));
    assert_eq!(d.state().groups_decoded, 0);
    assert_eq!(d.state().program_id, None);
    assert_eq!((d.state().blocks_valid, d.state().blocks_invalid), (3, 1));
}

#[test]
fn radio_text_shows_the_last_characters_since_the_flag_changed() {
    let text = |flag: u16, segment: u16| 0x2000 | (flag << 4) | segment;
    let mut d = GroupDecoder::new();
    d.push_group([1, text(1, 0), 0x6F6C, 0x6421]);
    d.push_group([1, text(0, 1), 0x4546, 0x4748]);
    d.push_group([1, 0x8000, 0x5858, 0x5858]);
    d.push_group([1, text(0, 0), 0x4142, 0x4344]);
    assert_eq!(d.state().radio_text, "ABCDEFGH");
    // Version B brings two characters from its last block.
    d.push_group([1, text(0, 3) | 0x0800, 0x5858, 0x7879]);
    assert_eq!(d.state().radio_text, "ABCDEFxy");
    d.push_group([1, text(0, 1), 0x4546, 0x0D48]);
    assert_eq!(d.state().radio_text, "ABCDEF");
}

#[test]
fn a_searching_decoder_falls_into_step_at_the_first_block() {
    for lead in 0..60 {
        let mut d = RdsDecoder::new();
        for k in 0..lead {
            d.push_bit(k % 3 == 0);
        }
        assert!(!d.is_synchronised());
        feed(&mut d, encode_block(0x1234, Offset::A));
        assert!(d.is_synchronised(), "after {lead} bits");
        assert_eq!((d.state().blocks_valid, d.state().blocks_invalid), (1, 0));
        for (word, offset) in [0x0140u16, 0, 0x4142].iter().zip(&ORDER[1..]) {
            feed(&mut d, encode_block(*word, *offset));
        }
        assert_eq!(d.state().groups_decoded, 1);
        assert_eq!(d.state().program_id, Some(0x1234));
    }
}

#[test]
fn an_unknown_offset_is_no_offset() {
    assert_eq!(classify(0), None);
    assert_eq!(classify(1), None);
    for offset in Offset::ALL {
        assert_eq!(classify(offset.word() as u32), Some(offset));
        assert_eq!(classify(offset.word() as u32 | 0xFC00_0000), Some(offset));
    }
}

#[test]
fn every_single_bit_error_is_detected_in_every_block() {
    for offset in Offset::ALL {
        for info in (0..=0xFFFFu16).step_by(257) {
            let block = encode_block(info, offset);
            for bit in 0..26 {
                assert_ne!(classify(block ^ (1 << bit)), Some(offset));
            }
        }
    }
}

#[test]
fn resetting_forgets_the_station() {
    let mut d = GroupDecoder::new();
    for segment in 0..4 {
        d.push_group([0x1234, segment, 0, 0x4F4B]);
    }
    assert_eq!(d.state().station_name, "OKOKOKOK");
    d.reset();
    assert_eq!(*d.state(), RdsState::default());
    d.push_group([0x1234, 0, 0, 0x4F4B]);
    assert_eq!(d.state().station_name, "");

    let mut r = RdsDecoder::new();
    feed(&mut r, encode_block(0x1234, Offset::A));
    r.reset();
    assert!(!r.is_synchronised());
    assert_eq!(*r.state(), RdsState::default());

    let mut s = RdsState::default();
    s.blocks_valid = 3;
    s.station_name = "X".to_string();
    s.clear();
    assert_eq!(s, RdsState::default());
}

#[test]
fn trailing_spaces_are_trimmed_and_inner_ones_kept() {
    let mut d = GroupDecoder::new();
    for (segment, pair) in [(0, 0x4120), (1, 0x0742), (2, 0x7F20), (3, 0x2020)] {
        d.push_group([1, segment, 0, pair]);
    }
    assert_eq!(d.state().station_name, "A  B");
}
