use sdr_bullet::regs::{
    achieved_rate, block_read, block_write, demod_read, demod_write, encode_value, i2c_read,
    i2c_write, sample_rate, Block, RTL_XTAL,
};

#[test]
fn control_transfer_encodings_match_the_wire_format() {
    // Flat blocks put the address in wValue and the block in the high byte of wIndex.
    assert_eq!(block_read(0x2000, Block::Usb), (0x2000, 0x0100));
    assert_eq!(block_write(0x2000, Block::Usb), (0x2000, 0x0110));
    assert_eq!(block_write(0x3000, Block::Sys), (0x3000, 0x0210));

    // The demodulator does not: the address moves into wValue's high byte.
    assert_eq!(demod_read(1, 0x01), (0x0120, 0x0001));
    assert_eq!(demod_write(1, 0x01), (0x0120, 0x0011));
    assert_eq!(demod_write(0, 0x19), (0x1920, 0x0010));

    // Tuner access goes through the I2C block at a fixed index.
    assert_eq!(i2c_write(0x74), (0x0074, 0x0610));
    assert_eq!(i2c_read(0x74), (0x0074, 0x0600));
}

#[test]
fn multi_byte_values_are_sent_most_significant_first() {
    assert_eq!(encode_value(0x1002, 2).as_slice(), &[0x10, 0x02]);
    assert_eq!(encode_value(0x0002, 2).as_slice(), &[0x00, 0x02]);
    assert_eq!(encode_value(0x09, 1).as_slice(), &[0x09]);
}

#[test]
fn sample_rate_ratios_match_worked_values() {
    // The common rates all divide exactly.
    let cases = [
        (2_048_000u32, 0x0384_0000u32, 0x0384u16, 0x0000u16),
        (2_400_000, 0x0300_0000, 0x0300, 0x0000),
        (3_200_000, 0x0240_0000, 0x0240, 0x0000),
        (250_000, 0x0CCC_CCCC, 0x0CCC, 0xCCCC),
    ];
    for (rate, ratio, high, low) in cases {
        let got = sample_rate(rate, RTL_XTAL).expect("rate should be valid");
        assert_eq!(got.ratio, ratio, "ratio for {rate}");
        assert_eq!(got.high, high, "high half for {rate}");
        assert_eq!(got.low, low, "low half for {rate}");
    }
}

#[test]
fn common_rates_come_back_exactly() {
    for rate in [2_048_000u32, 2_400_000, 3_200_000, 1_024_000] {
        let s = sample_rate(rate, RTL_XTAL).unwrap();
        let (top, bottom) = achieved_rate(s.ratio, RTL_XTAL);
        let actual = top as f64 / bottom as f64;
        assert!(
            (actual - rate as f64).abs() < 1.0,
            "{rate} came back as {actual}"
        );
    }
}

#[test]
fn resampler_ratio_is_always_a_multiple_of_four() {
    for rate in [226_000u32, 250_000, 1_000_000, 2_400_000, 3_200_000] {
        let s = sample_rate(rate, RTL_XTAL).unwrap();
        assert_eq!(s.ratio & 0x3, 0, "ratio for {rate} was not aligned");
    }
}
