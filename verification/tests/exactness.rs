use sdr_bullet::regs::{
    band_for, compute_pll, distribute_gain, frequency_correction, if_frequency, nearest_gain,
    notch_engaged, sample_rate, tuner_frequency, Band, GainSetting, PllError, RateError,
    GAIN_VALUES, LNA_STEPS, MIXER_STEPS, RTL_XTAL,
};

#[test]
fn ratios_are_those_of_double_precision() {
    for xtal in [RTL_XTAL, 28_800_001, 16_000_000, 1, 0, 0x8000_0001, u32::MAX] {
        for k in 0..4_000u32 {
            let rate = 900_001 + k * 574;
            if rate > 3_200_000 {
                continue;
            }
            let want = ((xtal as f64 * (1u64 << 22) as f64) / rate as f64) as u32 & 0x0FFF_FFFC;
            assert_eq!(sample_rate(rate, xtal).unwrap().ratio, want, "{rate} against {xtal}");
        }
        for rate in (225_001..=300_000).step_by(97) {
            let want = ((xtal as f64 * (1u64 << 22) as f64) / rate as f64) as u32 & 0x0FFF_FFFC;
            assert_eq!(sample_rate(rate, xtal).unwrap().ratio, want, "{rate} against {xtal}");
        }
    }
}

#[test]
fn unsupported_rates_are_told_apart() {
    assert_eq!(sample_rate(0, RTL_XTAL), Err(RateError::TooLow));
    assert_eq!(sample_rate(225_000, RTL_XTAL), Err(RateError::TooLow));
    assert!(sample_rate(225_001, RTL_XTAL).is_ok());
    assert!(sample_rate(300_000, RTL_XTAL).is_ok());
    assert_eq!(sample_rate(300_001, RTL_XTAL), Err(RateError::UnsupportedGap));
    assert_eq!(sample_rate(900_000, RTL_XTAL), Err(RateError::UnsupportedGap));
    assert!(sample_rate(900_001, RTL_XTAL).is_ok());
    assert!(sample_rate(3_200_000, RTL_XTAL).is_ok());
    assert_eq!(sample_rate(3_200_001, RTL_XTAL), Err(RateError::TooHigh));
}

fn if_in_floating_point(if_hz: u32, xtal: u32) -> [u8; 3] {
    let scaled = ((if_hz as f64 * (1u64 << 22) as f64) / xtal as f64) as i32;
    let value = (-scaled) as u32 & 0x3F_FFFF;
    [
        ((value >> 16) & 0x3F) as u8,
        ((value >> 8) & 0xFF) as u8,
        (value & 0xFF) as u8,
    ]
}

#[test]
fn offsets_are_those_of_double_precision() {
    let mut state = 0x9E37_79B9u32;
    let mut next = || {
        state ^= state << 13;
        state ^= state >> 17;
        state ^= state << 5;
        state
    };
    for (if_hz, xtal) in [(3_570_000, RTL_XTAL), (0, 0), (1, 0), (u32::MAX, 1), (0, 7)] {
        assert_eq!(if_frequency(if_hz, xtal), if_in_floating_point(if_hz, xtal));
    }
    for _ in 0..200_000 {
        let (if_hz, xtal) = (next(), next());
        assert_eq!(if_frequency(if_hz, xtal), if_in_floating_point(if_hz, xtal));
        let small = xtal >> 11;
        assert_eq!(if_frequency(if_hz, small), if_in_floating_point(if_hz, small));
    }
    // A quotient just short of a whole number, which rounds up to it.
    for k in 0..2_000u64 {
        let xtal = 0x8000_0001u64 + 2 * k;
        let mut inverse = xtal;
        for _ in 0..6 {
            inverse = inverse.wrapping_mul(2u64.wrapping_sub(xtal.wrapping_mul(inverse)));
        }
        let multiple = (1u64 << 22) + (inverse & 0x3F_FFFF);
        let product = multiple * xtal - 1;
        assert_eq!(product % (1 << 22), 0);
        if let Ok(if_hz) = u32::try_from(product >> 22) {
            let xtal = xtal as u32;
            assert_eq!(if_frequency(if_hz, xtal), if_in_floating_point(if_hz, xtal));
        }
    }
}

#[test]
fn corrections_round_towards_zero() {
    for ppm in [0, 1, -1, 7, -7, 60, -60, 1000, -1000, 123_456, -123_456, i32::MAX, -i32::MAX] {
        let offset = (-(ppm as i64) * (1i64 << 24)) / 1_000_000;
        let want = [((offset >> 8) & 0x3F) as u8, (offset & 0xFF) as u8];
        assert_eq!(frequency_correction(ppm), want, "{ppm} ppm");
    }
}

#[test]
fn the_synthesiser_lands_on_worked_values() {
    // 100 MHz plus 3.57 MHz from 28.8 MHz: the oscillator runs 32 times faster.
    let s = compute_pll(103_570_000, RTL_XTAL, 1, 1).unwrap();
    assert_eq!((s.mix_div, s.div_num), (32, 4));
    assert_eq!((s.nint, s.sdm), (57, 35_317));
    assert_eq!((s.reg_14, s.reg_15, s.reg_16), (11, 0xF5, 0x89));
    assert!(!s.power_down_sdm);
    // The report of the oscillator moves the position by one, within its ends.
    assert_eq!(compute_pll(103_570_000, RTL_XTAL, 2, 1).unwrap().div_num, 3);
    assert_eq!(compute_pll(103_570_000, RTL_XTAL, 0, 1).unwrap().div_num, 5);
    assert_eq!(compute_pll(30_000_000, RTL_XTAL, 0, 1).unwrap().div_num, 5);
    assert_eq!(compute_pll(1_000_000_000, RTL_XTAL, 2, 1).unwrap().div_num, 0);
    // An exact division needs no fraction.
    assert!(compute_pll(115_200_000, RTL_XTAL, 1, 1).unwrap().power_down_sdm);
    assert_eq!(compute_pll(1_000_000, RTL_XTAL, 1, 1), Err(PllError::OutOfRange));
    assert_eq!(compute_pll(2_500_000_000, RTL_XTAL, 1, 1), Err(PllError::OutOfRange));
    assert_eq!(compute_pll(100_000_000, 10_000_000, 1, 1), Err(PllError::DividerTooLarge));
    assert_eq!(compute_pll(100_000_000, 16_000_000, 2, 2), Err(PllError::DividerTooLarge));
}

#[test]
fn the_integer_divider_can_be_read_back_from_its_register() {
    for khz in (28_000..1_766_000).step_by(1_003) {
        if let Ok(s) = compute_pll(khz * 1000, RTL_XTAL, 1, 1) {
            assert_eq!(s.nint, 4 * (s.reg_14 as u32 % 64) + s.reg_14 as u32 / 64 + 13);
            assert_eq!(s.sdm, s.reg_16 as u16 * 256 + s.reg_15 as u16);
        }
    }
}

#[test]
fn the_crossover_is_upconverted_with_its_band() {
    assert_eq!(band_for(28_800_000), Band::Hf);
    assert_eq!(tuner_frequency(28_800_000), 57_600_000);
    assert_eq!(band_for(28_800_001), Band::Vhf);
    assert_eq!(tuner_frequency(28_800_001), 28_800_001);
    assert_eq!(band_for(249_999_999), Band::Vhf);
    assert_eq!(band_for(250_000_000), Band::Uhf);
}

#[test]
fn notches_are_bypassed_inside_the_broadcast_bands() {
    for (hz, engaged) in [
        (0, false),
        (2_200_000, false),
        (2_200_001, true),
        (84_999_999, true),
        (85_000_000, false),
        (112_000_000, false),
        (112_000_001, true),
        (172_000_000, false),
        (242_000_000, false),
        (242_000_001, true),
    ] {
        assert_eq!(notch_engaged(hz), engaged, "{hz} Hz");
    }
}

#[test]
fn gain_is_stepped_alternately() {
    for target in -100..700 {
        let mut total = 0;
        let mut want = GainSetting { lna_index: 0, mixer_index: 0, achieved: 0 };
        for step in 1..16 {
            if total + LNA_STEPS[step] >= target {
                break;
            }
            total += LNA_STEPS[step];
            want = GainSetting { lna_index: step as u8, achieved: total, ..want };
            if total + MIXER_STEPS[step] >= target {
                break;
            }
            total += MIXER_STEPS[step];
            want = GainSetting { mixer_index: step as u8, achieved: total, ..want };
        }
        assert_eq!(distribute_gain(target), want, "target {target}");
    }
}

#[test]
fn gains_snap_to_the_nearest_supported_value() {
    for gain in GAIN_VALUES {
        assert_eq!(nearest_gain(gain), gain);
    }
    assert_eq!(nearest_gain(-500), 0);
    assert_eq!(nearest_gain(10_000), 496);
    assert_eq!(nearest_gain(300), 297);
    // Halfway between 27 and 37, the lower one.
    assert_eq!(nearest_gain(32), 27);
    assert_eq!(nearest_gain(33), 37);
}
