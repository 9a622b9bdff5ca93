use sdr_bullet::fir::{is_halfband_zero, is_hilbert_zero, Decimator, Fir, HalfBand};

fn dot(a: &[f32], b: &[f32]) -> f32 {
    a.iter().zip(b).map(|(x, y)| x * y).sum()
}

fn first(tap: f32, sample: f32) -> f32 {
    tap * sample
}

fn step(acc: f32, tap: f32, a: f32, b: f32) -> f32 {
    acc + tap * (a + b)
}

/// Windowed-sinc low-pass with unit gain at DC.
fn design_lowpass(taps: usize, cutoff: f32) -> Vec<f32> {
    let centre = (taps / 2) as f32;
    let mut h: Vec<f32> = (0..taps)
        .map(|k| {
            let x = k as f32 - centre;
            let ideal = if x.abs() < 1e-6 {
                2.0 * cutoff
            } else {
                (core::f32::consts::TAU * cutoff * x).sin() / (core::f32::consts::PI * x)
            };
            let turns = k as f32 / (taps - 1) as f32;
            ideal * (0.54 - 0.46 * (core::f32::consts::TAU * turns).cos())
        })
        .collect();
    let sum: f32 = h.iter().sum();
    for v in &mut h {
        *v /= sum;
    }
    h
}

fn design_halfband(taps: usize) -> Vec<f32> {
    let mut h = design_lowpass(taps, 0.25);
    for (k, v) in h.iter_mut().enumerate() {
        if is_halfband_zero(k, taps) {
            *v = 0.0;
        }
    }
    let sum: f32 = h.iter().sum();
    for v in &mut h {
        *v /= sum;
    }
    h
}

fn lowpass(factor: usize, taps: usize) -> Decimator<f32> {
    Decimator::new(design_lowpass(taps, 0.4 / factor as f32), factor, 0.0)
}

#[test]
fn impulse_response_reproduces_the_taps() {
    let taps = vec![0.1, 0.2, 0.3, 0.25, 0.15];
    let mut f = Fir::new(taps.clone(), 0.0);
    let mut input = vec![0.0; 16];
    input[0] = 1.0;
    let mut out = vec![0.0; 16];
    f.process(&input, &mut out, &dot);

    for k in 0..taps.len() {
        assert!(
            (out[k] - taps[k]).abs() < 1e-6,
            "tap {k}: {} vs {}",
            out[k],
            taps[k]
        );
    }
    for v in &out[taps.len()..] {
        assert!(v.abs() < 1e-6);
    }
}

#[test]
fn asymmetric_taps_are_not_reversed_by_the_filter() {
    // A palindrome would hide a tap-ordering bug, so use one that is not.
    let taps = vec![1.0, 2.0, 3.0];
    let mut f = Fir::new(taps.clone(), 0.0);
    let mut input = vec![0.0; 8];
    input[0] = 1.0;
    let mut out = vec![0.0; 8];
    f.process(&input, &mut out, &dot);
    assert_eq!(&out[..3], &taps[..]);
}

#[test]
fn state_carries_across_block_boundaries() {
    let taps = design_lowpass(31, 0.1);
    let input: Vec<f32> = (0..256).map(|k| (k as f32 * 0.05).sin()).collect();

    let mut whole = vec![0.0; 256];
    Fir::new(taps.clone(), 0.0).process(&input, &mut whole, &dot);

    let mut split = vec![0.0; 256];
    let mut f = Fir::new(taps, 0.0);
    f.process(&input[..100], &mut split[..100], &dot);
    f.process(&input[100..], &mut split[100..], &dot);

    for k in 0..256 {
        assert!(
            (whole[k] - split[k]).abs() < 1e-6,
            "block boundary drift at {k}"
        );
    }
}

#[test]
fn halfband_zeroes_alternate_taps() {
    let h = design_halfband(31);
    let centre = 15;
    for (k, v) in h.iter().enumerate() {
        let offset = k as isize - centre as isize;
        if offset != 0 && offset % 2 == 0 {
            assert_eq!(*v, 0.0, "tap {k} should be exactly zero");
        }
    }
    assert!(
        (h[centre] - 0.5).abs() < 0.02,
        "centre tap should be near 0.5"
    );
}

#[test]
fn decimator_halves_the_rate_and_keeps_the_phase_across_blocks() {
    let mut d = lowpass(2, 31);
    let input: Vec<f32> = (0..100).map(|k| k as f32).collect();
    let mut out = vec![0.0; 64];

    // 100 samples at factor two yields 50 outputs, and an odd-length block must not
    // reset the phase or the following block would be off by one.
    let n1 = d.process(&input[..51], &mut out, &dot);
    let n2 = d.process(&input[51..], &mut out[n1..], &dot);
    assert_eq!(n1 + n2, 50, "decimated count wrong: {n1} + {n2}");
}

#[test]
fn decimator_by_one_is_a_pure_filter_that_keeps_every_sample() {
    // The degenerate case: capture rate already equals the wanted channel rate. It must
    // filter without dropping samples rather than panicking, so a pipeline that lands
    // on a decimation of one needs no special-casing.
    let mut d = lowpass(1, 63);
    let input: Vec<f32> = (0..256).map(|k| (k as f32 * 0.02).sin()).collect();
    let mut out = vec![0.0; d.output_len(256)];
    let n = d.process(&input, &mut out, &dot);
    assert_eq!(n, 256, "a factor of one must keep every sample");
}

#[test]
fn decimator_output_matches_filter_then_discard() {
    let taps = design_lowpass(31, 0.1);
    let input: Vec<f32> = (0..128).map(|k| (k as f32 * 0.07).sin()).collect();

    let mut filtered = vec![0.0; 128];
    Fir::new(taps.clone(), 0.0).process(&input, &mut filtered, &dot);

    let mut decimated = vec![0.0; 32];
    let n = Decimator::new(taps, 4, 0.0).process(&input, &mut decimated, &dot);

    assert_eq!(n, 32);
    for k in 0..32 {
        assert!(
            (decimated[k] - filtered[k * 4]).abs() < 1e-5,
            "sample {k}: {} vs {}",
            decimated[k],
            filtered[k * 4]
        );
    }
}

#[test]
fn halfband_stage_matches_the_general_decimator() {
    let taps = design_halfband(31);
    let input: Vec<f32> = (0..256)
        .map(|k| (k as f32 * 0.03).sin() + 0.3 * (k as f32 * 0.31).cos())
        .collect();

    let mut got = vec![0.0; 128];
    let n_got = HalfBand::new(&taps, 0.0).process(&input, &mut got, &first, &step);

    let mut want = vec![0.0; 128];
    let n_want = Decimator::new(taps, 2, 0.0).process(&input, &mut want, &dot);

    assert_eq!(n_want, n_got);
    for k in 0..n_got {
        assert!(
            (got[k] - want[k]).abs() < 1e-5,
            "half-band shortcut disagrees at {k}: {} vs {}",
            got[k],
            want[k]
        );
    }
}

#[test]
fn hilbert_is_antisymmetric_with_even_taps_zeroed() {
    let taps = 31;
    let h: Vec<f32> = (0..taps)
        .map(|k| {
            if is_hilbert_zero(k, taps) {
                0.0
            } else {
                let n = k as f32 - 15.0;
                let turns = k as f32 / 30.0;
                2.0 / (core::f32::consts::PI * n)
                    * (0.54 - 0.46 * (core::f32::consts::TAU * turns).cos())
            }
        })
        .collect();
    let centre = 15;
    assert_eq!(h[centre], 0.0);
    for k in 0..31 {
        let offset = k as isize - centre as isize;
        if offset % 2 == 0 {
            assert_eq!(h[k], 0.0, "even offset {offset} should be zero");
        }
        assert!((h[k] + h[30 - k]).abs() < 1e-6, "not antisymmetric at {k}");
    }
}

#[test]
fn reset_clears_the_tail() {
    let mut f = Fir::new(design_lowpass(31, 0.2), 0.0);
    let mut input = vec![0.0; 32];
    input[0] = 100.0;
    let mut out = vec![0.0; 32];
    f.process(&input, &mut out, &dot);

    f.reset();
    let zeros = vec![0.0; 32];
    f.process(&zeros, &mut out, &dot);
    for (k, v) in out.iter().enumerate() {
        assert!(v.abs() < 1e-9, "residual energy at {k}: {v}");
    }
}

#[test]
fn filters_report_their_shape() {
    let f = Fir::new(vec![0i64; 31], 0);
    assert_eq!((f.taps(), f.delay()), (31, 15));
    let d = Decimator::new(vec![1i64; 9], 4, 0);
    assert_eq!((d.taps(), d.factor()), (9, 4));
    assert_eq!((d.output_len(0), d.output_len(1), d.output_len(8), d.output_len(9)), (0, 1, 2, 3));
    let h = HalfBand::new(&[1i64; 7], 0);
    assert_eq!((h.taps(), h.output_len(5)), (7, 3));
}

#[test]
fn integer_filters_are_exact_for_any_block_sizes() {
    let sum = |w: &[i64], t: &[i64]| w.iter().zip(t).map(|(x, y)| x * y).sum::<i64>();
    let taps: Vec<i64> = vec![3, -1, 4, 1, -5, 9, 2];
    let input: Vec<i64> = (0..97).map(|k| (k * k) % 23 - 11).collect();
    let convolved = |n: usize| -> i64 {
        (0..taps.len()).filter(|t| *t <= n).map(|t| taps[t] * input[n - t]).sum()
    };
    for factor in [1usize, 2, 3, 5, 8] {
        for block in [1usize, 2, 3, 7, 20, 97] {
            let mut d = Decimator::new(taps.clone(), factor, 0);
            let mut got = Vec::new();
            for chunk in input.chunks(block) {
                let mut out = vec![0; d.output_len(chunk.len()) + 1];
                let n = d.process(chunk, &mut out, &sum);
                got.extend_from_slice(&out[..n]);
            }
            let want: Vec<i64> = (0..97).step_by(factor).map(|n| convolved(n)).collect();
            assert_eq!(got, want, "factor {factor}, blocks of {block}");
        }
    }
}

#[test]
fn halfband_resets_and_carries_its_phase() {
    let design: Vec<i64> = vec![1, 0, 5, 8, 5, 0, 1];
    let input: Vec<i64> = (0..41).map(|k| k * 3 % 17).collect();
    let centre = |t: i64, s: i64| t * s;
    let outer = |acc: i64, t: i64, a: i64, b: i64| acc + t * (a + b);
    let mut whole = vec![0; 21];
    assert_eq!(HalfBand::new(&design, 0).process(&input, &mut whole, &centre, &outer), 21);
    let mut stage = HalfBand::new(&design, 0);
    for round in 0..2 {
        let mut got = Vec::new();
        for chunk in input.chunks(6 + round) {
            let mut out = vec![0; stage.output_len(chunk.len())];
            let n = stage.process(chunk, &mut out, &centre, &outer);
            got.extend_from_slice(&out[..n]);
        }
        assert_eq!(got, whole);
        stage.reset();
    }
}
