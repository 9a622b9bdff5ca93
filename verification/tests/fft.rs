use core::f32::consts::TAU;
use sdr_bullet::fft::{shift, Fft};

fn twiddle(j: usize, m: usize) -> (f32, f32) {
    let angle = -core::f64::consts::TAU * j as f64 / m as f64;
    (angle.cos() as f32, angle.sin() as f32)
}

fn butterfly(ar: f32, ai: f32, br: f32, bi: f32, wr: f32, wi: f32) -> (f32, f32, f32, f32) {
    let tr = wr * br - wi * bi;
    let ti = wr * bi + wi * br;
    (ar + tr, ai + ti, ar - tr, ai - ti)
}

fn forward(n: usize, re: &mut [f32], im: &mut [f32]) {
    Fft::new(n, &twiddle).forward(re, im, &butterfly);
}

/// Direct evaluation of the transform definition. Quadratic, so only for small sizes,
/// but it depends on none of the machinery under test.
fn naive_dft(re: &[f32], im: &[f32]) -> (Vec<f32>, Vec<f32>) {
    let n = re.len();
    let mut out_re = vec![0.0; n];
    let mut out_im = vec![0.0; n];
    for k in 0..n {
        let (mut sr, mut si) = (0.0f64, 0.0f64);
        for t in 0..n {
            let ang = -core::f64::consts::TAU * (k as f64) * (t as f64) / n as f64;
            let (c, s) = (ang.cos(), ang.sin());
            sr += re[t] as f64 * c - im[t] as f64 * s;
            si += re[t] as f64 * s + im[t] as f64 * c;
        }
        out_re[k] = sr as f32;
        out_im[k] = si as f32;
    }
    (out_re, out_im)
}

fn pseudo_random(n: usize) -> (Vec<f32>, Vec<f32>) {
    // A deterministic, poorly-correlated sequence. Good enough to catch index errors
    // and avoids pulling in a dependency for a handful of numbers.
    let mut state = 0x2545_F491u32;
    let mut next = || {
        state ^= state << 13;
        state ^= state >> 17;
        state ^= state << 5;
        (state as f32 / u32::MAX as f32) * 2.0 - 1.0
    };
    let re = (0..n).map(|_| next()).collect();
    let im = (0..n).map(|_| next()).collect();
    (re, im)
}

#[test]
fn matches_the_definition_across_sizes() {
    for &n in &[2usize, 4, 8, 16, 32, 64, 128, 256] {
        let (re, im) = pseudo_random(n);
        let (want_re, want_im) = naive_dft(&re, &im);

        let mut got_re = re.clone();
        let mut got_im = im.clone();
        forward(n, &mut got_re, &mut got_im);

        // Error grows with the number of stages, hence the size-dependent tolerance.
        let tol = 1e-4 * n as f32;
        for k in 0..n {
            assert!(
                (got_re[k] - want_re[k]).abs() < tol && (got_im[k] - want_im[k]).abs() < tol,
                "n={n} bin {k}: got ({}, {}) want ({}, {})",
                got_re[k],
                got_im[k],
                want_re[k],
                want_im[k]
            );
        }
    }
}

#[test]
fn dc_input_puts_all_energy_in_bin_zero() {
    let n = 64;
    let mut re = vec![1.0f32; n];
    let mut im = vec![0.0f32; n];
    forward(n, &mut re, &mut im);

    assert!((re[0] - n as f32).abs() < 1e-3);
    for k in 1..n {
        assert!(
            re[k].abs() < 1e-3 && im[k].abs() < 1e-3,
            "leakage into bin {k}"
        );
    }
}

#[test]
fn a_bin_centred_tone_lands_on_exactly_that_bin() {
    let n = 256;
    for target in [1usize, 7, 64, 200] {
        let mut re: Vec<f32> = (0..n)
            .map(|t| (TAU * target as f32 * t as f32 / n as f32).cos())
            .collect();
        let mut im: Vec<f32> = (0..n)
            .map(|t| (TAU * target as f32 * t as f32 / n as f32).sin())
            .collect();
        forward(n, &mut re, &mut im);

        let mag: Vec<f32> = (0..n)
            .map(|k| (re[k] * re[k] + im[k] * im[k]).sqrt())
            .collect();
        let peak = mag
            .iter()
            .enumerate()
            .max_by(|a, b| a.1.total_cmp(b.1))
            .unwrap()
            .0;
        assert_eq!(peak, target, "expected peak at {target}");
        assert!((mag[target] - n as f32).abs() < 0.1);
    }
}

#[test]
fn preserves_energy_as_parseval_requires() {
    let n = 512;
    let (re, im) = pseudo_random(n);
    let time_energy: f64 = re
        .iter()
        .zip(&im)
        .map(|(r, i)| (*r as f64).powi(2) + (*i as f64).powi(2))
        .sum();

    let mut fr = re.clone();
    let mut fi = im.clone();
    forward(n, &mut fr, &mut fi);
    let freq_energy: f64 = fr
        .iter()
        .zip(&fi)
        .map(|(r, i)| (*r as f64).powi(2) + (*i as f64).powi(2))
        .sum();

    // Sum of squared magnitudes scales by n across the transform.
    let ratio = freq_energy / (time_energy * n as f64);
    assert!((ratio - 1.0).abs() < 1e-3, "energy ratio {ratio}");
}

#[test]
fn linearity_holds() {
    let n = 128;
    let (ar, ai) = pseudo_random(n);
    let (br, bi) = pseudo_random(n);

    let mut sum_r: Vec<f32> = ar.iter().zip(&br).map(|(x, y)| x + y).collect();
    let mut sum_i: Vec<f32> = ai.iter().zip(&bi).map(|(x, y)| x + y).collect();
    forward(n, &mut sum_r, &mut sum_i);

    let (mut fa_r, mut fa_i) = (ar.clone(), ai.clone());
    let (mut fb_r, mut fb_i) = (br.clone(), bi.clone());
    forward(n, &mut fa_r, &mut fa_i);
    forward(n, &mut fb_r, &mut fb_i);

    for k in 0..n {
        assert!((sum_r[k] - (fa_r[k] + fb_r[k])).abs() < 1e-3, "bin {k}");
        assert!((sum_i[k] - (fa_i[k] + fb_i[k])).abs() < 1e-3, "bin {k}");
    }
}

#[test]
fn shift_moves_dc_to_the_middle() {
    let mut bins: Vec<f32> = (0..8).map(|k| k as f32).collect();
    shift(&mut bins);
    assert_eq!(bins, vec![4.0, 5.0, 6.0, 7.0, 0.0, 1.0, 2.0, 3.0]);
}

#[test]
fn shifting_twice_changes_nothing() {
    let mut bins: Vec<u32> = (0..64).collect();
    shift(&mut bins);
    shift(&mut bins);
    assert_eq!(bins, (0..64).collect::<Vec<u32>>());
}

#[test]
fn a_plan_knows_its_size() {
    let plan = Fft::new(1024, &twiddle);
    assert_eq!(plan.len(), 1024);
    assert!(!plan.is_empty());
}

#[test]
fn an_exact_transform_works_over_a_finite_field() {
    // Modulo 257, 3 has order 256: everything is exact.
    let power = |mut e: usize| {
        let mut x = 1u64;
        while e > 0 {
            x = x * 3 % 257;
            e -= 1;
        }
        x
    };
    let n = 16;
    let root = |j: usize, m: usize| (power(j * (256 / m)), 0u64);
    let cross = |ar: u64, ai: u64, br: u64, bi: u64, w: u64, _: u64| {
        ((ar + w * br) % 257, ai + bi, (ar + 257 * 257 - w * br) % 257, ai + bi)
    };
    let plan = Fft::new(n, &root);
    let input: Vec<u64> = (0..n as u64).map(|k| (k * k * 5 + 3) % 257).collect();
    let mut re = input.clone();
    let mut im = vec![0u64; n];
    plan.forward(&mut re, &mut im, &cross);
    for k in 0..n {
        let want: u64 = (0..n).map(|t| input[t] * power(k * t * (256 / n) % 256) % 257).sum();
        assert_eq!(re[k], want % 257, "bin {k}");
    }
}
