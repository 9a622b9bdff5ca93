use core::f32::consts::TAU;
use sdr_bullet::nco::{place, quarter_turn_ahead, Nco, FRACTION_STEPS, TABLE_LEN};

const SR: f64 = 48_000.0;

/// One cycle of a sine, with the first entry repeated at the end.
fn sine_table() -> Vec<f32> {
    (0..=TABLE_LEN)
        .map(|k| (core::f64::consts::TAU * k as f64 / TABLE_LEN as f64).sin() as f32)
        .collect()
}

fn interpolated(table: &[f32], index: usize, past: u32) -> f32 {
    let (a, b) = (table[index], table[index + 1]);
    a + (b - a) * (past as f32 / FRACTION_STEPS as f32)
}

fn tuned(hz: f64) -> Nco {
    let mut nco = Nco::new();
    nco.step = (hz / SR * 4294967296.0) as i64 as u32;
    nco
}

fn generate(nco: &mut Nco, n: usize) -> (Vec<f32>, Vec<f32>) {
    let table = sine_table();
    let look = |index: usize, past: u32| interpolated(&table, index, past);
    let (mut c, mut s) = (vec![0.0; n], vec![0.0; n]);
    nco.generate(&mut c, &mut s, &look);
    (c, s)
}

#[test]
fn table_reproduces_sine_accurately() {
    let t = sine_table();
    for k in 0..1000 {
        let turns = k as f64 / 1000.0;
        let phase = (turns * 4294967296.0) as u64 as u32;
        let expected = (turns * core::f64::consts::TAU).sin() as f32;
        let (index, past) = place(phase);
        assert!(
            (interpolated(&t, index, past) - expected).abs() < 1e-4,
            "sine mismatch at turn {turns}"
        );
    }
}

#[test]
fn cosine_leads_sine_by_a_quarter_cycle() {
    let t = sine_table();
    for k in 0..500 {
        let phase = (k as u64 * 8_000_000) as u32;
        let expected = (phase as f64 / 4294967296.0 * core::f64::consts::TAU).cos() as f32;
        let (index, past) = place(quarter_turn_ahead(phase));
        assert!((interpolated(&t, index, past) - expected).abs() < 1e-4);
    }
}

#[test]
fn generates_a_tone_at_the_requested_rate() {
    let mut nco = tuned(1000.0);
    let n = 480;
    let (c, _) = generate(&mut nco, n);

    // Ten full cycles of a 1 kHz tone fit in 480 samples at 48 kHz.
    for k in 0..n {
        let expected = (TAU * 1000.0 * k as f32 / SR as f32).cos();
        assert!((c[k] - expected).abs() < 1e-3, "cos mismatch at {k}");
    }
}

#[test]
fn quadrature_outputs_stay_on_the_unit_circle() {
    let (c, s) = generate(&mut tuned(7333.0), 4096);
    for k in 0..4096 {
        let mag = (c[k] * c[k] + s[k] * s[k]).sqrt();
        assert!((mag - 1.0).abs() < 1e-3, "magnitude {mag} at {k}");
    }
}

#[test]
fn negative_frequency_rotates_the_opposite_way() {
    let (ca, sa) = generate(&mut tuned(1000.0), 64);
    let (cb, sb) = generate(&mut tuned(-1000.0), 64);

    for k in 0..64 {
        assert!((ca[k] - cb[k]).abs() < 1e-4, "cosine should be even");
        assert!((sa[k] + sb[k]).abs() < 1e-4, "sine should be odd");
    }
}

#[test]
fn phase_accumulator_wraps_without_drifting() {
    // Half a million samples is far past where a recursive rotator would visibly decay.
    let mut nco = tuned(11_000.0);
    let table = sine_table();
    let look = |index: usize, past: u32| interpolated(&table, index, past);
    let mut c = vec![0.0; 8192];
    let mut s = vec![0.0; 8192];
    for _ in 0..64 {
        nco.generate(&mut c, &mut s, &look);
    }
    for k in 0..8192 {
        let mag = (c[k] * c[k] + s[k] * s[k]).sqrt();
        assert!((mag - 1.0).abs() < 1e-3, "amplitude drifted to {mag}");
    }
}

#[test]
fn the_accumulator_is_exact_after_any_number_of_samples() {
    let mut nco = Nco { phase: 17, step: 0xF123_4567 };
    let look = |index: usize, past: u32| (index, past);
    let (mut c, mut s) = (vec![(0, 0); 8192], vec![(0, 0); 8192]);
    for _ in 0..64 {
        nco.generate(&mut c, &mut s, &look);
    }
    let want = 17u32.wrapping_add(0xF123_4567u32.wrapping_mul(64 * 8192));
    assert_eq!(nco.phase, want);
    let last = want.wrapping_sub(0xF123_4567);
    assert_eq!(s[8191], ((last >> 20) as usize, last & 0xF_FFFF));
    let ahead = last.wrapping_add(1 << 30);
    assert_eq!(c[8191], ((ahead >> 20) as usize, ahead & 0xF_FFFF));
    assert_eq!(nco.next(), want);
    nco.reset();
    assert_eq!((nco.phase, nco.step), (0, 0xF123_4567));
    assert_eq!(place(0xFFFF_FFFF), (4095, 1_048_575));
}
