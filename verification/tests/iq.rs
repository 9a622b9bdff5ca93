use core::f32::consts::TAU;
use sdr_bullet::iq::IqConverter;

/// Offsets, relative gain and skew of the two branches.
#[derive(Debug, Clone, Copy, PartialEq)]
struct Corrections {
    dc_i: f32,
    dc_q: f32,
    gain_q: f32,
    phase: f32,
}

const NEUTRAL: Corrections = Corrections { dc_i: 0.0, dc_q: 0.0, gain_q: 1.0, phase: 0.0 };

fn build_level_table() -> [f32; 256] {
    let mut table = [0.0f32; 256];
    for (i, slot) in table.iter_mut().enumerate() {
        *slot = (i as f32 - 127.5) / 127.5;
    }
    table
}

fn mean(x: &[f32]) -> f32 {
    x.iter().sum::<f32>() / x.len() as f32
}

fn shift_only(c: Corrections, i: f32, q: f32) -> (f32, f32) {
    (i - c.dc_i, q - c.dc_q)
}

fn correct(c: Corrections, i: f32, q: f32) -> (f32, f32) {
    let i = i - c.dc_i;
    let q = (q - c.dc_q) * c.gain_q;
    (i, (q - i * c.phase) / (1.0 - c.phase * c.phase).sqrt())
}

fn measure(i: &[f32], q: &[f32]) -> Corrections {
    let (dc_i, dc_q) = (mean(i), mean(q));
    let n = i.len() as f32;
    let pow_i = i.iter().map(|v| (v - dc_i) * (v - dc_i)).sum::<f32>() / n;
    let pow_q = q.iter().map(|v| (v - dc_q) * (v - dc_q)).sum::<f32>() / n;
    let cross = i.iter().zip(q).map(|(a, b)| (a - dc_i) * (b - dc_q)).sum::<f32>() / n;
    let (gain_q, phase) = if pow_i > 1e-9 && pow_q > 1e-9 {
        (
            (pow_i / pow_q).sqrt(),
            (cross / (pow_i.sqrt() * pow_q.sqrt())).clamp(-0.9, 0.9),
        )
    } else {
        (1.0, 0.0)
    };
    Corrections { dc_i, dc_q, gain_q, phase }
}

fn compose(c: Corrections, left: Corrections) -> Corrections {
    let a = 0.5;
    Corrections {
        dc_i: c.dc_i + left.dc_i * a,
        dc_q: c.dc_q + left.dc_q * a,
        gain_q: c.gain_q * (1.0 + (left.gain_q - 1.0) * a),
        phase: c.phase + left.phase * a,
    }
}

#[test]
fn midscale_bytes_map_near_zero() {
    let table = build_level_table();
    // Offset binary has no exact zero: 127 and 128 straddle it symmetrically.
    assert!((table[127] + table[128]).abs() < 1e-6);
    assert_eq!(table[0], -1.0);
    assert!((table[255] - 1.0).abs() < 0.01);
}

#[test]
fn unpacks_interleaved_pairs_in_order() {
    let mut c = IqConverter::new(build_level_table(), NEUTRAL);
    let bytes = [0u8, 255, 64, 192];
    let mut i = [0.0; 2];
    let mut q = [0.0; 2];
    assert_eq!(c.process(&bytes, &mut i, &mut q, &shift_only, &measure, &compose), 2);

    let t = build_level_table();
    // First block is uncorrected, so values pass through the table untouched.
    assert_eq!(i, [t[0], t[64]]);
    assert_eq!(q, [t[255], t[192]]);
}

#[test]
fn converges_on_a_constant_dc_offset() {
    let mut c = IqConverter::new(build_level_table(), NEUTRAL);

    // A tone offset so that I sits high and Q sits low.
    let n = 1024;
    let bytes: Vec<u8> = (0..n)
        .flat_map(|k| {
            let ph = TAU * 0.01 * k as f32;
            let i = 160.0 + 40.0 * ph.cos();
            let q = 96.0 + 40.0 * ph.sin();
            [i as u8, q as u8]
        })
        .collect();

    let mut i = vec![0.0; n];
    let mut q = vec![0.0; n];
    for _ in 0..40 {
        c.process(&bytes, &mut i, &mut q, &shift_only, &measure, &compose);
    }

    assert!(mean(&i).abs() < 0.01, "I mean not removed: {}", mean(&i));
    assert!(mean(&q).abs() < 0.01, "Q mean not removed: {}", mean(&q));
}

#[test]
fn corrects_a_gain_imbalance_between_branches() {
    let mut c = IqConverter::new(build_level_table(), NEUTRAL);

    // Q deliberately given half the amplitude of I.
    let n = 2048;
    let bytes: Vec<u8> = (0..n)
        .flat_map(|k| {
            let ph = TAU * 0.013 * k as f32;
            let i = 127.5 + 60.0 * ph.cos();
            let q = 127.5 + 30.0 * ph.sin();
            [i as u8, q as u8]
        })
        .collect();

    let mut i = vec![0.0; n];
    let mut q = vec![0.0; n];
    for _ in 0..60 {
        c.process(&bytes, &mut i, &mut q, &correct, &measure, &compose);
    }

    let pi = i.iter().map(|v| v * v).sum::<f32>() / n as f32;
    let pq = q.iter().map(|v| v * v).sum::<f32>() / n as f32;
    let ratio = pi / pq;
    assert!(
        (0.8..1.25).contains(&ratio),
        "branch powers still unbalanced after correction: ratio {ratio}"
    );
}

#[test]
fn reset_discards_learned_state() {
    let mut c = IqConverter::new(build_level_table(), NEUTRAL);
    let bytes = vec![200u8; 512];
    let mut i = vec![0.0; 256];
    let mut q = vec![0.0; 256];
    c.process(&bytes, &mut i, &mut q, &correct, &measure, &compose);
    assert_ne!(c.corrections(), NEUTRAL);

    c.reset();
    assert_eq!(c.corrections(), NEUTRAL);
}

#[test]
fn an_empty_block_teaches_nothing() {
    let mut c = IqConverter::new([0i32; 256], 7i32);
    let keep = |_: i32, i: i32, q: i32| (i, q);
    let count = |i: &[i32], _: &[i32]| i.len() as i32;
    let plus = |a: i32, b: i32| a + b;
    let (mut i, mut q) = (vec![0; 4], vec![0; 4]);
    assert_eq!(c.process(&[], &mut i, &mut q, &keep, &count, &plus), 0);
    assert_eq!(c.corrections(), 7);
    // The first block sets the estimate; the next is composed onto it.
    assert_eq!(c.process(&[1, 2, 3, 4], &mut i, &mut q, &keep, &count, &plus), 2);
    assert_eq!(c.corrections(), 2);
    assert_eq!(c.process(&[1, 2, 3, 4, 5, 6], &mut i, &mut q, &keep, &count, &plus), 3);
    assert_eq!(c.corrections(), 5);
}
