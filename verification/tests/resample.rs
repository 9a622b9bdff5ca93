use sdr_bullet::resample::{gcd, prototype_len, reduce, Convergents, RationalResampler};

fn add_product(acc: i64, tap: i64, sample: i64) -> i64 {
    acc + tap * sample
}

/// Inserts zeros, filters with the whole prototype, and keeps one in `down`.
fn literally(input: &[i64], proto: &[i64], up: usize, down: usize) -> Vec<i64> {
    let fine = input.len() * up;
    (0..fine)
        .step_by(down)
        .map(|c| {
            (0..proto.len())
                .filter(|t| *t <= c && (c - t) % up == 0)
                .map(|t| proto[t] * up as i64 * input[(c - t) / up])
                .sum()
        })
        .collect()
}

#[test]
fn branches_do_what_zero_stuffing_does() {
    for (up, down) in [(1, 1), (1, 5), (3, 2), (2, 3), (5, 7), (7, 5)] {
        let tpp = 4;
        let len = up * tpp;
        let proto: Vec<i64> = (0..len as i64).map(|k| k * k % 13 - 6).collect();
        let input: Vec<i64> = (0..60).map(|k| (k * 7) % 31 - 15).collect();
        let want = literally(&input, &proto, up, down);
        for block in [1usize, 2, 5, 60] {
            let scale = |v: i64| v * up as i64;
            let mut r = RationalResampler::new(up, down, tpp, &proto, 0, &scale);
            let mut got = Vec::new();
            for chunk in input.chunks(block) {
                let mut out = vec![0; r.output_len(chunk.len())];
                let n = r.process(chunk, &mut out, &add_product);
                got.extend_from_slice(&out[..n]);
            }
            assert_eq!(got, want, "{up}/{down} in blocks of {block}");
        }
    }
}

#[test]
fn ratios_are_reduced_first() {
    let keep = |v: i64| v;
    let r = RationalResampler::new(48_000, 240_000, 8, &[1, 2, 3], 0, &keep);
    assert_eq!((r.interp(), r.decim()), (1, 5));
    assert_eq!((r.output_len(0), r.output_len(10), r.output_len(11)), (1, 3, 4));
    assert_eq!(reduce(147, 160), (147, 160));
    assert_eq!(gcd(0, 0), 1);
    assert_eq!(gcd(0, 6), 6);
    assert_eq!(gcd(84, 36), 12);
    assert_eq!(prototype_len(3, 8), 25);
    assert_eq!(prototype_len(3, 7), 21);
}

#[test]
fn a_reset_resampler_starts_over() {
    let scale = |v: i64| v * 3;
    let proto: Vec<i64> = (1..=12).collect();
    let mut r = RationalResampler::new(3, 4, 4, &proto, 0, &scale);
    let input: Vec<i64> = (0..25).collect();
    let mut once = vec![0; r.output_len(25)];
    let n = r.process(&input, &mut once, &add_product);
    r.reset();
    let mut twice = vec![0; r.output_len(25)];
    assert_eq!(r.process(&input, &mut twice, &add_product), n);
    assert_eq!(once, twice);
}

#[test]
fn convergents_approach_in_lowest_terms() {
    let mut c = Convergents::new();
    let mut seen = Vec::new();
    for a in [3usize, 7, 15, 1, 292] {
        if !c.push(a, 2048) {
            break;
        }
        seen.push(c.ratio());
    }
    assert_eq!(seen, vec![(3, 1), (22, 7), (333, 106), (355, 113)]);
    let mut c = Convergents::new();
    assert!(c.push(0, 10));
    assert!(c.push(5, 10));
    assert_eq!(c.ratio(), (1, 5));
    assert!(!c.push(usize::MAX, usize::MAX));
    assert_eq!(c.ratio(), (1, 5));
}
