use wavedsp::{
    butterfly_params, compute_index_weight, compute_stage, count_stage, indices, reverse_bits,
    transform, Butterfly, DspError,
};

type Complex = (f32, f32);

/// A forward butterfly: the sum, and the difference rotated by
/// `(cos θ, -sin θ)` with `θ = 2π · numer / denom`, except on the last stage.
fn forward(a: Complex, b: Complex, p: Butterfly) -> (Complex, Complex) {
    let sum = (a.0 + b.0, a.1 + b.1);
    let diff = (a.0 - b.0, a.1 - b.1);
    if p.last {
        return (sum, diff);
    }
    let theta = 2.0 * std::f32::consts::PI * p.numer as f32 / p.denom as f32;
    let (c, s) = (theta.cos(), -theta.sin());
    (sum, (diff.0 * c - diff.1 * s, diff.1 * c + diff.0 * s))
}

#[test]
fn count_stage_of_powers_of_two() {
    assert_eq!(count_stage(1), Ok(0));
    assert_eq!(count_stage(2), Ok(1));
    assert_eq!(count_stage(8), Ok(3));
    assert_eq!(count_stage(1024), Ok(10));
    assert_eq!(count_stage(1usize << 40), Ok(40));
    assert_eq!(count_stage(1usize << (usize::BITS - 1)), Ok(usize::BITS as usize - 1));
}

#[test]
fn count_stage_rejects_other_lengths() {
    for n in [0usize, 3, 6, 7, 12, 1000, usize::MAX] {
        assert_eq!(count_stage(n), Err(DspError::InvalidLength), "length {}", n);
    }
}

#[test]
fn butterfly_params_follow_stage_and_position() {
    assert_eq!(butterfly_params(1, 3, 2, 2), Butterfly { numer: 2, denom: 6, last: false });
    assert_eq!(butterfly_params(2, 3, 1, 5), Butterfly { numer: 2, denom: 7, last: false });
    assert_eq!(butterfly_params(3, 3, 0, 6), Butterfly { numer: 0, denom: 7, last: true });
    assert_eq!(butterfly_params(1, 1, 0, 0), Butterfly { numer: 0, denom: 1, last: true });
}

#[test]
fn index_weights() {
    let expected = [
        (0usize, 0usize, 0usize),
        (0, 3, 0),
        (1, 3, 4),
        (2, 3, 2),
        (3, 3, 6),
        (4, 3, 1),
        (6, 3, 3),
        (7, 3, 7),
        (1, 1, 1),
        (1, 10, 512),
        (1000, 10, 95),
    ];
    for (idx, k, w) in expected {
        assert_eq!(compute_index_weight(idx, k), w, "index {} of {} bits", idx, k);
    }
    assert_eq!(indices(0), vec![0]);
    assert_eq!(indices(2), vec![0, 2, 1, 3]);
    assert_eq!(indices(3), vec![0, 4, 2, 6, 1, 5, 3, 7]);
}

#[test]
fn reverse_bits_permutes_by_reversed_index() {
    let mut v: Vec<u32> = vec![0, 1, 2, 3];
    reverse_bits(&mut v);
    assert_eq!(v, vec![0, 2, 1, 3]);

    let mut v: Vec<u32> = (0..16).collect();
    reverse_bits(&mut v);
    assert_eq!(v, vec![0, 8, 4, 12, 2, 10, 6, 14, 1, 9, 5, 13, 3, 11, 7, 15]);
    reverse_bits(&mut v);
    assert_eq!(v, (0..16).collect::<Vec<u32>>());

    let mut one = vec!['a'];
    reverse_bits(&mut one);
    assert_eq!(one, vec!['a']);
}

#[test]
fn compute_stage_pairs_positions_within_groups() {
    let src: Vec<i64> = vec![1, 2, 3, 4, 5, 6, 7, 8];
    let add_sub = |a: i64, b: i64, _p: Butterfly| (a + b, a - b);
    assert_eq!(compute_stage(&src, 1, 3, &add_sub), vec![6, 8, 10, 12, -4, -4, -4, -4]);
    assert_eq!(compute_stage(&src, 2, 3, &add_sub), vec![4, 6, -2, -2, 12, 14, -2, -2]);
    assert_eq!(compute_stage(&src, 3, 3, &add_sub), vec![3, -1, 7, -1, 11, -1, 15, -1]);
}

#[test]
fn compute_stage_hands_each_pair_its_parameters() {
    let src: Vec<u64> = (0..8).collect();
    let tag = |a: u64, _b: u64, p: Butterfly| (p.numer as u64 * 100 + p.denom as u64, a);
    assert_eq!(compute_stage(&src, 2, 3, &tag), vec![2, 203, 0, 1, 6, 207, 4, 5]);
}

#[test]
fn transform_runs_every_stage() {
    let add_sub = |a: i64, b: i64, _p: Butterfly| (a + b, a - b);
    assert_eq!(transform(vec![1, 2, 3, 4], &add_sub), Ok(vec![10, -4, -2, 0]));
    assert_eq!(
        transform(vec![1, 2, 3, 4, 5, 6, 7, 8], &add_sub),
        Ok(vec![36, -16, -8, 0, -4, 0, 0, 0])
    );
    assert_eq!(transform(vec![9], &add_sub), Ok(vec![9]));
    assert_eq!(transform(vec![1, 2, 3], &add_sub), Err(DspError::InvalidLength));
    assert_eq!(transform(Vec::new(), &add_sub), Err(DspError::InvalidLength));
}

#[test]
fn transform_of_impulse_is_flat() {
    for k in 0..8 {
        let n = 1usize << k;
        let mut x: Vec<Complex> = vec![(0.0, 0.0); n];
        x[0] = (1.0, 0.0);
        let y = transform(x, &forward).unwrap();
        assert_eq!(y.len(), n);
        for (i, v) in y.iter().enumerate() {
            assert!((v.0 - 1.0).abs() < 1e-6 && v.1.abs() < 1e-6, "n {} bin {}: {:?}", n, i, v);
        }
    }
}

#[test]
fn transform_spreads_an_impulse_with_integer_butterfly() {
    let add_sub = |a: i64, b: i64, _p: Butterfly| (a + b, a - b);
    let mut x = vec![0i64; 16];
    x[0] = 5;
    assert_eq!(transform(x, &add_sub), Ok(vec![5; 16]));
}
