use portfolio_qp::binary64::{exceeds_epsilon, NEG_ONE, ONE, ZERO};
use portfolio_qp::constraints::{build_bounds, build_constraint_matrix};
use portfolio_qp::cost::{build_cost_matrix, linear_cost};

fn bits(values: &[f64]) -> Vec<u64> {
    values.iter().map(|v| v.to_bits()).collect()
}

#[test]
fn constants_are_the_encodings_they_name() {
    assert_eq!(ZERO, 0.0f64.to_bits());
    assert_eq!(ONE, 1.0f64.to_bits());
    assert_eq!(NEG_ONE, (-1.0f64).to_bits());
}

#[test]
fn threshold_test_agrees_with_the_comparison_on_values() {
    let samples = [
        0.0,
        -0.0,
        1e-12,
        -1e-12,
        1.0000000000000002e-12,
        9.999999999999998e-13,
        1e-13,
        -1e-11,
        1.0,
        -1.0,
        5e-324,
        f64::MIN_POSITIVE,
        f64::MAX,
        f64::INFINITY,
        f64::NEG_INFINITY,
        f64::NAN,
        -f64::NAN,
    ];
    for x in samples {
        assert_eq!(exceeds_epsilon(x.to_bits()), x.abs() > 1e-12, "at {x:e}");
    }
}

#[test]
fn cost_matrix_of_two_assets() {
    let cov = bits(&[0.04, 0.01, 0.01, 0.09]);
    let p = build_cost_matrix(2, &cov);
    assert_eq!((p.m, p.n), (2, 2));
    assert_eq!(p.colptr, vec![0, 1, 3]);
    assert_eq!(p.rowval, vec![0, 0, 1]);
    assert_eq!(p.nzval, bits(&[0.04, 0.01, 0.09]));
    assert_eq!(linear_cost(2), bits(&[0.0, 0.0]));
}

#[test]
fn constraint_matrix_of_two_assets() {
    let mean = bits(&[0.05, 0.10]);
    let a = build_constraint_matrix(&mean);
    assert_eq!((a.m, a.n), (4, 2));
    assert_eq!(a.colptr, vec![0, 3, 6]);
    assert_eq!(a.rowval, vec![0, 1, 2, 0, 1, 3]);
    assert_eq!(a.nzval, bits(&[1.0, 0.05, -1.0, 1.0, 0.10, -1.0]));
    assert_eq!(build_bounds(2, 0.075f64.to_bits()), bits(&[1.0, 0.075, 0.0, 0.0]));
}

#[test]
fn threshold_itself_is_not_significant() {
    assert!(!exceeds_epsilon(1e-12f64.to_bits()));
    assert!(!exceeds_epsilon((-1e-12f64).to_bits()));
    assert!(exceeds_epsilon(1e-12f64.to_bits() + 1));
    assert!(!exceeds_epsilon(1e-12f64.to_bits() - 1));
    assert!(exceeds_epsilon(f64::INFINITY.to_bits()));
    assert!(!exceeds_epsilon(f64::NAN.to_bits()));
    assert!(!exceeds_epsilon(0x7FF0_0000_0000_0001));
    assert!(!exceeds_epsilon(0xFFFF_FFFF_FFFF_FFFF));
}

#[test]
fn epsilon_is_ten_to_the_minus_twelve() {
    assert_eq!(portfolio_qp::binary64::EPSILON, 1e-12f64.to_bits());
    assert_eq!(portfolio_qp::binary64::INFINITY, f64::INFINITY.to_bits());
}

#[test]
fn zeros_have_the_length_asked_for() {
    assert_eq!(portfolio_qp::binary64::zeros(0), Vec::<u64>::new());
    assert_eq!(portfolio_qp::binary64::zeros(3), vec![0, 0, 0]);
}

#[test]
fn small_covariances_are_dropped_off_the_diagonal_only() {
    let cov = bits(&[
        0.0, 1e-13, -5e-12, //
        1e-13, 1e-13, f64::NAN, //
        -5e-12, f64::NAN, 2.0,
    ]);
    let p = build_cost_matrix(3, &cov);
    assert_eq!(p.colptr, vec![0, 1, 2, 4]);
    assert_eq!(p.rowval, vec![0, 1, 0, 2]);
    assert_eq!(p.nzval, bits(&[0.0, 1e-13, -5e-12, 2.0]));
    assert!(p.is_well_formed());
}

#[test]
fn lower_triangle_is_never_read() {
    let upper = bits(&[0.04, 0.01, 0.0, 0.09]);
    let other = bits(&[0.04, 0.01, 123.0, 0.09]);
    let a = build_cost_matrix(2, &upper);
    let b = build_cost_matrix(2, &other);
    assert_eq!((a.colptr, a.rowval, a.nzval), (b.colptr, b.rowval, b.nzval));
}

#[test]
fn cost_matrix_round_trip() {
    let values = [
        0.010, 0.002, 1e-14, 0.5, //
        0.002, 0.030, 0.004, -1e-13, //
        1e-14, 0.004, 0.080, 0.0, //
        0.5, -1e-13, 0.0, 0.0,
    ];
    let n = 4;
    let p = build_cost_matrix(n, &bits(&values));
    let dense = p.to_dense();
    assert_eq!(dense.len(), n * n);
    for r in 0..n {
        for c in 0..n {
            let back = f64::from_bits(dense[r * n + c]);
            let given = values[r * n + c];
            if r > c {
                assert_eq!(back, 0.0);
            } else if r == c || given.abs() > 1e-12 {
                assert_eq!(back.to_bits(), given.to_bits());
                assert_eq!(p.get(r, c), Some(given.to_bits()));
            } else {
                assert_eq!(back, 0.0);
                assert!((back - given).abs() <= 1e-12);
                assert_eq!(p.get(r, c), None);
            }
        }
    }
}

#[test]
fn diagonal_is_always_stored() {
    for n in 0..7usize {
        let cov = vec![0u64; n * n];
        let p = build_cost_matrix(n, &cov);
        assert_eq!((p.m, p.n), (n, n));
        assert_eq!(p.colptr, (0..=n).collect::<Vec<usize>>());
        assert_eq!(p.rowval, (0..n).collect::<Vec<usize>>());
        assert_eq!(p.nzval, vec![0u64; n]);
        assert!(p.is_well_formed());
    }
}

#[test]
fn no_assets_give_empty_parts() {
    let p = build_cost_matrix(0, &[]);
    assert_eq!((p.m, p.n), (0, 0));
    assert_eq!(p.colptr, vec![0]);
    assert!(p.rowval.is_empty() && p.nzval.is_empty());
    assert!(linear_cost(0).is_empty());
    let a = build_constraint_matrix(&[]);
    assert_eq!((a.m, a.n), (2, 0));
    assert_eq!(a.colptr, vec![0]);
    assert_eq!(build_bounds(0, 0.3f64.to_bits()), bits(&[1.0, 0.3]));
}

#[test]
fn constraint_matrix_always_has_two_more_rows_than_assets() {
    for n in 0..40usize {
        let mean: Vec<u64> = (0..n).map(|i| (0.01 * i as f64).to_bits()).collect();
        let a = build_constraint_matrix(&mean);
        assert_eq!(a.m, n + 2);
        assert_eq!(a.n, n);
        assert_eq!(a.rowval.len(), 3 * n);
        assert_eq!(build_bounds(n, ONE).len(), n + 2);
        assert!(a.is_well_formed());
        let dense = a.to_dense();
        assert_eq!(dense.len(), (n + 2) * n);
        for c in 0..n {
            assert_eq!(dense[c], ONE);
            assert_eq!(dense[n + c], mean[c]);
            for i in 0..n {
                let expected = if i == c { NEG_ONE } else { ZERO };
                assert_eq!(dense[(2 + i) * n + c], expected);
            }
        }
    }
}

#[test]
fn lookup_outside_the_matrix_finds_nothing() {
    let a = build_constraint_matrix(&bits(&[0.05, 0.10]));
    assert_eq!(a.get(0, 0), Some(ONE));
    assert_eq!(a.get(1, 1), Some(0.10f64.to_bits()));
    assert_eq!(a.get(2, 0), Some(NEG_ONE));
    assert_eq!(a.get(3, 0), None);
    assert_eq!(a.get(2, 1), None);
    assert_eq!(a.get(4, 0), None);
    assert_eq!(a.get(0, 2), None);
}
