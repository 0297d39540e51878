use num_rust::ext::traits::ToMatrix2d;
use num_rust::utils::{frobenius_norm, sum_vec, vec_bin_op};

fn b(x: f64) -> u64 {
    x.to_bits()
}

fn fb(x: u64) -> f64 {
    f64::from_bits(x)
}

fn bits1(v: Vec<f64>) -> Vec<u64> {
    v.into_iter().map(b).collect()
}

fn add_op(x: u64, y: u64) -> u64 {
    b(fb(x) + fb(y))
}

fn mul_op(x: u64, y: u64) -> u64 {
    b(fb(x) * fb(y))
}

#[test]
fn sum_vec_test() {
    assert!(10.0 == fb(sum_vec(&bits1(vec![1.0, 2.0, 3.0, 4.0]), b(0.0), &add_op)));
}

#[test]
fn vec_bin_op_test() {
    let m = bits1(vec![1., 2., 3., 4.]);
    assert!(bits1(vec![1., 4., 9., 16.]) == vec_bin_op(&m, &m, mul_op))
}

#[test]
fn frobenius_norm_test() {
    let m = bits1(vec![1.0, 2.0, 3.0, 4.0]).to_matrix_2d().unwrap();
    let norm = frobenius_norm(&m, mul_op, &add_op, b(0.0), |x: u64| b(fb(x).sqrt()));
    assert!((30f64).sqrt() == fb(norm));
}
