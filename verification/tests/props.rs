use num_rust::ext::traits::ToMatrix2d;
use num_rust::utils::{
    get_chunk_size, vec_bin_op, vec_bin_op_mut, vec_bin_op_threaded, vec_fn_op_mut,
    vec_fn_op_threaded,
};
use num_rust::Matrix2d;

fn b(x: f64) -> u64 {
    x.to_bits()
}

fn fb(x: u64) -> f64 {
    f64::from_bits(x)
}

fn bits1(v: Vec<f64>) -> Vec<u64> {
    v.into_iter().map(b).collect()
}

fn bits2(v: Vec<Vec<f64>>) -> Vec<Vec<u64>> {
    v.into_iter().map(bits1).collect()
}

fn floats1(v: &[u64]) -> Vec<f64> {
    v.iter().map(|x| fb(*x)).collect()
}

fn add_op(x: u64, y: u64) -> u64 {
    b(fb(x) + fb(y))
}

fn sub_op(x: u64, y: u64) -> u64 {
    b(fb(x) - fb(y))
}

fn mul_op(x: u64, y: u64) -> u64 {
    b(fb(x) * fb(y))
}

fn gemm_kernel(a: &Matrix2d, m: &Matrix2d) -> Vec<u64> {
    let rows = a.get_rows();
    let inner = a.get_cols();
    let cols = m.get_cols();
    let mut out = vec![0u64; rows * cols];
    for i in 0..rows {
        for j in 0..cols {
            let mut acc = 0.0f64;
            for t in 0..inner {
                let x = fb(a.get_matrix()[i * a.get_row_stride() + t * a.get_col_stride()]);
                let y = fb(m.get_matrix()[t * m.get_row_stride() + j * m.get_col_stride()]);
                acc += x * y;
            }
            out[i * cols + j] = b(acc);
        }
    }
    out
}

#[test]
fn from_sequence_rows_read_back() {
    let rows = vec![vec![1.5, -2.0, 3.25], vec![0.0, 7.0, -8.5]];
    let m = bits2(rows.clone()).to_matrix_2d().unwrap();
    for i in 0..rows.len() {
        assert_eq!(floats1(&m.get_row(i).unwrap()), rows[i]);
    }
}

#[test]
fn transpose_involution() {
    let m = bits2(vec![vec![1., 2., 3.], vec![4., 5., 6.]])
        .to_matrix_2d()
        .unwrap();
    let tt = m.transpose().transpose();
    assert!(tt == m);
    assert_eq!(tt.get_row_stride(), m.get_row_stride());
    assert_eq!(tt.get_col_stride(), m.get_col_stride());
}

#[test]
fn dot_shapes_and_mismatch() {
    let m = bits2(vec![vec![1., 2., 3.], vec![4., 5., 6.]])
        .to_matrix_2d()
        .unwrap();
    let n = bits2(vec![vec![1.], vec![2.], vec![3.]])
        .to_matrix_2d()
        .unwrap();
    let p = m.dot(&n, gemm_kernel).unwrap();
    assert_eq!(p.get_rows(), m.get_rows());
    assert_eq!(p.get_cols(), n.get_cols());
    assert!(n.dot(&m, gemm_kernel).is_none());
}

#[test]
fn addition_then_subtraction_returns_left_operand() {
    let m = bits2(vec![vec![0.1, -2.75, 3.5], vec![1e-3, 7.25, -0.625]])
        .to_matrix_2d()
        .unwrap();
    let n = bits2(vec![vec![2.5, 0.3, -1.25], vec![4.0, -0.75, 9.5]])
        .to_matrix_2d()
        .unwrap();
    let back = m
        .combine_elementwise(&n, add_op)
        .unwrap()
        .combine_elementwise(&n, sub_op)
        .unwrap();
    let a = floats1(&m.ravel());
    let c = floats1(&back.ravel());
    for i in 0..a.len() {
        assert!((a[i] - c[i]).abs() < 1e-12);
    }
}

#[test]
fn frobenius_norm_matches_reference_sum() {
    let vals = vec![0.5, -1.25, 2.0, 3.5, -4.75, 0.125, 6.0, -7.5, 8.25, 9.0];
    let m = bits1(vals.clone()).to_matrix_2d().unwrap();
    let norm = fb(num_rust::utils::frobenius_norm(
        &m,
        mul_op,
        &add_op,
        b(0.0),
        |x: u64| b(fb(x).sqrt()),
    ));
    let reference: f64 = vals.iter().map(|x| x * x).sum::<f64>().sqrt();
    assert!((norm - reference).abs() < 1e-9);
}

#[test]
fn threaded_bin_op_matches_sequential() {
    for len in [0usize, 1, 2, 7, 8, 9, 64, 1000] {
        let u: Vec<u64> = (0..len).map(|i| b(i as f64 * 0.5 - 3.0)).collect();
        let v: Vec<u64> = (0..len).map(|i| b(1.0 - i as f64)).collect();
        let chunk = get_chunk_size(&u, &v);
        let seq = vec_bin_op(&u, &v, add_op);
        let par = vec_bin_op_threaded(&u, &v, chunk, &add_op);
        assert_eq!(seq, par);
        let tiny = vec_bin_op_threaded(&u, &v, 1, &add_op);
        let huge = vec_bin_op_threaded(&u, &v, len + 7, &add_op);
        assert_eq!(seq, tiny);
        assert_eq!(seq, huge);
    }
}

#[test]
fn threaded_fn_op_matches_sequential() {
    for len in [0usize, 1, 5, 8, 33, 256] {
        let u: Vec<u64> = (0..len).map(|i| b(i as f64 - 2.5)).collect();
        let neg = |x: u64| b(-fb(x));
        let mut seq = vec![0u64; len];
        vec_fn_op_mut(&u, &mut seq, &neg);
        let par = vec_fn_op_threaded(&u, 3, &neg);
        assert_eq!(seq, par);
    }
}

#[test]
fn elementwise_ops_read_through_strides() {
    let m = bits2(vec![vec![1., 2.], vec![3., 4.]]).to_matrix_2d().unwrap();
    let n = bits2(vec![vec![5., 6.], vec![7., 8.]]).to_matrix_2d().unwrap();
    // a transposed view, logically [[5, 7], [6, 8]]
    let tn = n.transpose();
    let sum = m.combine_elementwise(&tn, add_op).unwrap();
    assert_eq!(floats1(&sum.get_row(0).unwrap()), vec![6., 9.]);
    assert_eq!(floats1(&sum.get_row(1).unwrap()), vec![9., 12.]);
    let diff = m.combine_elementwise(&tn, sub_op).unwrap();
    assert_eq!(floats1(&diff.get_row(0).unwrap()), vec![-4., -5.]);
    assert_eq!(floats1(&diff.get_row(1).unwrap()), vec![-3., -4.]);
    let prod = m.combine_elementwise(&tn, mul_op).unwrap();
    assert_eq!(floats1(&prod.get_row(0).unwrap()), vec![5., 14.]);
    assert_eq!(floats1(&prod.get_row(1).unwrap()), vec![18., 32.]);
    // a transposed view on the left is read logically as well
    let sum2 = tn.combine_elementwise(&m, add_op).unwrap();
    assert_eq!(floats1(&sum2.get_row(0).unwrap()), vec![6., 9.]);
    assert_eq!(floats1(&sum2.get_row(1).unwrap()), vec![9., 12.]);
}

#[test]
fn chunk_size_is_positive_and_bounded() {
    let u = vec![0u64; 10];
    let v = vec![0u64; 10];
    let chunk = get_chunk_size(&u, &v);
    assert!(chunk >= 1 && chunk <= 10);
    let empty: Vec<u64> = Vec::new();
    assert_eq!(get_chunk_size(&empty, &empty), 0);
}

#[test]
fn bin_op_mut_writes_every_slot() {
    let u = bits1(vec![1., 2., 3.]);
    let v = bits1(vec![10., 20., 30.]);
    let mut dst = vec![0u64; 3];
    vec_bin_op_mut(&u, &v, &mut dst, &add_op);
    assert_eq!(floats1(&dst), vec![11., 22., 33.]);
}

#[test]
fn reshape_rejects_non_dividing_shape() {
    let v = bits1(vec![-1., 2., 0., 0., 3., 6.]);
    let m = v.reshape(3, 2).unwrap();
    assert_eq!(floats1(&m.get_row(1).unwrap()), vec![0., 0.]);
    assert!(v.reshape(2, 4).is_none());
    assert!(v.reshape(3, 4).is_none());
    assert!(v.reshape(1, 0).is_none());
}

#[test]
fn mini_batch_sizes_and_order() {
    let m = bits2(vec![
        vec![1., 10.],
        vec![2., 20.],
        vec![3., 30.],
        vec![4., 40.],
        vec![5., 50.],
    ])
    .to_matrix_2d()
    .unwrap();
    let batches = m.mini_batch(2);
    let sizes: Vec<usize> = batches.iter().map(|g| g.get_rows()).collect();
    assert_eq!(sizes, vec![2, 2, 1]);
    let mut row = 0usize;
    for g in batches.iter() {
        for i in 0..g.get_rows() {
            assert_eq!(g.get_row(i).unwrap(), m.get_row(row).unwrap());
            row += 1;
        }
    }
}

#[test]
fn shuffle_is_seed_deterministic() {
    let m = bits2(vec![
        vec![1., 2.],
        vec![3., 4.],
        vec![5., 6.],
        vec![7., 8.],
    ])
    .to_matrix_2d()
    .unwrap();
    let seed: Vec<usize> = vec![4, 8, 15, 16, 23, 42];
    let a = m.shuffle(&seed);
    let c = m.shuffle(&seed);
    assert!(a == c);
    let originals: Vec<Vec<u64>> = (0..m.get_rows()).map(|i| m.get_row(i).unwrap()).collect();
    for r in 0..a.get_rows() {
        let row = a.get_row(r).unwrap();
        assert!(originals.iter().any(|o| *o == row));
    }
}

#[test]
fn normalize_scales_each_column_by_its_magnitude() {
    let m = bits2(vec![vec![1., -2.], vec![-3., 4.]])
        .to_matrix_2d()
        .unwrap();
    let max_abs = |acc: u64, x: u64| {
        if fb(acc) < fb(x).abs() {
            b(fb(x).abs())
        } else {
            acc
        }
    };
    let div_op = |x: u64, d: u64| b(fb(x) / fb(d));
    let out = m.normalize(&max_abs, b(0.0), &div_op);
    let got = floats1(&out.ravel());
    assert_eq!(got, vec![1.0 / 3.0, -0.5, -1.0, 1.0]);
}

#[test]
fn normalize_zero_column_propagates_nan() {
    let m = bits2(vec![vec![0., 1.], vec![0., 2.]]).to_matrix_2d().unwrap();
    let max_abs = |acc: u64, x: u64| {
        if fb(acc) < fb(x).abs() {
            b(fb(x).abs())
        } else {
            acc
        }
    };
    let div_op = |x: u64, d: u64| b(fb(x) / fb(d));
    let out = m.normalize(&max_abs, b(0.0), &div_op);
    assert!(fb(out.get_col(0).unwrap()[0]).is_nan());
}

#[test]
fn out_of_range_and_shape_errors_are_absent_results() {
    let m = bits2(vec![vec![1., 2.], vec![3., 4.]]).to_matrix_2d().unwrap();
    assert!(m.get_row(2).is_none());
    assert!(m.get_col(2).is_none());
    let other = bits2(vec![vec![1., 2., 3.]]).to_matrix_2d().unwrap();
    assert!(m.combine_elementwise(&other, add_op).is_none());
    let empty: Vec<Vec<u64>> = Vec::new();
    assert!(empty.to_matrix_2d().is_none());
    let jagged = bits2(vec![vec![1., 2.], vec![3.]]);
    assert!(jagged.to_matrix_2d().is_none());
}

#[test]
fn new_matrix_is_zero_filled() {
    let m = Matrix2d::new(2, 3);
    assert_eq!(m.get_rows(), 2);
    assert_eq!(m.get_cols(), 3);
    assert_eq!(floats1(&m.ravel()), vec![0.0; 6]);
}
