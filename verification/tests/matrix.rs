use num_rust::ext::traits::ToMatrix2d;
use num_rust::Matrix2d;

fn b(x: f64) -> u64 {
    x.to_bits()
}

fn fb(x: u64) -> f64 {
    f64::from_bits(x)
}

fn bits1(v: Vec<f64>) -> Vec<u64> {
    v.into_iter().map(b).collect()
}

fn bits2(v: Vec<Vec<f64>>) -> Vec<Vec<u64>> {
    v.into_iter().map(bits1).collect()
}

fn add_op(x: u64, y: u64) -> u64 {
    b(fb(x) + fb(y))
}

fn sub_op(x: u64, y: u64) -> u64 {
    b(fb(x) - fb(y))
}

fn mul_op(x: u64, y: u64) -> u64 {
    b(fb(x) * fb(y))
}

fn gemm_kernel(a: &Matrix2d, m: &Matrix2d) -> Vec<u64> {
    let rows = a.get_rows();
    let inner = a.get_cols();
    let cols = m.get_cols();
    let mut out = vec![0u64; rows * cols];
    for i in 0..rows {
        for j in 0..cols {
            let mut acc = 0.0f64;
            for t in 0..inner {
                let x = fb(a.get_matrix()[i * a.get_row_stride() + t * a.get_col_stride()]);
                let y = fb(m.get_matrix()[t * m.get_row_stride() + j * m.get_col_stride()]);
                acc += x * y;
            }
            out[i * cols + j] = b(acc);
        }
    }
    out
}

#[test]
fn to_matrix_2d_vec() {
    let vec = bits1(vec![1f64, 2f64, 3f64])
        .to_matrix_2d()
        .expect("1d vec to matrix problem");
    let m = bits2(vec![vec![1f64], vec![2f64], vec![3f64]])
        .to_matrix_2d()
        .expect("2d vec to matrix problem");

    assert!(vec == m);
}

#[test]
fn to_matrix_2d_transpose() {
    let m = bits2(vec![vec![1f64], vec![2f64], vec![3f64]])
        .to_matrix_2d()
        .unwrap();
    let tm = bits2(vec![vec![1f64, 2f64, 3f64]]).to_matrix_2d().unwrap();

    assert!(m.transpose() == tm);
}

#[test]
fn get_matrix2d_col_size() {
    let m = bits2(vec![vec![1f64], vec![2f64], vec![3f64]])
        .to_matrix_2d()
        .unwrap();

    assert!(m.get_cols() == 1usize);
}

#[test]
fn get_matrix2d_row_size() {
    let m = bits2(vec![vec![1f64], vec![2f64], vec![3f64]])
        .to_matrix_2d()
        .unwrap();

    assert!(m.get_rows() == 3usize);
}

#[test]
fn get_matrix2d_col() {
    let m = bits2(vec![vec![1f64], vec![2f64], vec![3f64]])
        .to_matrix_2d()
        .unwrap();

    assert!(m.get_col(0).unwrap() == bits1(vec![1f64, 2f64, 3f64]));
}

#[test]
fn get_matrix2d_row() {
    let m = bits2(vec![vec![1f64], vec![2f64], vec![3f64]])
        .to_matrix_2d()
        .unwrap();

    assert!(m.get_row(0).unwrap() == bits1(vec![1f64]));
}

#[test]
fn dot() {
    let m = bits2(vec![
        vec![5f64, 8f64, -4f64],
        vec![6f64, 9f64, -5f64],
        vec![4f64, 7f64, -2f64],
    ])
    .to_matrix_2d()
    .unwrap();
    let m1 = bits1(vec![2f64, -3f64, 1f64]).to_matrix_2d().unwrap();

    let pm = bits1(vec![-18f64, -20f64, -15f64]).to_matrix_2d().unwrap();

    assert!(m.dot(&m1, gemm_kernel).unwrap() == pm);

    let m = bits2(vec![
        vec![0.0, 0.0, 0.0, 0.0],
        vec![0.0, 0.0, 0.0, 0.0],
        vec![0.0, 0.0, 0.0, 0.0],
    ])
    .to_matrix_2d()
    .unwrap();
    let m1 = bits2(vec![vec![1.0, 2.0, 3.0]]).to_matrix_2d().unwrap();

    let pm = bits2(vec![vec![0.0, 0.0, 0.0, 0.0]]).to_matrix_2d().unwrap();
    assert!(m1.dot(&m, gemm_kernel).unwrap() == pm);
}

#[test]
fn dot_transpose() {
    let m = bits2(vec![vec![1., 2.], vec![3., 4.], vec![5., 6.]])
        .to_matrix_2d()
        .unwrap();
    let tm = m.transpose();
    let dtm = bits2(vec![
        vec![5., 11., 17.],
        vec![11., 25., 39.],
        vec![17., 39., 61.],
    ])
    .to_matrix_2d()
    .unwrap();

    assert!(m.dot(&tm, gemm_kernel).unwrap() == dtm);
}

#[test]
fn apply_fn() {
    let m = bits2(vec![vec![1f64], vec![2f64], vec![3f64]])
        .to_matrix_2d()
        .unwrap();
    let sm = bits2(vec![vec![1f64], vec![4f64], vec![9f64]])
        .to_matrix_2d()
        .unwrap();

    fn squared(x: f64) -> f64 {
        x * x
    }

    let c_squared = |x: u64| -> u64 { b(fb(x) * fb(x)) };

    assert!(m.apply_fn(|x: u64| b(squared(fb(x)))) == sm);
    assert!(m.apply_fn(c_squared) == sm);
}

#[test]
fn scale() {
    let m = bits2(vec![vec![1f64], vec![2f64], vec![3f64]])
        .to_matrix_2d()
        .unwrap();
    let sm = bits2(vec![vec![2f64], vec![4f64], vec![6f64]])
        .to_matrix_2d()
        .unwrap();

    assert!(m.apply_fn(|x: u64| b(fb(x) * 2f64)) == sm);
}

#[test]
fn subtract() {
    let m = bits2(vec![vec![-1f64, 2f64, 0f64], vec![0f64, 3f64, 6f64]])
        .to_matrix_2d()
        .unwrap();
    let m1 = bits2(vec![vec![0f64, -4f64, 3f64], vec![9f64, -4f64, -3f64]])
        .to_matrix_2d()
        .unwrap();
    let sm = bits2(vec![vec![-1f64, 6f64, -3f64], vec![-9f64, 7f64, 9f64]])
        .to_matrix_2d()
        .unwrap();

    assert!(m.combine_elementwise(&m1, sub_op).unwrap() == sm);
}

#[test]
fn add() {
    let m = bits2(vec![vec![-1f64, 2f64, 0f64], vec![0f64, 3f64, 6f64]])
        .to_matrix_2d()
        .unwrap();
    let m1 = bits2(vec![vec![0f64, -4f64, 3f64], vec![9f64, -4f64, -3f64]])
        .to_matrix_2d()
        .unwrap();
    let sm = bits2(vec![vec![-1f64, -2f64, 3f64], vec![9f64, -1f64, 3f64]])
        .to_matrix_2d()
        .unwrap();

    assert!(m.combine_elementwise(&m1, add_op).unwrap() == sm);
}

#[test]
fn mult() {
    let m = bits2(vec![vec![-1f64, 2f64, 0f64], vec![0f64, 3f64, 6f64]])
        .to_matrix_2d()
        .unwrap();
    let m1 = bits2(vec![vec![0f64, -4f64, 3f64], vec![9f64, -4f64, -3f64]])
        .to_matrix_2d()
        .unwrap();
    let sm = bits2(vec![vec![0f64, -8f64, 0f64], vec![0f64, -12f64, -18f64]])
        .to_matrix_2d()
        .unwrap();

    // word-for-word equality tells -0.0 from 0.0 apart, so compare as floats
    let p = m.combine_elementwise(&m1, mul_op).unwrap();
    assert!(p.get_rows() == sm.get_rows() && p.get_cols() == sm.get_cols());
    let pf: Vec<f64> = p.ravel().iter().map(|x| fb(*x)).collect();
    let sf: Vec<f64> = sm.ravel().iter().map(|x| fb(*x)).collect();
    assert!(pf == sf);
}

#[test]
fn ravel() {
    let m = bits2(vec![vec![-1f64, 2f64, 0f64], vec![0f64, 3f64, 6f64]])
        .to_matrix_2d()
        .unwrap();
    let rvec = bits1(vec![-1f64, 2f64, 0f64, 0f64, 3f64, 6f64]);

    assert!(m.ravel() == rvec);
}

#[test]
fn reshape_2d() {
    let m = bits2(vec![vec![-1f64, 2f64, 0f64], vec![0f64, 3f64, 6f64]])
        .reshape(3, 2)
        .unwrap();
    let rm = bits2(vec![vec![-1f64, 2f64], vec![0f64, 0f64], vec![3f64, 6f64]])
        .to_matrix_2d()
        .unwrap();

    assert!(m == rm);
}

#[test]
fn reshape_1d() {
    let m = bits1(vec![-1f64, 2f64, 0f64, 0f64, 3f64, 6f64])
        .reshape(3, 2)
        .unwrap();
    let rm = bits2(vec![vec![-1f64, 2f64], vec![0f64, 0f64], vec![3f64, 6f64]])
        .to_matrix_2d()
        .unwrap();

    assert!(m == rm);
}
