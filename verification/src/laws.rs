//! The library's general laws, stated once over the spec functions that the
//! public contracts use and proved for every input they admit.

use crate::matrix::Matrix2d;
use crate::utils::{bin_val, un_val};
use vstd::prelude::*;

verus! {

/// A matrix built from a sequence of rows reads every row back unchanged:
/// when the logical content equals `rows`, row `i` is exactly `rows[i]`.
/// `to_matrix_2d` establishes the hypothesis and `get_row` hands out
/// `row_seq`, so together they return the rows a matrix was built from.
pub proof fn lemma_from_rows_get_row(m: Matrix2d, rows: Seq<Seq<u64>>, i: int)
    requires
        m.wf(),
        m@ == rows,
        0 <= i < rows.len(),
    ensures
        m.row_seq(i) == rows[i],
{
    assert(m@[i] == rows[i]);
}

/// Transposing twice gives the matrix back: the shape, the strides and
/// every buffered word return to what they were.
pub proof fn lemma_transpose_involution(m: Matrix2d)
    requires
        m.wf(),
    ensures
        m.transpose_spec().wf(),
        m.transpose_spec().transpose_spec().obs_eq(m),
        m.transpose_spec().transpose_spec()@ == m@,
{
    assert(m.n_cols * m.n_rows == m.n_rows * m.n_cols) by (nonlinear_arith);
    let u = m.transpose_spec().transpose_spec();
    assert(u@ =~~= m@);
}

/// Combining two buffers with an operator and then with an exact inverse of
/// it returns the first buffer word for word: `w1` combines `u` and `v`
/// under `f`, `w2` combines `w1` and `v` under `g`, and `g` undoes `f`.
pub proof fn lemma_bin_op_inverse<F: Fn(u64, u64) -> u64, G: Fn(u64, u64) -> u64>(
    f: F,
    g: G,
    u: Seq<u64>,
    v: Seq<u64>,
    w1: Seq<u64>,
    w2: Seq<u64>,
)
    requires
        u.len() == v.len(),
        w1.len() == u.len(),
        w2.len() == u.len(),
        forall|x: u64, y: u64| #[trigger] bin_val(g, bin_val(f, x, y), y) == x,
        forall|i: int| 0 <= i < u.len() ==> w1[i] == bin_val(f, u[i], v[i]),
        forall|i: int| 0 <= i < u.len() ==> w2[i] == bin_val(g, w1[i], v[i]),
    ensures
        w2 == u,
{
    assert(w2 =~= u);
}

/// Any two outputs of the elementwise binary engines on the same inputs and
/// the same pure operator are identical word for word; in particular the
/// fork-join engine returns exactly what the sequential engine returns,
/// whatever the chunk size and task schedule.
pub proof fn lemma_threaded_matches_sequential<F: Fn(u64, u64) -> u64>(
    f: F,
    u: Seq<u64>,
    v: Seq<u64>,
    a: Seq<u64>,
    b: Seq<u64>,
)
    requires
        u.len() == v.len(),
        a.len() == u.len(),
        b.len() == u.len(),
        forall|i: int| 0 <= i < u.len() ==> a[i] == bin_val(f, u[i], v[i]),
        forall|i: int| 0 <= i < u.len() ==> b[i] == bin_val(f, u[i], v[i]),
    ensures
        a == b,
{
    assert(a =~= b);
}

/// The unary twin: any two outputs of the elementwise unary engines on the
/// same input and the same pure operator are identical word for word.
pub proof fn lemma_fn_threaded_matches_sequential<F: Fn(u64) -> u64>(
    f: F,
    u: Seq<u64>,
    a: Seq<u64>,
    b: Seq<u64>,
)
    requires
        a.len() == u.len(),
        b.len() == u.len(),
        forall|i: int| 0 <= i < u.len() ==> a[i] == un_val(f, u[i]),
        forall|i: int| 0 <= i < u.len() ==> b[i] == un_val(f, u[i]),
    ensures
        a == b,
{
    assert(a =~= b);
}

} // verus!
