//! The strided matrix: a flat buffer of 64-bit words together with a shape
//! and a pair of strides.  The word at logical row `r`, column `c` lives at
//! buffer position `r * rs + c * cs`.  A row-major matrix has `rs == n_cols`
//! and `cs == 1`; transposing swaps the shape and the strides and leaves the
//! buffer as it is, so the strides of a transposed view are `rs == 1` and
//! `cs == n_rows`.

use crate::utils::{
    bin_op_pure, bin_val, fold_val, fold_with, lemma_bin_val, lemma_un_val, un_op_pure, un_val,
    vec_bin_op,
};
use vstd::arithmetic::mul::lemma_mul_is_distributive_add_other_way;
use vstd::prelude::*;

verus! {

pub struct Matrix2d {
    pub n_rows: usize,
    pub n_cols: usize,
    pub rs: usize,
    pub cs: usize,
    pub matrix: Vec<u64>,
}

impl Matrix2d {
    /// Buffer position of the entry at logical row `r`, column `c`.
    pub open spec fn slot(self, r: int, c: int) -> int {
        r * self.rs + c * self.cs
    }

    /// The word at logical row `r`, column `c`.
    pub open spec fn cell(self, r: int, c: int) -> u64 {
        self.matrix@[self.slot(r, c)]
    }

    /// The words of row `r`, in column order.
    pub open spec fn row_seq(self, r: int) -> Seq<u64> {
        Seq::new(self.n_cols as nat, |c: int| self.cell(r, c))
    }

    /// The words of column `c`, in row order.
    pub open spec fn col_seq(self, c: int) -> Seq<u64> {
        Seq::new(self.n_rows as nat, |r: int| self.cell(r, c))
    }

    /// The value transposing describes: shape and strides exchanged over the
    /// same buffer.
    pub open spec fn transpose_spec(self) -> Matrix2d {
        Matrix2d {
            n_rows: self.n_cols,
            n_cols: self.n_rows,
            rs: self.cs,
            cs: self.rs,
            matrix: self.matrix,
        }
    }

    /// Observational equality: same shape, same strides, and the same words
    /// in the buffer.
    pub open spec fn obs_eq(self, other: Matrix2d) -> bool {
        &&& self.n_rows == other.n_rows
        &&& self.n_cols == other.n_cols
        &&& self.rs == other.rs
        &&& self.cs == other.cs
        &&& self.matrix@ == other.matrix@
    }

    /// A well-formed matrix: the buffer holds exactly one word per logical
    /// entry, and the strides describe either the row-major layout or its
    /// transpose.
    pub open spec fn wf(self) -> bool {
        &&& self.matrix@.len() == self.n_rows * self.n_cols
        &&& ((self.rs == self.n_cols && self.cs == 1) || (self.rs == 1 && self.cs
            == self.n_rows))
    }
}

/// Every logical entry of a well-formed matrix lies inside the buffer, and
/// the partial products taken on the way to its position fit under it.
pub proof fn lemma_slot_in_bounds(m: Matrix2d, r: int, c: int)
    requires
        m.wf(),
        0 <= r < m.n_rows,
        0 <= c < m.n_cols,
    ensures
        0 <= m.slot(r, c) < m.matrix@.len(),
        r * m.rs <= m.slot(r, c),
        c * m.cs <= m.slot(r, c),
{
    assert(0 <= m.slot(r, c) < m.n_rows * m.n_cols && r * m.rs <= m.slot(r, c) && c * m.cs
        <= m.slot(r, c)) by (nonlinear_arith)
        requires
            0 <= r < m.n_rows,
            0 <= c < m.n_cols,
            ((m.rs == m.n_cols && m.cs == 1) || (m.rs == 1 && m.cs == m.n_rows)),
    ;
}

/// Distinct logical entries of a well-formed matrix occupy distinct buffer
/// positions.
pub proof fn lemma_slot_injective(m: Matrix2d, r1: int, c1: int, r2: int, c2: int)
    requires
        m.wf(),
        0 <= r1 < m.n_rows,
        0 <= c1 < m.n_cols,
        0 <= r2 < m.n_rows,
        0 <= c2 < m.n_cols,
        m.slot(r1, c1) == m.slot(r2, c2),
    ensures
        r1 == r2 && c1 == c2,
{
    assert(r1 == r2 && c1 == c2) by (nonlinear_arith)
        requires
            0 <= r1 < m.n_rows,
            0 <= c1 < m.n_cols,
            0 <= r2 < m.n_rows,
            0 <= c2 < m.n_cols,
            r1 * m.rs + c1 * m.cs == r2 * m.rs + c2 * m.cs,
            ((m.rs == m.n_cols && m.cs == 1) || (m.rs == 1 && m.cs == m.n_rows)),
    ;
}

impl Matrix2d {
    /// Reads one entry through the stride mapping.
    pub fn cell_at(&self, r: usize, c: usize) -> (x: u64)
        requires
            self.wf(),
            r < self.n_rows,
            c < self.n_cols,
        ensures
            x == self.cell(r as int, c as int),
    {
        // an exec read of the length puts its usize bound in scope
        let _n: usize = self.matrix.len();
        proof {
            lemma_slot_in_bounds(*self, r as int, c as int);
        }
        self.matrix[r * self.rs + c * self.cs]
    }

    /// Builds a row-major matrix from equal-length rows, laid out one row
    /// after the other.
    pub fn from_vec(vec: &Vec<Vec<u64>>) -> (m: Matrix2d)
        requires
            vec@.len() > 0,
            forall|i: int| 0 <= i < vec@.len() ==> (#[trigger] vec@[i])@.len() == vec@[0]@.len(),
        ensures
            m.wf(),
            m.n_rows == vec@.len(),
            m.n_cols == vec@[0]@.len(),
            m.rs == m.n_cols,
            m.cs == 1,
            forall|r: int, c: int|
                0 <= r < m.n_rows && 0 <= c < m.n_cols ==> m.cell(r, c) == vec@[r]@[c],
            m.matrix@ == vec.deep_view().flatten(),
            m@ == vec.deep_view(),
    {
        let n_rows: usize = vec.len();
        let n_cols: usize = vec[0].len();
        let mut data: Vec<u64> = Vec::new();
        let mut i: usize = 0;
        while i < n_rows
            invariant
                i <= n_rows,
                n_rows == vec@.len(),
                n_cols == vec@[0]@.len(),
                forall|k: int| 0 <= k < vec@.len() ==> (#[trigger] vec@[k])@.len() == n_cols,
                data@.len() == i * n_cols,
                data@ == vec.deep_view().take(i as int).flatten_alt(),
                forall|r: int, c: int|
                    0 <= r < i && 0 <= c < n_cols ==> data@[r * (n_cols as int) + c] == vec@[r]@[c],
            decreases n_rows - i,
        {
            let ghost prev = data@;
            let mut j: usize = 0;
            while j < n_cols
                invariant
                    j <= n_cols,
                    i < n_rows,
                    n_rows == vec@.len(),
                    n_cols == vec@[0]@.len(),
                    forall|k: int| 0 <= k < vec@.len() ==> (#[trigger] vec@[k])@.len() == n_cols,
                    data@ == prev + vec@[i as int]@.take(j as int),
                decreases n_cols - j,
            {
                let row: &Vec<u64> = &vec[i];
                data.push(row[j]);
                proof {
                    assert(data@ =~= prev + vec@[i as int]@.take(j + 1));
                }
                j += 1;
            }
            proof {
                let dv = vec.deep_view();
                assert(vec@[i as int]@.take(n_cols as int) =~= dv[i as int]);
                assert(dv.take(i + 1).drop_last() =~= dv.take(i as int));
                assert(dv.take(i + 1).last() == dv[i as int]);
                assert(data@ =~= dv.take(i + 1).flatten_alt());
                lemma_mul_is_distributive_add_other_way(n_cols as int, i as int, 1);
                let n: int = n_cols as int;
                assert forall|r: int, c: int|
                    0 <= r < i + 1 && 0 <= c < n_cols implies data@[r * n + c] == vec@[r]@[c] by {
                    if r < i {
                        assert(0 <= r * n + c < i * n) by (nonlinear_arith)
                            requires
                                0 <= r < i,
                                0 <= c < n,
                        ;
                        assert(prev[r * n + c] == vec@[r]@[c]);
                    } else {
                        assert(vec@[i as int]@[c] == data@[i * n + c]);
                    }
                }
            }
            i += 1;
        }
        proof {
            let dv = vec.deep_view();
            assert(dv.take(n_rows as int) =~= dv);
            dv.lemma_flatten_and_flatten_alt_are_equivalent();
            assert(n_rows * n_cols == data@.len());
        }
        let m = Matrix2d { n_rows, n_cols, rs: n_cols, cs: 1, matrix: data };
        proof {
            assert(forall|r: int, c: int|
                0 <= r < m.n_rows && 0 <= c < m.n_cols ==> m.slot(r, c) == r * (n_cols as int) + c);
            assert(m@ =~~= vec.deep_view());
        }
        m
    }

    /// A zero-filled row-major matrix of the given shape.
    pub fn new(n_rows: usize, n_cols: usize) -> (m: Matrix2d)
        requires
            n_rows * n_cols <= usize::MAX,
        ensures
            m.wf(),
            m.n_rows == n_rows,
            m.n_cols == n_cols,
            m.rs == n_cols,
            m.cs == 1,
            forall|i: int| 0 <= i < m.matrix@.len() ==> m.matrix@[i] == 0,
    {
        let total: usize = n_rows * n_cols;
        let mut data: Vec<u64> = Vec::new();
        let mut i: usize = 0;
        while i < total
            invariant
                i <= total,
                data@.len() == i,
                forall|j: int| 0 <= j < i ==> data@[j] == 0,
            decreases total - i,
        {
            data.push(0);
            i += 1;
        }
        Matrix2d { n_rows, n_cols, rs: n_cols, cs: 1, matrix: data }
    }

    /// Number of columns.
    pub fn get_cols(&self) -> (n: usize)
        ensures
            n == self.n_cols,
    {
        self.n_cols
    }

    /// Number of rows.
    pub fn get_rows(&self) -> (n: usize)
        ensures
            n == self.n_rows,
    {
        self.n_rows
    }

    /// Buffer distance between vertically adjacent entries.
    pub fn get_row_stride(&self) -> (n: usize)
        ensures
            n == self.rs,
    {
        self.rs
    }

    /// Buffer distance between horizontally adjacent entries.
    pub fn get_col_stride(&self) -> (n: usize)
        ensures
            n == self.cs,
    {
        self.cs
    }

    /// The backing buffer, in storage order.
    pub fn get_matrix(&self) -> (v: &Vec<u64>)
        ensures
            v@ == self.matrix@,
    {
        &self.matrix
    }

    /// Mutable access to the backing buffer, in storage order; the shape and
    /// the strides stay as they are, and the buffer ends up holding whatever
    /// the caller leaves behind the borrow.
    pub fn get_matrix_mut(&mut self) -> (v: &mut Vec<u64>)
        ensures
            *v == old(self).matrix,
            final (self).matrix == *final (v),
            final (self).n_rows == old(self).n_rows,
            final (self).n_cols == old(self).n_cols,
            final (self).rs == old(self).rs,
            final (self).cs == old(self).cs,
    {
        &mut self.matrix
    }

    /// The values of one row, or nothing when the index is out of range.
    pub fn get_row(&self, n_row: usize) -> (r: Option<Vec<u64>>)
        requires
            self.wf(),
        ensures
            r.is_some() <==> n_row < self.n_rows,
            r matches Some(v) ==> v@ == self.row_seq(n_row as int),
    {
        if n_row >= self.n_rows {
            return None;
        }
        let mut out: Vec<u64> = Vec::new();
        let mut c: usize = 0;
        while c < self.n_cols
            invariant
                self.wf(),
                n_row < self.n_rows,
                c <= self.n_cols,
                out@.len() == c,
                forall|j: int| 0 <= j < c ==> out@[j] == self.cell(n_row as int, j),
            decreases self.n_cols - c,
        {
            out.push(self.cell_at(n_row, c));
            c += 1;
        }
        proof {
            assert(out@ =~= self.row_seq(n_row as int));
        }
        Some(out)
    }

    /// The values of one column, or nothing when the index is out of range.
    pub fn get_col(&self, n_col: usize) -> (r: Option<Vec<u64>>)
        requires
            self.wf(),
        ensures
            r.is_some() <==> n_col < self.n_cols,
            r matches Some(v) ==> v@ == self.col_seq(n_col as int),
    {
        if n_col >= self.n_cols {
            return None;
        }
        let mut out: Vec<u64> = Vec::new();
        let mut r: usize = 0;
        while r < self.n_rows
            invariant
                self.wf(),
                n_col < self.n_cols,
                r <= self.n_rows,
                out@.len() == r,
                forall|j: int| 0 <= j < r ==> out@[j] == self.cell(j, n_col as int),
            decreases self.n_rows - r,
        {
            out.push(self.cell_at(r, n_col));
            r += 1;
        }
        proof {
            assert(out@ =~= self.col_seq(n_col as int));
        }
        Some(out)
    }

    /// The same entries seen with rows and columns exchanged: shape and
    /// strides swap, the buffer is carried over unchanged.
    pub fn transpose(&self) -> (t: Matrix2d)
        requires
            self.wf(),
        ensures
            t.wf(),
            t.n_rows == self.n_cols,
            t.n_cols == self.n_rows,
            t.rs == self.cs,
            t.cs == self.rs,
            t.matrix@ == self.matrix@,
            t.obs_eq(self.transpose_spec()),
            forall|r: int, c: int|
                0 <= r < t.n_rows && 0 <= c < t.n_cols ==> t.cell(r, c) == self.cell(c, r),
    {
        proof {
            assert(self.n_cols * self.n_rows == self.n_rows * self.n_cols) by (nonlinear_arith);
        }
        Matrix2d {
            n_rows: self.n_cols,
            n_cols: self.n_rows,
            rs: self.cs,
            cs: self.rs,
            matrix: clone_data(&self.matrix),
        }
    }

    /// The backing buffer flattened in storage order.  For a transposed view
    /// this is the storage order of the matrix it was made from, not the
    /// view's own row-major traversal.
    pub fn ravel(&self) -> (v: Vec<u64>)
        ensures
            v@ == self.matrix@,
    {
        clone_data(&self.matrix)
    }

    /// Reinterprets the buffer with a new shape, in row-major order.  The
    /// shape is accepted exactly when it conserves the number of entries:
    /// the length must be divisible by `n_cols` with quotient `n_rows`.
    pub fn reshape(&self, n_rows: usize, n_cols: usize) -> (r: Option<Matrix2d>)
        ensures
            r.is_some() <==> (n_cols > 0 && self.matrix@.len() == n_rows * n_cols),
            r matches Some(m) ==> {
                &&& m.wf()
                &&& m.n_rows == n_rows
                &&& m.n_cols == n_cols
                &&& m.rs == n_cols
                &&& m.cs == 1
                &&& m.matrix@ == self.matrix@
            },
    {
        reshape_data(&self.matrix, n_rows, n_cols)
    }

    /// Builds a row-major matrix of the given shape straight from a flat
    /// buffer, under the same conservation check as `reshape`.
    pub fn reshape_from_vec(vec: &Vec<u64>, n_rows: usize, n_cols: usize) -> (r: Option<Matrix2d>)
        ensures
            r.is_some() <==> (n_cols > 0 && vec@.len() == n_rows * n_cols),
            r matches Some(m) ==> {
                &&& m.wf()
                &&& m.n_rows == n_rows
                &&& m.n_cols == n_cols
                &&& m.rs == n_cols
                &&& m.cs == 1
                &&& m.matrix@ == vec@
            },
    {
        reshape_data(vec, n_rows, n_cols)
    }
}

impl Matrix2d {
    /// A contiguous row-major copy with the same logical content, each entry
    /// read through the stride mapping.
    fn to_row_major(&self) -> (out: Matrix2d)
        requires
            self.wf(),
        ensures
            out.wf(),
            out.n_rows == self.n_rows,
            out.n_cols == self.n_cols,
            out.rs == self.n_cols,
            out.cs == 1,
            forall|rr: int, cc: int|
                0 <= rr < self.n_rows && 0 <= cc < self.n_cols ==> #[trigger] out.cell(rr, cc)
                    == self.cell(rr, cc),
    {
        if self.n_rows == 0 {
            let out = Matrix2d {
                n_rows: self.n_rows,
                n_cols: self.n_cols,
                rs: self.n_cols,
                cs: 1,
                matrix: Vec::new(),
            };
            proof {
                assert(out.n_rows * out.n_cols == 0) by (nonlinear_arith)
                    requires
                        out.n_rows == 0,
                ;
            }
            return out;
        }
        let mut rows: Vec<Vec<u64>> = Vec::new();
        let mut i: usize = 0;
        while i < self.n_rows
            invariant
                self.wf(),
                i <= self.n_rows,
                rows@.len() == i,
                forall|j: int| 0 <= j < i ==> (#[trigger] rows@[j])@ == self.row_seq(j),
            decreases self.n_rows - i,
        {
            rows.push(self.get_row(i).unwrap());
            i += 1;
        }
        let out = Matrix2d::from_vec(&rows);
        proof {
            assert forall|rr: int, cc: int|
                0 <= rr < self.n_rows && 0 <= cc < self.n_cols implies #[trigger] out.cell(rr, cc)
                == self.cell(rr, cc) by {
                assert(out.cell(rr, cc) == rows@[rr]@[cc]);
            }
        }
        out
    }

    /// Combines two equally shaped matrices entry by entry under a pure
    /// operator, each operand read through its own stride mapping, so a
    /// transposed view takes part with its logical values.  The result is a
    /// fresh row-major matrix.  Absent exactly when the shapes differ.
    pub fn combine_elementwise<F: Fn(u64, u64) -> u64>(&self, m: &Matrix2d, f: F) -> (r: Option<
        Matrix2d,
    >)
        requires
            self.wf(),
            m.wf(),
            bin_op_pure(f),
        ensures
            r.is_some() <==> (self.n_rows == m.n_rows && self.n_cols == m.n_cols),
            r matches Some(out) ==> {
                &&& out.wf()
                &&& out.n_rows == self.n_rows
                &&& out.n_cols == self.n_cols
                &&& out.rs == self.n_cols
                &&& out.cs == 1
                &&& forall|rr: int, cc: int|
                    0 <= rr < self.n_rows && 0 <= cc < self.n_cols ==> #[trigger] out.cell(rr, cc)
                        == bin_val(f, self.cell(rr, cc), m.cell(rr, cc))
            },
    {
        if self.n_cols == m.get_cols() && self.n_rows == m.get_rows() {
            let a = self.to_row_major();
            let b = m.to_row_major();
            let data = vec_bin_op(&a.matrix, &b.matrix, f);
            let out = Matrix2d {
                n_rows: self.n_rows,
                n_cols: self.n_cols,
                rs: self.n_cols,
                cs: 1,
                matrix: data,
            };
            proof {
                assert forall|rr: int, cc: int|
                    0 <= rr < self.n_rows && 0 <= cc < self.n_cols implies #[trigger] out.cell(
                    rr,
                    cc,
                ) == bin_val(f, self.cell(rr, cc), m.cell(rr, cc)) by {
                    lemma_slot_in_bounds(a, rr, cc);
                    assert(a.cell(rr, cc) == self.cell(rr, cc));
                    assert(b.cell(rr, cc) == m.cell(rr, cc));
                    let k = out.slot(rr, cc);
                    assert(a.slot(rr, cc) == k && b.slot(rr, cc) == k);
                    assert(out.matrix@[k] == bin_val(f, a.matrix@[k], b.matrix@[k]));
                }
            }
            Some(out)
        } else {
            None
        }
    }

    /// Applies a pure operator to every entry, in storage order; shape and
    /// strides are kept.
    pub fn apply_fn<F: Fn(u64) -> u64>(&self, f: F) -> (out: Matrix2d)
        requires
            self.wf(),
            un_op_pure(f),
        ensures
            out.wf(),
            out.n_rows == self.n_rows,
            out.n_cols == self.n_cols,
            out.rs == self.rs,
            out.cs == self.cs,
            out.matrix@.len() == self.matrix@.len(),
            forall|i: int|
                0 <= i < self.matrix@.len() ==> out.matrix@[i] == un_val(f, self.matrix@[i]),
            forall|rr: int, cc: int|
                0 <= rr < self.n_rows && 0 <= cc < self.n_cols ==> #[trigger] out.cell(rr, cc)
                    == un_val(f, self.cell(rr, cc)),
    {
        let len: usize = self.matrix.len();
        let mut data: Vec<u64> = Vec::new();
        let mut i: usize = 0;
        while i < len
            invariant
                len == self.matrix@.len(),
                un_op_pure(f),
                i <= len,
                data@.len() == i,
                forall|j: int| 0 <= j < i ==> data@[j] == un_val(f, self.matrix@[j]),
            decreases len - i,
        {
            let x = f(self.matrix[i]);
            proof {
                lemma_un_val(f, self.matrix@[i as int], x);
            }
            data.push(x);
            i += 1;
        }
        let out = Matrix2d {
            n_rows: self.n_rows,
            n_cols: self.n_cols,
            rs: self.rs,
            cs: self.cs,
            matrix: data,
        };
        proof {
            assert forall|rr: int, cc: int|
                0 <= rr < self.n_rows && 0 <= cc < self.n_cols implies #[trigger] out.cell(rr, cc)
                == un_val(f, self.cell(rr, cc)) by {
                lemma_slot_in_bounds(*self, rr, cc);
            }
        }
        out
    }

    /// Matrix product.  The multiply-accumulate work is delegated to the
    /// given kernel, which is handed both operands with their strides and
    /// must fill one output word per entry of the product's shape; the result
    /// wraps the kernel's buffer as a fresh row-major matrix.  Absent exactly
    /// when the inner dimensions disagree.
    pub fn dot<F: Fn(&Matrix2d, &Matrix2d) -> Vec<u64>>(&self, m: &Matrix2d, kernel: F) -> (r:
        Option<Matrix2d>)
        requires
            self.wf(),
            m.wf(),
            forall|a: &Matrix2d, b: &Matrix2d| #[trigger] call_requires(kernel, (a, b)),
            forall|a: &Matrix2d, b: &Matrix2d, out: Vec<u64>|
                #[trigger] call_ensures(kernel, (a, b), out) ==> out@.len() == a.n_rows * b.n_cols,
        ensures
            r.is_some() <==> self.n_cols == m.n_rows,
            r matches Some(p) ==> {
                &&& p.wf()
                &&& p.n_rows == self.n_rows
                &&& p.n_cols == m.n_cols
                &&& p.rs == m.n_cols
                &&& p.cs == 1
                &&& call_ensures(kernel, (self, m), p.matrix)
            },
    {
        if self.n_cols == m.get_rows() {
            let data = kernel(self, m);
            Some(
                Matrix2d {
                    n_rows: self.n_rows,
                    n_cols: m.n_cols,
                    rs: m.n_cols,
                    cs: 1,
                    matrix: data,
                },
            )
        } else {
            None
        }
    }
}

impl Matrix2d {
    /// Scales every column by the value the fold operator accumulates over
    /// it, starting from `zero`: for the intended operators the fold is the
    /// column's largest magnitude and the scaling divides by it.  Nothing
    /// guards a column whose accumulated value makes the scaling degenerate;
    /// the scale operator is applied as it is.  Shape and strides are kept.
    pub fn normalize<FM: Fn(u64, u64) -> u64, FD: Fn(u64, u64) -> u64>(
        &self,
        max_f: &FM,
        zero: u64,
        div_f: &FD,
    ) -> (out: Matrix2d)
        requires
            self.wf(),
            bin_op_pure(*max_f),
            bin_op_pure(*div_f),
        ensures
            out.wf(),
            out.n_rows == self.n_rows,
            out.n_cols == self.n_cols,
            out.rs == self.rs,
            out.cs == self.cs,
            forall|r: int, c: int|
                0 <= r < self.n_rows && 0 <= c < self.n_cols ==> #[trigger] out.cell(r, c)
                    == bin_val(*div_f, self.cell(r, c), fold_val(*max_f, zero, self.col_seq(c))),
    {
        let mut maxes: Vec<u64> = Vec::new();
        let mut idx: usize = 0;
        while idx < self.n_cols
            invariant
                self.wf(),
                bin_op_pure(*max_f),
                idx <= self.n_cols,
                maxes@.len() == idx,
                forall|c: int|
                    0 <= c < idx ==> maxes@[c] == fold_val(*max_f, zero, self.col_seq(c)),
            decreases self.n_cols - idx,
        {
            let col = self.get_col(idx).unwrap();
            maxes.push(fold_with(&col, zero, max_f));
            idx += 1;
        }
        let mut data = clone_data(&self.matrix);
        let mut rr: usize = 0;
        while rr < self.n_rows
            invariant
                self.wf(),
                bin_op_pure(*div_f),
                maxes@.len() == self.n_cols,
                forall|c: int|
                    0 <= c < self.n_cols ==> maxes@[c] == fold_val(*max_f, zero, self.col_seq(c)),
                rr <= self.n_rows,
                data@.len() == self.matrix@.len(),
                forall|r: int, c: int|
                    0 <= r < self.n_rows && 0 <= c < self.n_cols && r < rr ==> data@[#[trigger] self.slot(r, c)]
                        == bin_val(*div_f, self.cell(r, c), maxes@[c]),
                forall|r: int, c: int|
                    0 <= r < self.n_rows && 0 <= c < self.n_cols && r >= rr ==> data@[#[trigger] self.slot(r, c)]
                        == self.matrix@[self.slot(r, c)],
            decreases self.n_rows - rr,
        {
            let mut cc: usize = 0;
            while cc < self.n_cols
                invariant
                    self.wf(),
                    bin_op_pure(*div_f),
                    maxes@.len() == self.n_cols,
                    forall|c: int|
                        0 <= c < self.n_cols ==> maxes@[c] == fold_val(
                            *max_f,
                            zero,
                            self.col_seq(c),
                        ),
                    rr < self.n_rows,
                    cc <= self.n_cols,
                    data@.len() == self.matrix@.len(),
                    forall|r: int, c: int|
                        0 <= r < self.n_rows && 0 <= c < self.n_cols && (r < rr || (r == rr && c
                            < cc)) ==> data@[#[trigger] self.slot(r, c)] == bin_val(
                            *div_f,
                            self.cell(r, c),
                            maxes@[c],
                        ),
                    forall|r: int, c: int|
                        0 <= r < self.n_rows && 0 <= c < self.n_cols && !(r < rr || (r == rr && c
                            < cc)) ==> data@[#[trigger] self.slot(r, c)] == self.matrix@[self.slot(
                            r,
                            c,
                        )],
                decreases self.n_cols - cc,
            {
                // an exec read of the length puts its usize bound in scope
                let _n: usize = data.len();
                proof {
                    lemma_slot_in_bounds(*self, rr as int, cc as int);
                }
                let ghost before = data@;
                let x = div_f(self.cell_at(rr, cc), maxes[cc]);
                proof {
                    lemma_bin_val(*div_f, self.cell(rr as int, cc as int), maxes@[cc as int], x);
                }
                data.set(rr * self.rs + cc * self.cs, x);
                proof {
                    assert forall|r: int, c: int|
                        0 <= r < self.n_rows && 0 <= c < self.n_cols && (r != rr || c
                            != cc) implies data@[#[trigger] self.slot(r, c)] == before[self.slot(
                        r,
                        c,
                    )] by {
                        lemma_slot_in_bounds(*self, r, c);
                        if self.slot(r, c) == self.slot(rr as int, cc as int) {
                            lemma_slot_injective(*self, r, c, rr as int, cc as int);
                        }
                    }
                }
                cc += 1;
            }
            rr += 1;
        }
        let out = Matrix2d {
            n_rows: self.n_rows,
            n_cols: self.n_cols,
            rs: self.rs,
            cs: self.cs,
            matrix: data,
        };
        proof {
            assert forall|r: int, c: int|
                0 <= r < self.n_rows && 0 <= c < self.n_cols implies #[trigger] out.cell(r, c)
                == bin_val(*div_f, self.cell(r, c), fold_val(*max_f, zero, self.col_seq(c))) by {
                assert(out.slot(r, c) == self.slot(r, c));
            }
        }
        out
    }
}

impl Clone for Matrix2d {
    /// An owned copy: same shape, same strides, same buffer contents.
    fn clone(&self) -> (r: Matrix2d)
        ensures
            r.n_rows == self.n_rows,
            r.n_cols == self.n_cols,
            r.rs == self.rs,
            r.cs == self.cs,
            r.matrix@ == self.matrix@,
    {
        Matrix2d {
            n_rows: self.n_rows,
            n_cols: self.n_cols,
            rs: self.rs,
            cs: self.cs,
            matrix: clone_data(&self.matrix),
        }
    }
}

impl View for Matrix2d {
    type V = Seq<Seq<u64>>;

    /// The logical content: the rows, each a sequence of words, read through
    /// the stride mapping.
    open spec fn view(&self) -> Seq<Seq<u64>> {
        Seq::new(self.n_rows as nat, |r: int| self.row_seq(r))
    }
}

impl PartialEq for Matrix2d {
    /// Matrices are compared by shape and raw buffer, ignoring strides, as
    /// the buffers of equal matrices laid out the same way agree word for
    /// word.
    fn eq(&self, other: &Matrix2d) -> (r: bool) {
        self.n_cols == other.n_cols && self.n_rows == other.n_rows && data_equal(
            &self.matrix,
            &other.matrix,
        )
    }
}

impl vstd::std_specs::cmp::PartialEqSpecImpl for Matrix2d {
    open spec fn obeys_eq_spec() -> bool {
        true
    }

    open spec fn eq_spec(&self, other: &Matrix2d) -> bool {
        self.n_cols == other.n_cols && self.n_rows == other.n_rows && self.matrix@
            == other.matrix@
    }
}

/// Word-for-word comparison of two buffers.
fn data_equal(a: &Vec<u64>, b: &Vec<u64>) -> (r: bool)
    ensures
        r <==> a@ == b@,
{
    if a.len() != b.len() {
        proof {
            assert(a@.len() != b@.len());
        }
        return false;
    }
    let len: usize = a.len();
    let mut i: usize = 0;
    while i < len
        invariant
            len == a@.len(),
            a@.len() == b@.len(),
            i <= len,
            forall|j: int| 0 <= j < i ==> a@[j] == b@[j],
        decreases len - i,
    {
        if a[i] != b[i] {
            return false;
        }
        i += 1;
    }
    proof {
        assert(a@ =~= b@);
    }
    true
}

/// A fresh buffer with the same words.
fn clone_data(v: &Vec<u64>) -> (r: Vec<u64>)
    ensures
        r@ == v@,
{
    let len: usize = v.len();
    let mut out: Vec<u64> = Vec::new();
    let mut i: usize = 0;
    while i < len
        invariant
            len == v@.len(),
            i <= len,
            out@ == v@.take(i as int),
        decreases len - i,
    {
        out.push(v[i]);
        proof {
            assert(out@ =~= v@.take(i + 1));
        }
        i += 1;
    }
    proof {
        assert(out@ =~= v@);
    }
    out
}

/// The shared body of the two reshape operations.
fn reshape_data(vec: &Vec<u64>, n_rows: usize, n_cols: usize) -> (r: Option<Matrix2d>)
    ensures
        r.is_some() <==> (n_cols > 0 && vec@.len() == n_rows * n_cols),
        r matches Some(m) ==> {
            &&& m.wf()
            &&& m.n_rows == n_rows
            &&& m.n_cols == n_cols
            &&& m.rs == n_cols
            &&& m.cs == 1
            &&& m.matrix@ == vec@
        },
    {
    let len: usize = vec.len();
    if n_cols > 0 && len / n_cols == n_rows && len % n_cols == 0 {
        proof {
            assert(len == n_rows * n_cols) by (nonlinear_arith)
                requires
                    n_cols > 0,
                    (len as int) / (n_cols as int) == n_rows,
                    (len as int) % (n_cols as int) == 0,
            ;
        }
        Some(Matrix2d { n_rows, n_cols, rs: n_cols, cs: 1, matrix: clone_data(vec) })
    } else {
        proof {
            assert(n_cols > 0 && len == n_rows * n_cols ==> (len as int) / (n_cols as int)
                == n_rows && (len as int) % (n_cols as int) == 0) by (nonlinear_arith);
        }
        None
    }
}

} // verus!
