//! The conversions: nested row vectors, and flat vectors read as column
//! vectors.

use crate::ext::traits::ToMatrix2d;
use crate::matrix::Matrix2d;
use vstd::prelude::*;

verus! {

impl ToMatrix2d for Vec<Vec<u64>> {
    open spec fn rows_of(&self) -> Seq<Seq<u64>> {
        self.deep_view()
    }

    open spec fn convertible(&self) -> bool {
        self@.len() > 0 && forall|i: int|
            0 <= i < self@.len() ==> (#[trigger] self@[i])@.len() == self@[0]@.len()
    }

    open spec fn flat_of(&self) -> Seq<u64> {
        self.deep_view().flatten()
    }

    open spec fn reshape_defined(&self) -> bool {
        self.convertible()
    }

    fn to_matrix_2d(&self) -> (r: Option<Matrix2d>) {
        if self.len() > 0 {
            let col_len: usize = self[0].len();
            let mut i: usize = 0;
            while i < self.len()
                invariant
                    col_len == self@[0]@.len(),
                    i <= self@.len(),
                    forall|j: int| 0 <= j < i ==> (#[trigger] self@[j])@.len() == col_len,
                decreases self@.len() - i,
            {
                let row: &Vec<u64> = &self[i];
                if col_len != row.len() {
                    return None;
                }
                i += 1;
            }
            let m = Matrix2d::from_vec(self);
            proof {
                assert(m@ =~~= self.rows_of());
            }
            Some(m)
        } else {
            None
        }
    }

    fn reshape(&self, n_rows: usize, n_cols: usize) -> (r: Option<Matrix2d>) {
        let m = self.to_matrix_2d().unwrap();
        m.reshape(n_rows, n_cols)
    }
}

impl ToMatrix2d for Vec<u64> {
    open spec fn rows_of(&self) -> Seq<Seq<u64>> {
        Seq::new(self@.len(), |i: int| seq![self@[i]])
    }

    open spec fn convertible(&self) -> bool {
        self@.len() > 0
    }

    open spec fn flat_of(&self) -> Seq<u64> {
        self@
    }

    open spec fn reshape_defined(&self) -> bool {
        true
    }

    fn to_matrix_2d(&self) -> (r: Option<Matrix2d>) {
        if self.len() > 0 {
            let mut rows: Vec<Vec<u64>> = Vec::new();
            let mut i: usize = 0;
            while i < self.len()
                invariant
                    i <= self@.len(),
                    rows@.len() == i,
                    forall|j: int| 0 <= j < i ==> (#[trigger] rows@[j])@ =~= seq![self@[j]],
                decreases self@.len() - i,
            {
                let mut row: Vec<u64> = Vec::new();
                row.push(self[i]);
                rows.push(row);
                i += 1;
            }
            let m = Matrix2d::from_vec(&rows);
            proof {
                assert(m@ =~~= self.rows_of());
                assert(rows@[0]@.len() == 1);
                assert(m.n_rows * m.n_cols == m.n_rows) by (nonlinear_arith)
                    requires
                        m.n_cols == 1,
                ;
                assert forall|k: int| 0 <= k < m.matrix@.len() implies m.matrix@[k] == self@[k] by {
                    assert(k < m.n_rows);
                    assert(k * m.rs == k && 0 * m.cs == 0) by (nonlinear_arith)
                        requires
                            m.rs == 1,
                    ;
                    assert(m.slot(k, 0) == k);
                    assert(m.cell(k, 0) == rows@[k]@[0]);
                    assert(rows@[k]@ =~= seq![self@[k]]);
                }
                assert(m.matrix@ =~= self@);
            }
            Some(m)
        } else {
            None
        }
    }

    fn reshape(&self, n_rows: usize, n_cols: usize) -> (r: Option<Matrix2d>) {
        Matrix2d::reshape_from_vec(self, n_rows, n_cols)
    }
}

} // verus!
