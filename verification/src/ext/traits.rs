//! Conversion of plain row collections into matrices.

use crate::matrix::Matrix2d;
use vstd::prelude::*;

verus! {

/// Values that describe a matrix: a collection of rows with one agreed
/// column count, or a flat buffer read as a column vector.
pub trait ToMatrix2d {
    /// The rows this value describes, each a sequence of words.
    spec fn rows_of(&self) -> Seq<Seq<u64>>;

    /// Whether the description is a valid matrix: at least one row, and
    /// every row as long as the first.
    spec fn convertible(&self) -> bool;

    /// The row-major flattening of the described rows.
    spec fn flat_of(&self) -> Seq<u64>;

    /// Whether this value accepts a reshape request at all; a value whose
    /// reshape first materializes the matrix insists on `convertible`.
    spec fn reshape_defined(&self) -> bool;

    /// The described matrix, row-major, or nothing when the description is
    /// not rectangular.
    fn to_matrix_2d(&self) -> (r: Option<Matrix2d>)
        ensures
            r.is_some() <==> self.convertible(),
            r matches Some(m) ==> {
                &&& m.wf()
                &&& m.n_rows == self.rows_of().len()
                &&& m.n_cols == self.rows_of()[0].len()
                &&& m.rs == m.n_cols
                &&& m.cs == 1
                &&& m@ == self.rows_of()
                &&& m.matrix@ == self.flat_of()
            },
    ;

    /// The described words reinterpreted with the given shape, under the
    /// size-conservation check of `Matrix2d::reshape`.
    fn reshape(&self, n_rows: usize, n_cols: usize) -> (r: Option<Matrix2d>)
        requires
            self.reshape_defined(),
        ensures
            r.is_some() <==> (n_cols > 0 && self.flat_of().len() == n_rows * n_cols),
            r matches Some(m) ==> {
                &&& m.wf()
                &&& m.n_rows == n_rows
                &&& m.n_cols == n_cols
                &&& m.rs == n_cols
                &&& m.cs == 1
                &&& m.matrix@ == self.flat_of()
            },
    ;
}

} // verus!
