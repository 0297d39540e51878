//! Row sampling and batching: resampling the rows of a matrix under a
//! seeded generator, and cutting a matrix into consecutive row groups.

use crate::matrix::{lemma_slot_in_bounds, lemma_slot_injective, Matrix2d};
use vstd::prelude::*;

verus! {

#[verifier::external_type_specification]
#[verifier::external_body]
pub struct ExStdRng(rand::StdRng);

/// Relies on rand::SeedableRng::from_seed for rand::StdRng: it builds the
/// generator state deterministically from the seed slice.  Nothing is
/// promised of the state itself.
#[verifier::external_body]
fn rng_from_seed(seed: &[usize]) -> (rng: rand::StdRng) {
    <rand::StdRng as rand::SeedableRng<&[usize]>>::from_seed(seed)
}

/// Relies on rand::Rng::gen_range: a uniformly distributed value in the
/// half-open range `[0, n)`, advancing the generator.  Only the bound on the
/// result is promised.
#[verifier::external_body]
fn draw_index(rng: &mut rand::StdRng, n: usize) -> (r: usize)
    requires
        n >= 1,
    ensures
        r < n,
{
    rand::Rng::gen_range(rng, 0, n)
}

/// Row `r` of `out` reads back, word for word, as some row of `m`.
pub open spec fn row_drawn_from(out: Matrix2d, m: Matrix2d, r: int) -> bool {
    exists|j: int| 0 <= j < m.n_rows && out.row_seq(r) == #[trigger] m.row_seq(j)
}

impl Matrix2d {
    /// A matrix of the same shape and strides whose row `r` is this matrix's
    /// row `indices[r]`.
    pub fn select_rows(&self, indices: &Vec<usize>) -> (out: Matrix2d)
        requires
            self.wf(),
            indices@.len() == self.n_rows,
            forall|i: int| 0 <= i < indices@.len() ==> indices@[i] < self.n_rows,
        ensures
            out.wf(),
            out.n_rows == self.n_rows,
            out.n_cols == self.n_cols,
            out.rs == self.rs,
            out.cs == self.cs,
            forall|r: int, c: int|
                0 <= r < self.n_rows && 0 <= c < self.n_cols ==> #[trigger] out.cell(r, c)
                    == self.cell(indices@[r] as int, c),
    {
        let total: usize = self.matrix.len();
        let mut data: Vec<u64> = Vec::new();
        let mut k: usize = 0;
        while k < total
            invariant
                k <= total,
                data@.len() == k,
            decreases total - k,
        {
            data.push(0);
            k += 1;
        }
        let mut rr: usize = 0;
        while rr < self.n_rows
            invariant
                self.wf(),
                indices@.len() == self.n_rows,
                forall|i: int| 0 <= i < indices@.len() ==> indices@[i] < self.n_rows,
                rr <= self.n_rows,
                data@.len() == self.matrix@.len(),
                forall|r: int, c: int|
                    0 <= r < self.n_rows && 0 <= c < self.n_cols && r < rr ==> data@[#[trigger] self.slot(r, c)]
                        == self.cell(indices@[r] as int, c),
            decreases self.n_rows - rr,
        {
            let mut cc: usize = 0;
            while cc < self.n_cols
                invariant
                    self.wf(),
                    indices@.len() == self.n_rows,
                    forall|i: int| 0 <= i < indices@.len() ==> indices@[i] < self.n_rows,
                    rr < self.n_rows,
                    cc <= self.n_cols,
                    data@.len() == self.matrix@.len(),
                    forall|r: int, c: int|
                        0 <= r < self.n_rows && 0 <= c < self.n_cols && (r < rr || (r == rr && c
                            < cc)) ==> data@[#[trigger] self.slot(r, c)] == self.cell(
                            indices@[r] as int,
                            c,
                        ),
                decreases self.n_cols - cc,
            {
                // an exec read of the length puts its usize bound in scope
                let _n: usize = data.len();
                proof {
                    lemma_slot_in_bounds(*self, rr as int, cc as int);
                }
                let ghost before = data@;
                let src: usize = indices[rr];
                let x = self.cell_at(src, cc);
                data.set(rr * self.rs + cc * self.cs, x);
                proof {
                    assert forall|r: int, c: int|
                        0 <= r < self.n_rows && 0 <= c < self.n_cols && (r != rr || c
                            != cc) implies data@[#[trigger] self.slot(r, c)] == before[self.slot(
                        r,
                        c,
                    )] by {
                        lemma_slot_in_bounds(*self, r, c);
                        if self.slot(r, c) == self.slot(rr as int, cc as int) {
                            lemma_slot_injective(*self, r, c, rr as int, cc as int);
                        }
                    }
                }
                cc += 1;
            }
            rr += 1;
        }
        let out = Matrix2d {
            n_rows: self.n_rows,
            n_cols: self.n_cols,
            rs: self.rs,
            cs: self.cs,
            matrix: data,
        };
        proof {
            assert forall|r: int, c: int|
                0 <= r < self.n_rows && 0 <= c < self.n_cols implies #[trigger] out.cell(r, c)
                == self.cell(indices@[r] as int, c) by {
                assert(out.slot(r, c) == self.slot(r, c));
            }
        }
        out
    }

    /// Resamples the rows under a seeded generator: each output row is drawn
    /// independently and uniformly from the original rows, so rows may
    /// repeat and some may never appear.  The draw sequence is a fixed
    /// function of the seed, which makes the operation reproducible; here
    /// only the provenance of every row is promised.
    pub fn shuffle(&self, seed: &[usize]) -> (out: Matrix2d)
        requires
            self.wf(),
            self.n_rows >= 1,
        ensures
            out.wf(),
            out.n_rows == self.n_rows,
            out.n_cols == self.n_cols,
            out.rs == self.rs,
            out.cs == self.cs,
            forall|r: int| 0 <= r < self.n_rows ==> #[trigger] row_drawn_from(out, *self, r),
    {
        let mut rng = rng_from_seed(seed);
        let mut indices: Vec<usize> = Vec::new();
        let mut i: usize = 0;
        while i < self.n_rows
            invariant
                self.wf(),
                self.n_rows >= 1,
                i <= self.n_rows,
                indices@.len() == i,
                forall|j: int| 0 <= j < i ==> indices@[j] < self.n_rows,
            decreases self.n_rows - i,
        {
            let r = draw_index(&mut rng, self.n_rows);
            indices.push(r);
            i += 1;
        }
        let out = self.select_rows(&indices);
        proof {
            assert forall|r: int| 0 <= r < self.n_rows implies #[trigger] row_drawn_from(
                out,
                *self,
                r,
            ) by {
                let j = indices@[r] as int;
                assert(out.row_seq(r) =~= self.row_seq(j));
                assert(0 <= j < self.n_rows && out.row_seq(r) == self.row_seq(j));
            }
        }
        out
    }

    /// Cuts the rows, in order, into consecutive groups of at most
    /// `batch_size` rows; the final group holds the remainder.  Each group
    /// is a fresh row-major matrix.
    pub fn mini_batch(&self, batch_size: usize) -> (batches: Vec<Matrix2d>)
        requires
            self.wf(),
            batch_size >= 1,
        ensures
            batches@.len() == (self.n_rows + batch_size - 1) as int / batch_size as int,
            forall|g: int|
                0 <= g < batches@.len() ==> {
                    let b = #[trigger] batches@[g];
                    &&& b.wf()
                    &&& b.n_cols == self.n_cols
                    &&& b.rs == self.n_cols
                    &&& b.cs == 1
                    &&& b.n_rows == (if batch_size as int <= self.n_rows - g * batch_size {
                        batch_size as int
                    } else {
                        self.n_rows - g * batch_size
                    })
                    &&& (forall|i: int, c: int|
                        0 <= i < b.n_rows && 0 <= c < self.n_cols ==> #[trigger] b.cell(i, c)
                            == self.cell(g * batch_size + i, c))
                },
    {
        let mut batches: Vec<Matrix2d> = Vec::new();
        let mut start: usize = 0;
        proof {
            assert(batches@.len() * batch_size == 0) by (nonlinear_arith)
                requires
                    batches@.len() == 0,
            ;
        }
        while start < self.n_rows
            invariant
                self.wf(),
                batch_size >= 1,
                start <= self.n_rows,
                start < self.n_rows ==> start == batches@.len() * batch_size,
                start == self.n_rows ==> (self.n_rows == batches@.len() * batch_size || (
                batches@.len() >= 1 && (batches@.len() - 1) * batch_size < self.n_rows
                    < batches@.len() * batch_size)),
                forall|g: int|
                    0 <= g < batches@.len() ==> {
                        let b = #[trigger] batches@[g];
                        &&& b.wf()
                        &&& b.n_cols == self.n_cols
                        &&& b.rs == self.n_cols
                        &&& b.cs == 1
                        &&& b.n_rows == (if batch_size as int <= self.n_rows - g * batch_size {
                            batch_size as int
                        } else {
                            self.n_rows - g * batch_size
                        })
                        &&& (forall|i: int, c: int|
                            0 <= i < b.n_rows && 0 <= c < self.n_cols ==> #[trigger] b.cell(i, c)
                                == self.cell(g * batch_size + i, c))
                    },
            decreases self.n_rows - start,
        {
            let end: usize = if batch_size < self.n_rows - start {
                start + batch_size
            } else {
                self.n_rows
            };
            let mut rows: Vec<Vec<u64>> = Vec::new();
            let mut i: usize = start;
            while i < end
                invariant
                    self.wf(),
                    start <= i <= end <= self.n_rows,
                    rows@.len() == i - start,
                    forall|j: int|
                        0 <= j < i - start ==> (#[trigger] rows@[j])@ == self.row_seq(start + j),
                decreases end - i,
            {
                let row = self.get_row(i).unwrap();
                rows.push(row);
                i += 1;
            }
            proof {
                assert(forall|j: int|
                    0 <= j < rows@.len() ==> (#[trigger] rows@[j])@.len() == rows@[0]@.len());
            }
            let batch = Matrix2d::from_vec(&rows);
            batches.push(batch);
            proof {
                let bs: int = batch_size as int;
                let g0: int = batches@.len() - 1;
                assert((g0 + 1) * bs == g0 * bs + bs) by (nonlinear_arith);
                assert(batch.n_rows == (if bs <= self.n_rows - g0 * bs {
                    bs
                } else {
                    self.n_rows - g0 * bs
                }));
                assert(forall|j: int, c: int|
                    0 <= j < batch.n_rows && 0 <= c < self.n_cols ==> #[trigger] batch.cell(j, c)
                        == self.cell(g0 * bs + j, c));
            }
            start = end;
        }
        proof {
            let bs: int = batch_size as int;
            let len: int = batches@.len() as int;
            if self.n_rows == batches@.len() * batch_size {
                if self.n_rows == 0 {
                    assert(len == 0) by (nonlinear_arith)
                        requires
                            bs >= 1,
                            len >= 0,
                            len * bs == 0,
                    ;
                    vstd::arithmetic::div_mod::lemma_fundamental_div_mod_converse(
                        bs - 1,
                        bs,
                        0,
                        bs - 1,
                    );
                } else {
                    assert(len >= 1) by (nonlinear_arith)
                        requires
                            bs >= 1,
                            len >= 0,
                            len * bs > 0,
                    ;
                    vstd::arithmetic::div_mod::lemma_fundamental_div_mod_converse(
                        self.n_rows + bs - 1,
                        bs,
                        len,
                        bs - 1,
                    );
                }
            } else {
                assert((len - 1) * bs == len * bs - bs) by (nonlinear_arith);
                vstd::arithmetic::div_mod::lemma_fundamental_div_mod_converse(
                    self.n_rows + bs - 1,
                    bs,
                    len,
                    self.n_rows + bs - 1 - len * bs,
                );
            }
        }
        batches
    }
}

} // verus!
