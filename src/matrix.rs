//! Matrices of exact probabilities, held in an nalgebra `DMatrix`.

use crate::probability::Probability;
use vstd::prelude::*;

verus! {

/// A rectangular matrix of probabilities.
#[verifier::external_body]
pub struct ProbMatrix {
    inner: nalgebra::DMatrix<Probability>,
}

/// The entries of a matrix, row by row.
pub uninterp spec fn matrix_entries(m: ProbMatrix) -> Seq<Seq<Probability>>;

impl View for ProbMatrix {
    type V = Seq<Seq<Probability>>;

    open spec fn view(&self) -> Seq<Seq<Probability>> {
        matrix_entries(*self)
    }
}

impl ProbMatrix {
    /// Relies on nalgebra's `DMatrix::from_element`: `rows` rows of `cols`
    /// entries, each `value`.
    #[verifier::external_body]
    pub fn filled(rows: usize, cols: usize, value: Probability) -> (r: ProbMatrix)
        requires
            rows * cols <= usize::MAX,
        ensures
            matrix_entries(r).len() == rows,
            forall|i: int|
                0 <= i < rows ==> #[trigger] matrix_entries(r)[i] == Seq::new(
                    cols as nat,
                    |j: int| value,
                ),
    {
        ProbMatrix { inner: nalgebra::DMatrix::from_element(rows, cols, value) }
    }

    /// Relies on nalgebra's indexing of a matrix by (row, column).
    #[verifier::external_body]
    pub fn get(&self, row: usize, col: usize) -> (r: Probability)
        requires
            row < self@.len(),
            col < self@[row as int].len(),
        ensures
            r == matrix_entries(*self)[row as int][col as int],
    {
        self.inner[(row, col)]
    }

    /// Relies on nalgebra's mutable indexing of a matrix by (row, column).
    #[verifier::external_body]
    pub fn set(&mut self, row: usize, col: usize, value: Probability)
        requires
            row < old(self)@.len(),
            col < old(self)@[row as int].len(),
        ensures
            matrix_entries(*final(self)) == matrix_entries(*old(self)).update(
                row as int,
                matrix_entries(*old(self))[row as int].update(col as int, value),
            ),
    {
        self.inner[(row, col)] = value;
    }
}

} // verus!
