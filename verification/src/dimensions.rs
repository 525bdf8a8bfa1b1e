//! A plain row/column pair describing the dimensions of a 2-D matrix, with
//! position validation and construction from a nested vector.

use vstd::prelude::*;

use crate::errors::{MathError, MathResult};
use crate::tensor_construct::rows_rectangular;

verus! {

/// The dimensions of a 2-D matrix: a row count and a column count.
#[derive(Copy, Clone, Debug, PartialEq, Eq, Structural)]
pub struct Dimensions {
    pub rows: usize,
    pub cols: usize,
}

impl Dimensions {
    /// The given row and column counts, as a pair.
    pub fn new(rows: usize, cols: usize) -> (r: Self)
        ensures
            r.rows == rows,
            r.cols == cols,
    {
        Self { rows, cols }
    }

    /// Square dimensions: as many rows as columns.
    pub fn square(dim: usize) -> (r: Self)
        ensures
            r.rows == dim,
            r.cols == dim,
    {
        Self::new(dim, dim)
    }

    /// The dimensions of the nested vector `vec`: its row count and the
    /// length of its first row.  An empty vector has dimensions 0 × 0;
    /// rows of unequal length fail with `IncorrectVectorDimensions`.
    pub fn from_vector<T>(vec: &Vec<Vec<T>>) -> (r: MathResult<Self>)
        ensures
            match r {
                Ok(d) => {
                    &&& rows_rectangular(vec@)
                    &&& d.rows == vec@.len()
                    &&& d.cols == (if vec@.len() == 0 {
                        0int
                    } else {
                        vec@[0]@.len() as int
                    })
                },
                Err(e) => {
                    &&& e == MathError::IncorrectVectorDimensions
                    &&& !rows_rectangular(vec@)
                },
            },
    {
        let rows = vec.len();
        if rows == 0 {
            return Ok(Self::new(0, 0));
        }
        let cols = vec[0].len();
        let mut i: usize = 1;
        while i < rows
            invariant
                1 <= i <= rows,
                rows == vec@.len(),
                cols == vec@[0]@.len(),
                forall|a: int| 0 <= a < i ==> (#[trigger] vec@[a])@.len() == cols,
            decreases rows - i,
        {
            if vec[i].len() != cols {
                return Err(MathError::IncorrectVectorDimensions);
            }
            i = i + 1;
        }
        Ok(Self::new(rows, cols))
    }

    /// True iff the position lies strictly inside the dimensions.
    pub fn is_valid_position(&self, row: usize, col: usize) -> (r: bool)
        ensures
            r == (row < self.rows && col < self.cols),
    {
        row < self.rows && col < self.cols
    }

    /// True iff there are as many rows as columns.
    pub fn is_square(&self) -> (r: bool)
        ensures
            r == (self.rows == self.cols),
    {
        self.rows == self.cols
    }

    /// The row count.
    pub fn rows(&self) -> (r: usize)
        ensures
            r == self.rows,
    {
        self.rows
    }

    /// The column count.
    pub fn cols(&self) -> (r: usize)
        ensures
            r == self.cols,
    {
        self.cols
    }

    /// How many entries a matrix of these dimensions holds.
    pub fn size(&self) -> (r: usize)
        requires
            self.rows * self.cols <= usize::MAX,
        ensures
            r == self.rows * self.cols,
    {
        self.rows * self.cols
    }

    /// The dimensions as a `(rows, cols)` pair.
    pub fn as_tuple(&self) -> (r: (usize, usize))
        ensures
            r.0 == self.rows,
            r.1 == self.cols,
    {
        (self.rows, self.cols)
    }
}

} // verus!
