//! Error values for the 2-D dimension helper: malformed construction
//! input, an out-of-bounds position, or operands whose dimensions do not
//! fit an operation.

use vstd::prelude::*;

use crate::dimensions::Dimensions;

verus! {

/// Everything a dimension-checked 2-D operation can fail with.
#[derive(Debug, PartialEq, Eq)]
pub enum MathError {
    /// A nested construction input has rows of unequal length.
    IncorrectVectorDimensions,
    /// A row/column position lies outside the dimensions, with the
    /// offending row and column.
    IncorrectPosition(usize, usize),
    /// Two operands' dimensions do not fit the named operation.
    IncorrectMatricesDimensions(String, Dimensions, Dimensions),
}

pub type MathResult<T> = Result<T, MathError>;

impl MathError {
    /// The message `description` returns for each variant.
    pub open spec fn description_spec(&self) -> Seq<char> {
        match self {
            MathError::IncorrectVectorDimensions => {
                "Initializing 2d vector must have the same column number in each row"@
            },
            MathError::IncorrectPosition(_, _) => { "Row and/or col are/is out of bounds"@ },
            MathError::IncorrectMatricesDimensions(_, _, _) => {
                "Can't perform the operation with matrices of these dimensions"@
            },
        }
    }

    /// A human-readable account of the error.
    pub fn description(&self) -> (r: String)
        ensures
            r@ == self.description_spec(),
    {
        match self {
            MathError::IncorrectVectorDimensions => {
                "Initializing 2d vector must have the same column number in each row".to_owned()
            },
            MathError::IncorrectPosition(_, _) => { "Row and/or col are/is out of bounds".to_owned()
            },
            MathError::IncorrectMatricesDimensions(_, _, _) => {
                "Can't perform the operation with matrices of these dimensions".to_owned()
            },
        }
    }
}

} // verus!
