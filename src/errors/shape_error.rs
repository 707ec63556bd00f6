//! Error encountered due to incompatible shapes

use vstd::prelude::*;

verus! {

/// The error type for any shape errors.
///
/// It records the size that was supplied along the mismatched dimension
/// (`rows` or `cols`) next to the size that the matrix expected there
/// (`expected_rows` or `expected_cols`). The fields of the other dimension
/// are zero.
#[derive(Clone, Copy, Debug, PartialEq, Eq, Structural)]
pub struct ShapeError {
    /// The number of rows supplied
    pub rows: usize,
    /// The number of columns supplied
    pub cols: usize,
    /// The number of rows expected
    pub expected_rows: usize,
    /// The number of columns expected
    pub expected_cols: usize,
}

impl ShapeError {
    /// Create a new `ShapeError` given the supplied shape and the expected shape
    pub fn new(shape: (usize, usize), expected_shape: (usize, usize)) -> (e: ShapeError)
        ensures
            e.rows == shape.0,
            e.cols == shape.1,
            e.expected_rows == expected_shape.0,
            e.expected_cols == expected_shape.1,
    {
        ShapeError {
            rows: shape.0,
            cols: shape.1,
            expected_rows: expected_shape.0,
            expected_cols: expected_shape.1,
        }
    }

    /// Create a new `ShapeError` given the supplied number of rows and the expected number of rows
    pub fn new_rows_error(rows: usize, expected_rows: usize) -> (e: ShapeError)
        ensures
            e == (ShapeError { rows, cols: 0, expected_rows, expected_cols: 0 }),
    {
        ShapeError { rows, cols: 0, expected_rows, expected_cols: 0 }
    }

    /// Create a new `ShapeError` given the supplied number of columns and the expected number of columns
    pub fn new_cols_error(cols: usize, expected_cols: usize) -> (e: ShapeError)
        ensures
            e == (ShapeError { rows: 0, cols, expected_rows: 0, expected_cols }),
    {
        ShapeError { rows: 0, cols, expected_rows: 0, expected_cols }
    }
}

} // verus!
