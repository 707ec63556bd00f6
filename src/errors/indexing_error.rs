//! Error encountered while indexing into a matrix

use vstd::prelude::*;

verus! {

/// The error type of indexing out of bounds.
///
/// It records the requested coordinate and the shape of the matrix. Either
/// coordinate, or both, lies outside the shape.
#[derive(Clone, Copy, Debug, PartialEq, Eq, Structural)]
pub struct IndexingError {
    /// The requested row
    pub row: usize,
    /// The requested column
    pub col: usize,
    /// The number of rows of the matrix
    pub nrows: usize,
    /// The number of columns of the matrix
    pub ncols: usize,
}

impl IndexingError {
    /// Create a new `IndexingError` given the index as a row, column tuple and the shape of the matrix being indexed
    pub fn new(index: (usize, usize), shape: (usize, usize)) -> (e: IndexingError)
        ensures
            e == (IndexingError { row: index.0, col: index.1, nrows: shape.0, ncols: shape.1 }),
    {
        IndexingError { row: index.0, col: index.1, nrows: shape.0, ncols: shape.1 }
    }
}

} // verus!
