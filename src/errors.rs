//! Errors reported by the matrix operations

/// Error encountered while indexing into a matrix
pub mod indexing_error;
/// Error encountered due to incompatible shapes
pub mod shape_error;

pub use indexing_error::IndexingError;
pub use shape_error::ShapeError;
