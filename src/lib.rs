//! A crate to work with dynamically sized matrices.
//!
//! The core type is [`DynamicMatrix`], a growable two-dimensional array kept
//! in row-major order in one contiguous buffer. Appending a row is cheap,
//! appending a column is expensive, and every append and every checked access
//! validates the shape or the coordinates it is given.

/// Contains the dynamically sized, row-major matrix
pub mod dynamic;
/// Contains the errors associated with this crate
pub mod errors;

pub use dynamic::row_major::DynamicMatrix;
