//! Dynamically sized matrices

/// The row-major ordered DynamicMatrix
pub mod row_major;
