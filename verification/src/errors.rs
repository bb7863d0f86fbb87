use vstd::prelude::*;

verus! {

/// Error rejecting the input rows during construction of a matrix.
#[derive(Debug, Clone, Copy, PartialEq, Eq, Structural)]
pub enum ConstructError {
    /// A row's length disagrees with the length established by the first row.
    /// `expected` is the established column count, `actual` the offending
    /// row's length.
    ShapeMismatch { expected: usize, actual: usize },
}

/// Error rejecting a query whose coordinates reach outside the matrix.
#[derive(Debug, Clone, Copy, PartialEq, Eq, Structural)]
pub enum QueryError {
    /// `bound` is the offending coordinate; `limit` is the extent (column or
    /// row count) it must stay under.
    OutOfRange { bound: usize, limit: usize },
}

} // verus!
