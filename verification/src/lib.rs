//! Rectangular range-sum queries over a fixed two-dimensional `i64` matrix.
//!
//! Two sibling structures answer the same query contract: [`rowsum::Matrix`]
//! keeps one prefix-sum array per row and answers in time linear in the
//! rectangle's height, while [`allsum::Matrix`] keeps a summed-area table and
//! answers in constant time. Both are built once from a sequence of
//! equal-length integer rows and are immutable afterwards; both are verified
//! against the same mathematical rectangle sum, so equal inputs give equal
//! answers.

pub mod allsum;
pub mod errors;
pub mod laws;
pub mod model;
pub mod rowsum;
