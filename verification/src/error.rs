//! The errors of the crate.

use vstd::prelude::*;

verus! {

/// The ways in which an operation of this crate can fail.
#[derive(Clone, Copy, Debug, PartialEq, Eq)]
pub enum MatrixError {
    /// The shapes `(rows, cols)` of the two operands do not fit the operator.
    DimensionMismatch { left: (usize, usize), right: (usize, usize) },
    /// No closed form of the determinant is known for a square matrix of this size.
    UnsupportedDimension { size: usize },
    /// The token at index `token` of column `column` is not the text of an element.
    ParseError { column: usize, token: usize },
    /// Column `column` has `found` elements where the first column has `expected`.
    RaggedInput { column: usize, expected: usize, found: usize },
    /// The two element types differ in size or in alignment.
    LayoutMismatch,
}

} // verus!
