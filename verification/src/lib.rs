//! Dense matrices and vectors over a generic element type: a family whose
//! dimensions are part of the type, and a family sized at run time.
//!
//! Both families store a matrix column by column and share one vocabulary
//! of operators. What an operator computes is stated over the mathematical
//! model in [`algebra`], a matrix being a sequence of columns; the laws that
//! follow for exact element types are proved in [`laws`].
//!
//! - [`scalar`]: what an element type must offer, and the laws of rings and
//!   of orders.
//! - [`integer`], [`decimal`]: `i64` as an element type, and its text.
//! - [`mat`]: matrices of fixed dimensions.
//! - [`dynamic`]: matrices and vectors of any dimensions.
//! - [`text`], [`format`]: the text from which a container is read, and the
//!   text as which a matrix is drawn.
//! - [`error`]: the ways in which an operation can fail.

pub mod algebra;
pub mod decimal;
pub mod dynamic;
pub mod error;
pub mod format;
pub mod integer;
pub mod laws;
pub mod mat;
pub mod scalar;
pub mod text;
