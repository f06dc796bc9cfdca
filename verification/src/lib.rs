//! A small linear-algebra kernel: vectors, matrices and row reduction,
//! generic over the scalar type, with machine-checked contracts.
//!
//! - [`scalar`]: what the contracts assume of a scalar type.
//! - [`vector`]: vectors, their arithmetic and the dot product.
//! - [`matrix`]: matrices, their arithmetic, products, transpose and trace.
//! - [`products`]: the cross product and linear combinations.
//! - [`determinant`]: determinants by cofactor expansion, up to order four.
//! - [`reduce`]: Gauss-Jordan elimination with partial pivoting, and rank.
//! - [`inverse`]: the inverse of a square matrix.
//! - [`laws`], [`rank_laws`], [`rref_laws`], [`echelon_laws`]: what holds
//!   of every vector and matrix, proved from the definitions above.
//!
//! Every operation states when it stays within the range of the scalar
//! type, and what it returns: for a scalar type whose operators follow
//! their specification, the result is given entry by entry.

pub mod determinant;
pub mod echelon_laws;
pub mod inverse;
pub mod laws;
pub mod matrix;
pub mod products;
pub mod rank_laws;
pub mod reduce;
pub mod rref_laws;
pub mod scalar;
pub mod vector;

pub use matrix::Matrix;
pub use products::{cross_product, linear_combination};
pub use vector::Vector;
