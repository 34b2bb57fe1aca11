//! Exact bra-ket algebra for small quantum-mechanical exercises, with a
//! complex-number type and fixed-size vectors and matrices beside it.
//!
//! Operators and states are sparse sums of basis terms with `i64`
//! coefficients. Composition, addition and application merge the terms that
//! land in one basis slot and drop those that cancel. Sums are accumulated
//! modulo 2^64, so a result is exact whenever each of its entries fits in
//! `i64`, even where a partial sum would not.

pub mod complex;
pub mod ket;
pub mod matrix;
pub mod merge;
pub mod modular;
pub mod operator;
pub mod polar;
pub mod scalar;
pub mod text;

pub use complex::Complex;
pub use ket::{Ket, KetBra};
pub use matrix::{Matrix, Vector};
pub use operator::{AlgebraError, Operator, State};
pub use polar::ComplexPolar;
pub use scalar::Scalar;
