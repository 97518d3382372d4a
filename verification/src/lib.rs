//! Escape-time fractal data for a rectangular region of the complex plane.
//!
//! The numeric core is generic over a [`scalar::Scalar`] type: a value with a
//! mathematical model and fixed arithmetic semantics. The crate supplies a
//! verified saturating `i64` scalar; a caller may supply another scalar (an
//! approximate one, say) and run the same code, at the price of the model-level
//! guarantees holding only as far as that scalar meets the trait's contracts.

pub mod complex;
pub mod complex_iterator;
pub mod cpolynomial;
pub mod scalar;
