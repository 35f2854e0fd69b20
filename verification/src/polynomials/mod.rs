//! Polynomials given by their coefficients, constant term first.

pub mod poly;
