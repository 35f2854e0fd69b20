//! Tools for the mathematics taught in French preparatory classes: combinatorics, complex
//! numbers, polynomials, vectors and matrices (fixed-size, on the heap, and views of regions of
//! them), row operations, Gaussian elimination, linear systems and vector spaces, planes and
//! lines of the space, products and convolutions, expression trees and small iterator helpers.
//!
//! The numeric operations are generic over the scalar type `T` and its operators; the values
//! `0` and `1` of `T` are given to the operations that need them.

pub mod combinatorial;
pub mod complex;
pub mod function;
pub mod geometry;
pub mod gl;
pub mod iter;
pub mod linear;
pub mod mem;
pub mod polynomials;
pub mod traits;
