//! Geometry of the space of dimension 3.

pub mod space3;
