pub mod application;
pub mod composition;
pub mod convolution;
pub mod elimination;
pub mod family;
pub mod gauss;
pub mod goggles;
pub mod heap_matrix;
pub mod iter;
pub mod matrix;
pub mod product;
pub mod solver;
pub mod space;
pub mod vector;
pub mod view;
pub mod nullspace;
pub mod echelon;
