pub mod near_zero;
pub mod unpack_iter;
