pub mod device;
pub mod event;
