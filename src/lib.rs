pub mod apng;
pub mod decoder;
pub mod frame;
pub mod pixel;
mod resample;
