pub mod buffer;
pub mod pixel;
