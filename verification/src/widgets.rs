pub mod button;
pub mod label;
pub mod padding;
pub mod text;
pub mod vertical;
