pub mod area;
pub mod length;
pub mod size;
pub mod spacing;
