pub mod element;
pub mod screen;
