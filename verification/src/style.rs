pub mod attributes;
pub mod color;
pub mod palette;
pub mod rgb;
pub mod style;
pub mod theme;
