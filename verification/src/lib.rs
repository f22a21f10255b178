pub mod buffer;
pub mod event;
pub mod geometry;
pub mod shell;
pub mod strnum;
pub mod style;
pub mod terminal;
pub mod text;
pub mod widget;
pub mod widgets;
