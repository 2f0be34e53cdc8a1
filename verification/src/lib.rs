//! The verified core of a terminal spectrum visualiser.
pub mod bands;
pub mod color;
pub mod column;
pub mod config;
pub mod control;
pub mod drawing;
pub mod flag;
pub mod frame;
pub mod glyph;
pub mod math;
pub mod motion;
pub mod renderer;
pub mod ring;
pub mod screen;
pub mod silence;
pub mod window;
pub mod word;
