//! Falling-glyph rain for a character grid: a fixed-point colour model, the
//! per-column simulation and the list of directives that draws one frame.

pub mod afterglow;
pub mod alphabet;
pub mod color;
pub mod column;
pub mod directive;
pub mod fade;
pub mod glyph;
pub mod random;
pub mod round_trip;
pub mod waterfall;
