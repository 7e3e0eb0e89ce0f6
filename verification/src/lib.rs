//! Animated colour sweeps and twinkles over terminal text, computed frame by frame.
//!
//! The library draws nothing and waits for nothing. For every frame it says which
//! glyph goes where in which colour, and which waits fall around the frame; a
//! caller puts that on a terminal.
//!
//! All arithmetic is on integers. The progress of a sweep is an exact fraction.
//! What a configuration gives as a fraction (opacity, ratios, the place of a pause)
//! and the brightness of a twinkle are counted in millionths.

pub mod fixed;
pub mod easing;
pub mod center;
pub mod cli;
pub mod color;
pub mod cycle;
pub mod frame;
pub mod random;
pub mod rgb_text;
pub mod effects;
