//! The three effects: the linear sweep, the planar sweep and the twinkle.

pub mod shine;
pub mod shine2d;
pub mod twinkle;
