//! Escape-time rendering of an animated Julia set: the colour table, the
//! lane-parallel escape bookkeeping and the frame buffer it paints.

pub mod color;
pub mod lanes;
pub mod pixels;
pub mod rotation;
pub mod settings;

pub use rotation::Rotation;
pub mod render;
