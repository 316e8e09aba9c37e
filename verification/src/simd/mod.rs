//! The tracer in its plainest form: a room of dull walls and one ball,
//! where every meeting halves the light that still counts.

pub mod camera;
pub mod render;
pub mod scene;

pub use crate::lanes::{Mask, Reals, LANES};
pub use crate::math::{Point, Points, Rays};
