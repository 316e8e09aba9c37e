//! A lane-batched ray tracer with recursive reflection, for a small scene
//! of spheres and axis-aligned planes, and the game that is played in it.
//!
//! Rays are traced eight at a time: every quantity of a batch holds one
//! number per ray ("lane"), and every step of the tracer works lane by lane,
//! with a mask for what only some lanes do.  [`lanes`] and [`math`] hold the
//! batches, [`scene`] the obstacles, and [`render`] the camera, the tracer
//! and the renderer that turns light into bytes; [`sampling`] says where in
//! a pixel its samples are taken.  [`motion`], [`ai`] and [`game_driver`]
//! are the game; [`simd`], [`color`], [`material`] and [`camera`] are
//! plainer ways of rendering: one room without reflectances, and surfaces
//! that scatter single rays.
//!
//! The numbers are single-precision, held by their bits (see [`scalar`]).
//! The library orders and selects them itself, and goes from numbers to
//! integers and back itself (see [`whole`] and [`nearest`]); it leaves it
//! to an [`scalar::Arithmetic`] unit of the caller's to add, multiply,
//! divide and take roots.  Its contracts hold of every such unit: they say
//! which operations of the unit, on which operands and in which order, lead
//! from what a function is given to what it returns.  [`exact`] says what
//! value the bits of a number stand for, and what follows for a unit that
//! rounds nothing that needs no rounding; [`numbers`] holds the numbers
//! that the library names against the values they are meant for, and
//! [`reach`] says how far the paddles go.

pub mod ai;
pub mod camera;
pub mod color;
pub mod exact;
pub mod game_driver;
pub mod lanes;
pub mod material;
pub mod math;
pub mod motion;
pub mod nearest;
pub mod numbers;
pub mod reach;
pub mod render;
pub mod sampling;
pub mod scalar;
pub mod scene;
pub mod simd;
pub mod whole;
