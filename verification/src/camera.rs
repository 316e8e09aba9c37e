//! A camera that casts one ray at a time.

use crate::math::{Point, Ray};
use crate::scalar::{Arithmetic, Real, ONE_BITS, THREE_TENTHS_BITS, TWO_BITS, ZERO_BITS};
use vstd::prelude::*;

verus! {

/// A pinhole camera at `(1, 0.3, 0)` that looks along `-z` through a view
/// port two units wide.
pub struct Camera {
    inner: crate::render::camera::Camera,
}

impl Camera {
    /// The camera as one that casts rays by the batch.
    pub closed spec fn view(self) -> crate::render::camera::Camera {
        self.inner
    }

    /// A camera whose view port is two wide and `2 / aspect_ratio` high.
    pub fn new<A: Arithmetic>(unit: &A, aspect_ratio: Real) -> (camera: Camera)
        ensures
            camera.view().is_at(
                unit,
                Point {
                    x: Real { bits: ONE_BITS },
                    y: Real { bits: THREE_TENTHS_BITS },
                    z: Real { bits: ZERO_BITS },
                },
                aspect_ratio,
                Real { bits: TWO_BITS },
            ),
    {
        Camera {
            inner: crate::render::camera::Camera::at(
                unit,
                Point::new(Real::one(), Real::from_bits(THREE_TENTHS_BITS), Real::zero()),
                aspect_ratio,
                Real::two(),
            ),
        }
    }

    /// The ray through the place `(x_offset, y_offset)` of the view port,
    /// given as a share of its width and height.
    pub fn pixel_ray<A: Arithmetic>(&self, unit: &A, x_offset: Real, y_offset: Real) -> (ray: Ray)
        ensures
            self.view().casts_one(unit, x_offset, y_offset, ray),
    {
        self.inner.pixel_ray(unit, x_offset, y_offset)
    }
}

} // verus!
