//! A camera that stands at the origin.

use crate::math::{Point, Rays, Reals};
use crate::scalar::{Arithmetic, Real, TWO_BITS, ZERO_BITS};
use vstd::prelude::*;

verus! {

/// A pinhole camera at the origin that looks along `-z` through a view port
/// two units wide.
pub struct Camera {
    inner: crate::render::camera::Camera,
}

impl Camera {
    /// The camera as one that could stand anywhere.
    pub closed spec fn view(self) -> crate::render::camera::Camera {
        self.inner
    }

    /// A camera at the origin whose view port is two wide and `2 /
    /// aspect_ratio` high.
    pub fn new<A: Arithmetic>(unit: &A, aspect_ratio: Real) -> (camera: Camera)
        ensures
            camera.view().is_at(
                unit,
                Point {
                    x: Real { bits: ZERO_BITS },
                    y: Real { bits: ZERO_BITS },
                    z: Real { bits: ZERO_BITS },
                },
                aspect_ratio,
                Real { bits: TWO_BITS },
            ),
    {
        let zero = Real::zero();
        Camera {
            inner: crate::render::camera::Camera::at(
                unit,
                Point::new(zero, zero, zero),
                aspect_ratio,
                Real::two(),
            ),
        }
    }

    /// The camera as one that could stand anywhere.
    pub fn as_camera(&self) -> (camera: &crate::render::camera::Camera)
        ensures
            *camera == self.view(),
    {
        &self.inner
    }

    /// The eight rays through the places `(x_offsets[i], y_offsets[i])` of
    /// the view port, each place given as a share of its width and height.
    pub fn pixel_rays<A: Arithmetic>(&self, unit: &A, x_offsets: &Reals, y_offsets: &Reals) -> (rays:
        Rays)
        ensures
            self.view().casts(unit, *x_offsets, *y_offsets, rays),
    {
        self.inner.pixel_rays(unit, *x_offsets, *y_offsets)
    }
}

} // verus!
