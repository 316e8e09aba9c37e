//! Rendering an image in one go, with the samples of each pixel taken
//! where the caller says: this is for samples drawn at random.

use crate::math::{Reals, LANES};
use crate::render::camera::Camera;
use crate::render::renderer::{Brightness, Renderer};
use crate::render::scene::Scene;
use crate::nearest::is_nearest_single;
use crate::scalar::Arithmetic;
use vstd::prelude::*;

verus! {

/// Renders `scene` as `camera` sees it into `buffer`, an image of
/// `dimensions.0` columns and `dimensions.1` rows.  Sample `j` of lane `i`
/// is taken at `(x_deltas[j][i], y_deltas[j][i])` from the corner of its
/// pixel, in shares of the pixel.  The image is painted as it is: a channel
/// is `shade * 255` cut down to a byte.
pub fn render<A: Arithmetic, S: Scene<A>>(
    unit: &A,
    scene: &S,
    camera: &Camera,
    buffer: &mut [[u8; 4]],
    dimensions: (u16, u16),
    x_deltas: Vec<Reals>,
    y_deltas: Vec<Reals>,
    max_depth: usize,
)
    requires
        x_deltas@.len() == y_deltas@.len(),
        old(buffer)@.len() == dimensions.0 * dimensions.1,
        dimensions.0 >= LANES || old(buffer)@.len() < LANES,
    ensures
        exists|renderer: Renderer| #[trigger]
            renderer.is_given(dimensions, x_deltas@, y_deltas@, max_depth) && is_nearest_single(
                dimensions.0 as u64,
                renderer.width(),
            ) && is_nearest_single(dimensions.1 as u64, renderer.height()) && renderer.renders(
                unit,
                scene,
                *camera,
                Brightness::Full,
                old(buffer)@,
                final(buffer)@,
            ),
{
    let ghost xs = x_deltas@;
    let ghost ys = y_deltas@;
    let renderer = Renderer::with_deltas(unit, dimensions, x_deltas, y_deltas, max_depth);
    renderer.render_at(unit, scene, camera, Brightness::Full, buffer);
    assert(renderer.is_given(dimensions, xs, ys, max_depth));
}

} // verus!
