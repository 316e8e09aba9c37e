//! From rays to images: the camera that casts the rays, the tracer that
//! follows them, and the renderer that turns what they find into bytes.
//!
//! What holds of the tracer whatever the rays is in [`laws`]; [`head_on`],
//! [`unmet`] and [`mirror`] follow single rays: one that aims at the centre
//! of a sphere, one that meets nothing, and one that is turned around at a
//! surface.  [`twice`] says that tracing and rendering have one outcome
//! only where the unit of arithmetic has.

pub mod batch;
pub mod camera;
pub mod head_on;
pub mod laws;
pub mod mirror;
pub mod render;
pub mod renderer;
pub mod scene;
pub mod spheres;
pub mod tracer;
pub mod twice;
pub mod unmet;
pub mod walls;

use crate::color::{is_rgb_byte, Color};
use crate::render::batch::is_place;
use crate::math::Ray;
use crate::nearest::is_nearest_single;
use crate::scalar::{
    is_product, is_quotient, is_root, is_sum, quotient, sum, Arithmetic, Real, ONE_BITS,
    ZERO_BITS,
};
use vstd::prelude::*;

verus! {

/// Something that single rays can be sent into.
pub trait RayScene<A: Arithmetic> {
    /// The light that `ray` brings back, reflected `max_depth` times at
    /// most.
    fn ray_color(&self, unit: &A, ray: Ray, max_depth: u32) -> Color;
}

/// `light` is what `scene` gave for `ray`, reflected `depth` times at most.
pub open spec fn is_ray_color<A: Arithmetic, S: RayScene<A>>(
    unit: &A,
    scene: &S,
    ray: Ray,
    depth: u32,
    light: Color,
) -> bool {
    call_ensures(S::ray_color, (scene, unit, ray, depth), light)
}

/// What an image is rendered with, ray by ray.
pub struct Shot<A, S> {
    pub unit: A,
    pub scene: S,
    pub camera: crate::camera::Camera,
    pub columns: int,
    pub width: Real,
    pub height: Real,
    pub x_deltas: Seq<Real>,
    pub y_deltas: Seq<Real>,
    pub depth: u32,
}

/// Number by number, `sum` is what `unit` gave for `a + b`.
pub open spec fn is_color_sum<A: Arithmetic>(unit: &A, a: Color, b: Color, sum: Color) -> bool {
    &&& is_sum(unit, a.red(), b.red(), sum.red())
    &&& is_sum(unit, a.green(), b.green(), sum.green())
    &&& is_sum(unit, a.blue(), b.blue(), sum.blue())
}

/// `byte` is the byte of a channel whose samples add up to `total`: with
/// `share` for what each sample counts, the square root of `share *
/// total`, brought into `[0, 1]`.
pub open spec fn is_channel_byte<A: Arithmetic>(
    unit: &A,
    total: Real,
    share: Real,
    byte: u8,
) -> bool {
    exists|mean: Real, shade: Real|
        #![trigger is_product(unit, share, total, mean), is_root(unit, mean, shade)]
        is_product(unit, share, total, mean) && is_root(unit, mean, shade) && is_rgb_byte(
            unit,
            shade.clamped(Real { bits: ZERO_BITS }, Real { bits: ONE_BITS }),
            byte,
        )
}

impl<A: Arithmetic, S: RayScene<A>> Shot<A, S> {
    /// `ray` is the ray through pixel `n` for sample `j`.
    pub open spec fn aims(self, n: int, j: int, ray: Ray) -> bool {
        exists|x_offset: Real, y_offset: Real|
            #![trigger self.camera.view().casts_one(&self.unit, x_offset, y_offset, ray)]
            is_place(
                &self.unit,
                (n % self.columns) as u64,
                self.x_deltas[j],
                self.width,
                x_offset,
            ) && is_place(
                &self.unit,
                (n / self.columns) as u64,
                self.y_deltas[j],
                self.height,
                y_offset,
            ) && self.camera.view().casts_one(&self.unit, x_offset, y_offset, ray)
    }

    /// `total` is `so_far` with the light of the samples of pixel `n` from
    /// number `from` on added, each in its turn.
    pub open spec fn gathers(self, n: int, from: int, so_far: Color, total: Color) -> bool
        decreases self.x_deltas.len() - from,
    {
        if 0 <= from < self.x_deltas.len() {
            exists|ray: Ray, light: Color, next: Color|
                #![trigger self.aims(n, from, ray), is_color_sum(&self.unit, so_far, light, next)]
                self.aims(n, from, ray) && is_ray_color(
                    &self.unit,
                    &self.scene,
                    ray,
                    self.depth,
                    light,
                ) && is_color_sum(&self.unit, so_far, light, next) && self.gathers(
                    n,
                    from + 1,
                    next,
                    total,
                )
        } else {
            total == so_far
        }
    }

    /// `pixel` holds the color of pixel `n`: the light of all samples,
    /// averaged, its square root taken and brought into `[0, 1]`.
    pub open spec fn paints(self, n: int, pixel: [u8; 3]) -> bool {
        exists|black: Color, total: Color, count: Real, share: Real|
            #![trigger self.gathers(n, 0, black, total), is_nearest_single(self.x_deltas.len() as u64, count), is_quotient(&self.unit, Real { bits: ONE_BITS }, count, share)]
            {
                &&& black.is(
                    Real { bits: ZERO_BITS },
                    Real { bits: ZERO_BITS },
                    Real { bits: ZERO_BITS },
                )
                &&& self.gathers(n, 0, black, total)
                &&& is_nearest_single(self.x_deltas.len() as u64, count)
                &&& is_quotient(&self.unit, Real { bits: ONE_BITS }, count, share)
                &&& is_channel_byte(&self.unit, total.red(), share, pixel[0])
                &&& is_channel_byte(&self.unit, total.green(), share, pixel[1])
                &&& is_channel_byte(&self.unit, total.blue(), share, pixel[2])
            }
    }
}

/// The light that pixel `n` gathers from all its samples.
fn pixel_color<A: Arithmetic, S: RayScene<A>>(
    unit: &A,
    scene: &S,
    camera: &crate::camera::Camera,
    columns: u32,
    width: Real,
    height: Real,
    x_deltas: &Vec<Real>,
    y_deltas: &Vec<Real>,
    max_depth: u32,
    n: usize,
) -> (total: Color)
    requires
        columns > 0,
        x_deltas@.len() == y_deltas@.len(),
    ensures
        exists|black: Color| #[trigger]
            black.is(Real { bits: ZERO_BITS }, Real { bits: ZERO_BITS }, Real { bits: ZERO_BITS })
                && (Shot {
                unit: *unit,
                scene: *scene,
                camera: *camera,
                columns: columns as int,
                width,
                height,
                x_deltas: x_deltas@,
                y_deltas: y_deltas@,
                depth: max_depth,
            }).gathers(n as int, 0, black, total),
{
    let ghost shot = Shot {
        unit: *unit,
        scene: *scene,
        camera: *camera,
        columns: columns as int,
        width,
        height,
        x_deltas: x_deltas@,
        y_deltas: y_deltas@,
        depth: max_depth,
    };
    let y = n / columns as usize;
    let x = n % columns as usize;
    let zero = Real::zero();
    let black = Color::new(zero, zero, zero);
    let mut pixel_color = black;
    let samples = x_deltas.len();
    let mut sample: usize = 0;
    while sample < samples
        invariant
            sample <= samples,
            samples == x_deltas@.len(),
            samples == y_deltas@.len(),
            columns > 0,
            x == n as int % columns as int,
            y == n as int / columns as int,
            shot.unit == *unit,
            shot.scene == *scene,
            shot.camera == *camera,
            shot.columns == columns,
            shot.width == width,
            shot.height == height,
            shot.x_deltas == x_deltas@,
            shot.y_deltas == y_deltas@,
            shot.depth == max_depth,
            forall|total: Color| #[trigger]
                shot.gathers(n as int, sample as int, pixel_color, total) ==> shot.gathers(
                    n as int,
                    0,
                    black,
                    total,
                ),
        decreases samples - sample,
    {
        let across = Real::from_integer(x as u64);
        let moved_x = sum(unit, across, x_deltas[sample]);
        let x_offset = quotient(unit, moved_x, width);
        let down = Real::from_integer(y as u64);
        let moved_y = sum(unit, down, y_deltas[sample]);
        let y_offset = quotient(unit, moved_y, height);
        let ray = camera.pixel_ray(unit, x_offset, y_offset);
        let trace = S::ray_color;
        let light = trace(scene, unit, ray, max_depth);
        let ghost so_far = pixel_color;
        pixel_color = pixel_color.add(unit, light);
        proof {
            assert(is_place(unit, x as u64, x_deltas@[sample as int], width, x_offset));
            assert(is_place(unit, y as u64, y_deltas@[sample as int], height, y_offset));
            assert(shot.aims(n as int, sample as int, ray));
            assert(is_color_sum(unit, so_far, light, pixel_color));
            assert forall|total: Color| #[trigger]
                shot.gathers(n as int, sample + 1, pixel_color, total) implies shot.gathers(
                n as int,
                0,
                black,
                total,
            ) by {
                assert(shot.gathers(n as int, sample as int, so_far, total));
            }
        }
        sample += 1;
    }
    assert(shot.gathers(n as int, samples as int, pixel_color, pixel_color));
    pixel_color
}

/// The bytes of a pixel whose samples add up to `total`.
fn pixel_bytes<A: Arithmetic>(unit: &A, total: Color, share: Real) -> (pixel: [u8; 3])
    ensures
        is_channel_byte(unit, total.red(), share, pixel[0]),
        is_channel_byte(unit, total.green(), share, pixel[1]),
        is_channel_byte(unit, total.blue(), share, pixel[2]),
{
    let mean = total.mul(unit, share);
    let shade = mean.sqrt(unit);
    let toned = shade.normalize();
    let pixel = toned.into_rgb(unit);
    proof {
        assert(is_product(unit, share, total.red(), mean.red()));
        assert(is_root(unit, mean.red(), shade.red()));
        assert(is_product(unit, share, total.green(), mean.green()));
        assert(is_root(unit, mean.green(), shade.green()));
        assert(is_product(unit, share, total.blue(), mean.blue()));
        assert(is_root(unit, mean.blue(), shade.blue()));
    }
    pixel
}

/// Renders `scene` as `camera` sees it into `buffer`, an image of
/// `dimensions.0` columns and `dimensions.1` rows with three bytes per
/// pixel, one ray at a time.  Sample `j` of a pixel is taken at
/// `(x_deltas[j], y_deltas[j])` from its corner, in shares of the pixel.
pub fn render<A: Arithmetic, S: RayScene<A>>(
    unit: &A,
    scene: &S,
    camera: &crate::camera::Camera,
    buffer: &mut [[u8; 3]],
    dimensions: (u32, u32),
    x_deltas: &Vec<Real>,
    y_deltas: &Vec<Real>,
    max_depth: u32,
)
    requires
        x_deltas@.len() == y_deltas@.len(),
        old(buffer)@.len() == dimensions.0 * dimensions.1,
    ensures
        final(buffer)@.len() == old(buffer)@.len(),
        exists|width: Real, height: Real|
            #![trigger is_nearest_single(dimensions.0 as u64, width), is_nearest_single(dimensions.1 as u64, height)]
            is_nearest_single(dimensions.0 as u64, width) && is_nearest_single(dimensions.1 as u64,
                height,
            ) && forall|n: int|
                0 <= n < old(buffer)@.len() ==> (Shot {
                    unit: *unit,
                    scene: *scene,
                    camera: *camera,
                    columns: dimensions.0 as int,
                    width,
                    height,
                    x_deltas: x_deltas@,
                    y_deltas: y_deltas@,
                    depth: max_depth,
                }).paints(n, #[trigger] final(buffer)@[n]),
{
    let (columns, rows) = dimensions;
    let width = Real::from_integer(columns as u64);
    let height = Real::from_integer(rows as u64);
    let ghost shot = Shot {
        unit: *unit,
        scene: *scene,
        camera: *camera,
        columns: columns as int,
        width,
        height,
        x_deltas: x_deltas@,
        y_deltas: y_deltas@,
        depth: max_depth,
    };
    let len = buffer.len();
    let mut n: usize = 0;
    while n < len
        invariant
            n <= len,
            len == buffer@.len(),
            len == old(buffer)@.len(),
            len == columns * rows,
            x_deltas@.len() == y_deltas@.len(),
            shot.unit == *unit,
            shot.scene == *scene,
            shot.camera == *camera,
            shot.columns == columns,
            shot.width == width,
            shot.height == height,
            shot.x_deltas == x_deltas@,
            shot.y_deltas == y_deltas@,
            shot.depth == max_depth,
            forall|m: int| 0 <= m < n ==> shot.paints(m, #[trigger] buffer@[m]),
        decreases len - n,
    {
        proof {
            if columns == 0 {
                assert(columns * rows == 0) by (nonlinear_arith)
                    requires
                        columns == 0,
                ;
            }
        }
        let total = pixel_color(
            unit,
            scene,
            camera,
            columns,
            width,
            height,
            x_deltas,
            y_deltas,
            max_depth,
            n,
        );
        let count = Real::from_integer(x_deltas.len() as u64);
        let share = quotient(unit, Real::one(), count);
        let pixel = pixel_bytes(unit, total, share);
        buffer[n] = pixel;
        proof {
            assert(is_nearest_single(x_deltas@.len() as u64, count));
            assert(is_quotient(unit, Real { bits: ONE_BITS }, count, share));
            assert(shot.paints(n as int, pixel));
        }
        n += 1;
    }
}

} // verus!
