//! How a group of eight pixels that lie side by side gets its colors.
//!
//! The group is traced as one batch, once per sample; the light of the
//! samples is added up, averaged, its square root taken and brought into
//! `[0, 1]`.

use crate::lanes::{are_sums, over, plus, splat};
use crate::math::{Colors, Points, Rays, Reals, LANES};
use crate::render::camera::Camera;
use crate::render::scene::{is_seen, see, Scene};
use crate::nearest::is_nearest_single;
use crate::scalar::{
    is_product, is_quotient, is_root, is_sum, Arithmetic, Real, ONE_BITS, ZERO_BITS,
};
use crate::scene::point_of;
use vstd::prelude::*;

verus! {

/// `r` is what `unit` gave for `(pixel + delta) / size`: a place in the
/// image as a share of its width or height.
pub open spec fn is_place<A: Arithmetic>(
    unit: &A,
    pixel: u64,
    delta: Real,
    size: Real,
    r: Real,
) -> bool {
    exists|at: Real, moved: Real|
        #![trigger is_nearest_single(pixel, at), is_sum(unit, at, delta, moved)]
        is_nearest_single(pixel, at) && is_sum(unit, at, delta, moved) && is_quotient(
            unit,
            moved,
            size,
            r,
        )
}

/// `shade` is what `unit` gave for the square root of `total / count`,
/// brought into `[0, 1]`.
pub open spec fn is_toned<A: Arithmetic>(unit: &A, total: Real, count: Real, shade: Real) -> bool {
    exists|mean: Real, root: Real|
        #![trigger is_quotient(unit, total, count, mean), is_root(unit, mean, root)]
        is_quotient(unit, total, count, mean) && is_root(unit, mean, root) && shade
            == root.clamped(Real { bits: ZERO_BITS }, Real { bits: ONE_BITS })
}

/// Number by number and lane by lane, `shades` is what `unit` gave for
/// the square root of `total / count`, brought into `[0, 1]`.
pub open spec fn are_toned<A: Arithmetic>(
    unit: &A,
    total: Colors,
    count: Real,
    shades: Colors,
) -> bool {
    &&& forall|i: int| 0 <= i < LANES ==> is_toned(unit, total.xs[i], count, #[trigger] shades.xs[i])
    &&& forall|i: int| 0 <= i < LANES ==> is_toned(unit, total.ys[i], count, #[trigger] shades.ys[i])
    &&& forall|i: int| 0 <= i < LANES ==> is_toned(unit, total.zs[i], count, #[trigger] shades.zs[i])
}

/// Number by number and lane by lane, `sum` is what `unit` gave for `a +
/// b`.
pub open spec fn are_added<A: Arithmetic>(unit: &A, a: Colors, b: Colors, sum: Colors) -> bool {
    &&& are_sums(unit, a.xs, b.xs, sum.xs)
    &&& are_sums(unit, a.ys, b.ys, sum.ys)
    &&& are_sums(unit, a.zs, b.zs, sum.zs)
}

/// The bits of 255: the byte of a channel at its brightest.
pub const BRIGHTEST_BITS: u32 = 0x437f_0000;

/// The byte nearest to `n` from 0 to 255.
pub open spec fn byte_of(n: int) -> u8 {
    if n < 0 {
        0u8
    } else if n > 255 {
        255u8
    } else {
        n as u8
    }
}

/// The byte nearest to `n` from 0 to 255.
pub fn to_byte(n: i32) -> (byte: u8)
    ensures
        byte == byte_of(n as int),
{
    if n < 0 {
        0
    } else if n > 255 {
        255
    } else {
        n as u8
    }
}

/// `byte` is what `unit` gave for `shade * 255`, cut down to a byte.
pub open spec fn is_full_byte<A: Arithmetic>(unit: &A, shade: Real, byte: u8) -> bool {
    exists|full: Real| #[trigger]
        is_product(unit, shade, Real { bits: BRIGHTEST_BITS }, full) && byte == byte_of(full.cut())
}

/// The places of the eight pixels from column `8 * x` on in row `y`, each
/// moved by its delta and taken as a share of the image.
pub fn group_offsets<A: Arithmetic>(
    unit: &A,
    x: usize,
    y: usize,
    x_deltas: Reals,
    y_deltas: Reals,
    width: Real,
    height: Real,
) -> (offsets: (Reals, Reals))
    requires
        x * LANES + LANES <= usize::MAX,
    ensures
        forall|i: int|
            0 <= i < LANES ==> is_place(
                unit,
                (x * LANES + i) as u64,
                x_deltas[i],
                width,
                #[trigger] offsets.0[i],
            ),
        forall|i: int|
            0 <= i < LANES ==> is_place(unit, y as u64, y_deltas[i], height, #[trigger] offsets.1[i]),
{
    let zero = Real::zero();
    let mut columns: Reals = splat(zero);
    let mut i: usize = 0;
    while i < LANES
        invariant
            i <= LANES,
            x * LANES + LANES <= usize::MAX,
            forall|k: int|
                0 <= k < i ==> is_nearest_single((x * LANES + k) as u64, #[trigger] columns[k]),
        decreases LANES - i,
    {
        columns[i] = Real::from_integer((x * LANES + i) as u64);
        i += 1;
    }
    let row = Real::from_integer(y as u64);
    let rows = splat(row);
    let moved_x = plus(unit, columns, x_deltas);
    let moved_y = plus(unit, rows, y_deltas);
    let widths = splat(width);
    let heights = splat(height);
    let x_offsets = over(unit, moved_x, widths);
    let y_offsets = over(unit, moved_y, heights);
    proof {
        assert forall|k: int| 0 <= k < LANES implies is_place(
            unit,
            (x * LANES + k) as u64,
            x_deltas[k],
            width,
            #[trigger] x_offsets[k],
        ) by {
            assert(is_nearest_single((x * LANES + k) as u64, columns[k]));
            assert(is_sum(unit, columns[k], x_deltas[k], moved_x[k]));
            assert(is_quotient(unit, moved_x[k], widths[k], x_offsets[k]));
        }
        assert forall|k: int| 0 <= k < LANES implies is_place(
            unit,
            y as u64,
            y_deltas[k],
            height,
            #[trigger] y_offsets[k],
        ) by {
            assert(rows[k] == row);
            assert(is_sum(unit, rows[k], y_deltas[k], moved_y[k]));
            assert(is_quotient(unit, moved_y[k], heights[k], y_offsets[k]));
        }
    }
    (x_offsets, y_offsets)
}

/// Number by number and lane by lane, the square root of `total / count`,
/// brought into `[0, 1]`.
pub fn tone<A: Arithmetic>(unit: &A, total: Colors, count: Real) -> (shades: Colors)
    ensures
        are_toned(unit, total, count, shades),
{
    let counts = splat(count);
    let means = total.div(unit, counts);
    let roots = means.sqrt(unit);
    let shades = roots.normalize();
    proof {
        assert forall|i: int| 0 <= i < LANES implies is_toned(
            unit,
            total.xs[i],
            count,
            #[trigger] shades.xs[i],
        ) by {
            assert(counts[i] == count);
            assert(shades.lane(i).x == shades.xs[i]);
            assert(is_quotient(unit, total.xs[i], count, means.xs[i]));
            assert(is_root(unit, means.xs[i], roots.xs[i]));
        }
        assert forall|i: int| 0 <= i < LANES implies is_toned(
            unit,
            total.ys[i],
            count,
            #[trigger] shades.ys[i],
        ) by {
            assert(counts[i] == count);
            assert(shades.lane(i).y == shades.ys[i]);
            assert(is_quotient(unit, total.ys[i], count, means.ys[i]));
            assert(is_root(unit, means.ys[i], roots.ys[i]));
        }
        assert forall|i: int| 0 <= i < LANES implies is_toned(
            unit,
            total.zs[i],
            count,
            #[trigger] shades.zs[i],
        ) by {
            assert(counts[i] == count);
            assert(shades.lane(i).z == shades.zs[i]);
            assert(is_quotient(unit, total.zs[i], count, means.zs[i]));
            assert(is_root(unit, means.zs[i], roots.zs[i]));
        }
    }
    shades
}

/// `rays` are the rays of the group that starts at column `8 * x` of row
/// `y`: lane `i` goes through its pixel, `x_deltas[i]` to the right and
/// `y_deltas[i]` down from its corner, that place taken as a share of the
/// image.
pub open spec fn aims<A: Arithmetic>(
    unit: &A,
    camera: Camera,
    width: Real,
    height: Real,
    x_deltas: Reals,
    y_deltas: Reals,
    x: int,
    y: int,
    rays: Rays,
) -> bool {
    exists|x_offsets: Reals, y_offsets: Reals|
        #![trigger camera.casts(unit, x_offsets, y_offsets, rays)]
        {
            &&& forall|i: int|
                0 <= i < LANES ==> is_place(
                    unit,
                    (x * LANES + i) as u64,
                    x_deltas[i],
                    width,
                    #[trigger] x_offsets[i],
                )
            &&& forall|i: int|
                0 <= i < LANES ==> is_place(
                    unit,
                    y as u64,
                    y_deltas[i],
                    height,
                    #[trigger] y_offsets[i],
                )
            &&& camera.casts(unit, x_offsets, y_offsets, rays)
        }
}

/// `total` is `so_far` with the light of the samples from number `from` on
/// added, each in its turn.
pub open spec fn gathers<A: Arithmetic, S: Scene<A>>(
    unit: &A,
    scene: &S,
    camera: Camera,
    width: Real,
    height: Real,
    x_deltas: Seq<Reals>,
    y_deltas: Seq<Reals>,
    depth: usize,
    x: int,
    y: int,
    from: int,
    so_far: Colors,
    total: Colors,
) -> bool
    decreases x_deltas.len() - from,
{
    if 0 <= from < x_deltas.len() {
        exists|rays: Rays, light: Colors, next: Colors|
            #![trigger aims(unit, camera, width, height, x_deltas[from], y_deltas[from], x, y, rays), are_added(unit, so_far, light, next)]
            aims(unit, camera, width, height, x_deltas[from], y_deltas[from], x, y, rays)
                && is_seen(unit, scene, rays, depth, light) && are_added(
                unit,
                so_far,
                light,
                next,
            ) && gathers(
                unit,
                scene,
                camera,
                width,
                height,
                x_deltas,
                y_deltas,
                depth,
                x,
                y,
                from + 1,
                next,
                total,
            )
    } else {
        total == so_far
    }
}

/// `shades` are the colors of the pixels of the group that starts at
/// column `8 * x` of row `y`: the light of all samples, averaged and
/// toned.
pub open spec fn shades<A: Arithmetic, S: Scene<A>>(
    unit: &A,
    scene: &S,
    camera: Camera,
    width: Real,
    height: Real,
    x_deltas: Seq<Reals>,
    y_deltas: Seq<Reals>,
    depth: usize,
    x: int,
    y: int,
    shades: Colors,
) -> bool {
    exists|black: Colors, total: Colors, count: Real|
        #![trigger gathers(unit, scene, camera, width, height, x_deltas, y_deltas, depth, x, y, 0, black, total), is_nearest_single(x_deltas.len() as u64, count)]
        black.all_lanes_are(point_of(ZERO_BITS, ZERO_BITS, ZERO_BITS)) && gathers(
            unit,
            scene,
            camera,
            width,
            height,
            x_deltas,
            y_deltas,
            depth,
            x,
            y,
            0,
            black,
            total,
        ) && is_nearest_single(x_deltas.len() as u64, count) && are_toned(
            unit,
            total,
            count,
            shades,
        )
}

/// The rays of the group that starts at column `8 * x` of row `y`.
pub fn batch_rays<A: Arithmetic>(
    unit: &A,
    camera: &Camera,
    width: Real,
    height: Real,
    x_deltas: Reals,
    y_deltas: Reals,
    x: usize,
    y: usize,
) -> (rays: Rays)
    requires
        x * LANES + LANES <= usize::MAX,
    ensures
        aims(unit, *camera, width, height, x_deltas, y_deltas, x as int, y as int, rays),
{
    let (x_offsets, y_offsets) = group_offsets(unit, x, y, x_deltas, y_deltas, width, height);
    camera.pixel_rays(unit, x_offsets, y_offsets)
}

/// The colors of the pixels of the group that starts at column `8 * x` of
/// row `y`, each number from zero to one.
pub fn batch_shades<A: Arithmetic, S: Scene<A>>(
    unit: &A,
    scene: &S,
    camera: &Camera,
    width: Real,
    height: Real,
    x_deltas: &Vec<Reals>,
    y_deltas: &Vec<Reals>,
    depth: usize,
    x: usize,
    y: usize,
) -> (colors: Colors)
    requires
        x * LANES + LANES <= usize::MAX,
        x_deltas@.len() == y_deltas@.len(),
    ensures
        shades(
            unit,
            scene,
            *camera,
            width,
            height,
            x_deltas@,
            y_deltas@,
            depth,
            x as int,
            y as int,
            colors,
        ),
{
    let zero = Real::zero();
    let black = Points::splat(zero, zero, zero);
    let mut pixels_colors = black;
    let samples = x_deltas.len();
    let mut sample: usize = 0;
    while sample < samples
        invariant
            sample <= samples,
            samples == x_deltas@.len(),
            samples == y_deltas@.len(),
            x * LANES + LANES <= usize::MAX,
            forall|total: Colors| #[trigger]
                gathers(
                    unit,
                    scene,
                    *camera,
                    width,
                    height,
                    x_deltas@,
                    y_deltas@,
                    depth,
                    x as int,
                    y as int,
                    sample as int,
                    pixels_colors,
                    total,
                ) ==> gathers(
                    unit,
                    scene,
                    *camera,
                    width,
                    height,
                    x_deltas@,
                    y_deltas@,
                    depth,
                    x as int,
                    y as int,
                    0,
                    black,
                    total,
                ),
        decreases samples - sample,
    {
        let rays = batch_rays(
            unit,
            camera,
            width,
            height,
            x_deltas[sample],
            y_deltas[sample],
            x,
            y,
        );
        let light = see(unit, scene, rays, depth);
        let ghost so_far = pixels_colors;
        pixels_colors = pixels_colors.add(unit, light);
        proof {
            assert(are_added(unit, so_far, light, pixels_colors));
            assert forall|total: Colors| #[trigger]
                gathers(
                    unit,
                    scene,
                    *camera,
                    width,
                    height,
                    x_deltas@,
                    y_deltas@,
                    depth,
                    x as int,
                    y as int,
                    sample + 1,
                    pixels_colors,
                    total,
                ) implies gathers(
                unit,
                scene,
                *camera,
                width,
                height,
                x_deltas@,
                y_deltas@,
                depth,
                x as int,
                y as int,
                0,
                black,
                total,
            ) by {
                assert(gathers(
                    unit,
                    scene,
                    *camera,
                    width,
                    height,
                    x_deltas@,
                    y_deltas@,
                    depth,
                    x as int,
                    y as int,
                    sample as int,
                    so_far,
                    total,
                ));
            }
        }
        sample += 1;
    }
    assert(gathers(
        unit,
        scene,
        *camera,
        width,
        height,
        x_deltas@,
        y_deltas@,
        depth,
        x as int,
        y as int,
        samples as int,
        pixels_colors,
        pixels_colors,
    ));
    let count = Real::from_integer(samples as u64);
    tone(unit, pixels_colors, count)
}

} // verus!
