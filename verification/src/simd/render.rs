//! Rendering row by row into an image of three bytes per pixel.

use crate::math::{Color, Colors, Reals, LANES};
use crate::render::batch::{batch_shades, is_full_byte, shades, to_byte, BRIGHTEST_BITS};
use crate::render::scene::Scene;
use crate::nearest::is_nearest_single;
use crate::scalar::{product, Arithmetic, Real};
use crate::simd::camera::Camera;
use vstd::prelude::*;

verus! {

/// `pixel` holds the color `shade`.
pub open spec fn is_lit<A: Arithmetic>(unit: &A, shade: Color, pixel: [u8; 3]) -> bool {
    &&& is_full_byte(unit, shade.x, pixel[0])
    &&& is_full_byte(unit, shade.y, pixel[1])
    &&& is_full_byte(unit, shade.z, pixel[2])
}

/// What a rendering is made with.
pub struct Setup<A, S> {
    pub unit: A,
    pub scene: S,
    pub camera: Camera,
    pub columns: int,
    pub rows: int,
    pub width: Real,
    pub height: Real,
    pub x_deltas: Seq<Reals>,
    pub y_deltas: Seq<Reals>,
    pub depth: usize,
}

impl<A: Arithmetic, S: Scene<A>> Setup<A, S> {
    /// In `image`, the eight pixels from column `8 * x` on in row `y` hold
    /// the colors of their group.
    pub open spec fn paints(self, x: int, y: int, image: Seq<[u8; 3]>) -> bool {
        exists|colors: Colors| #[trigger]
            shades(
                &self.unit,
                &self.scene,
                self.camera.view(),
                self.width,
                self.height,
                self.x_deltas,
                self.y_deltas,
                self.depth,
                x,
                y,
                colors,
            ) && forall|i: int|
                0 <= i < LANES ==> is_lit(
                    &self.unit,
                    #[trigger] colors.lane(i),
                    image[y * self.columns + x * LANES + i],
                )
    }

    /// `after` is the image `before` once rendered: in every row each
    /// whole group of eight pixels is painted, and what is left over at
    /// the end of the row is as it was.
    pub open spec fn renders(self, before: Seq<[u8; 3]>, after: Seq<[u8; 3]>) -> bool {
        &&& after.len() == before.len()
        &&& forall|x: int, y: int|
            0 <= y < self.rows && 0 <= x < self.columns / LANES as int ==> #[trigger] self.paints(
                x,
                y,
                after,
            )
        &&& forall|c: int, y: int|
            0 <= y < self.rows && (self.columns / LANES as int) * LANES <= c < self.columns
                ==> #[trigger] after[y * self.columns + c] == before[y * self.columns + c]
    }
}

fn full_byte<A: Arithmetic>(unit: &A, shade: Real) -> (byte: u8)
    ensures
        is_full_byte(unit, shade, byte),
{
    let full = product(unit, shade, Real::from_bits(BRIGHTEST_BITS));
    to_byte(full.truncate())
}

/// One more row fits below row `y` of an image of `rows` rows.
proof fn lemma_row_fits(y: int, rows: int, columns: int)
    requires
        0 <= y < rows,
        0 <= columns,
    ensures
        y * columns + columns <= rows * columns,
        y * columns + columns <= columns * rows,
        0 <= y * columns,
{
    assert(rows * columns == columns * rows) by (nonlinear_arith);
    assert(y * columns + columns == (y + 1) * columns) by (nonlinear_arith);
    assert((y + 1) * columns <= rows * columns) by (nonlinear_arith)
        requires
            y + 1 <= rows,
            0 <= columns,
    ;
    assert(0 <= y * columns) by (nonlinear_arith)
        requires
            0 <= y,
            0 <= columns,
    ;
}

/// Renders `scene` as `camera` sees it into `buffer`, an image of
/// `dimensions.0` columns and `dimensions.1` rows with three bytes per
/// pixel.  Sample `j` of lane `i` is taken at `(x_deltas[j][i],
/// y_deltas[j][i])` from the corner of its pixel, in shares of the pixel.
pub fn render<A: Arithmetic, S: Scene<A>>(
    unit: &A,
    scene: &S,
    camera: &Camera,
    buffer: &mut [[u8; 3]],
    dimensions: (u32, u32),
    x_deltas: &Vec<Reals>,
    y_deltas: &Vec<Reals>,
    max_depth: usize,
)
    requires
        x_deltas@.len() == y_deltas@.len(),
        old(buffer)@.len() == dimensions.0 * dimensions.1,
    ensures
        exists|width: Real, height: Real|
            #![trigger is_nearest_single(dimensions.0 as u64, width), is_nearest_single(dimensions.1 as u64, height)]
            is_nearest_single(dimensions.0 as u64, width) && is_nearest_single(dimensions.1 as u64,
                height,
            ) && (Setup {
                unit: *unit,
                scene: *scene,
                camera: *camera,
                columns: dimensions.0 as int,
                rows: dimensions.1 as int,
                width,
                height,
                x_deltas: x_deltas@,
                y_deltas: y_deltas@,
                depth: max_depth,
            }).renders(old(buffer)@, final(buffer)@),
{
    let (columns, rows) = dimensions;
    let width = Real::from_integer(columns as u64);
    let height = Real::from_integer(rows as u64);
    let ghost setup = Setup {
        unit: *unit,
        scene: *scene,
        camera: *camera,
        columns: columns as int,
        rows: rows as int,
        width,
        height,
        x_deltas: x_deltas@,
        y_deltas: y_deltas@,
        depth: max_depth,
    };
    let len = buffer.len();
    let groups = columns as usize / LANES;
    let mut row_start: usize = 0;
    let mut y: usize = 0;
    while y < rows as usize
        invariant
            y <= rows,
            len == buffer@.len(),
            len == old(buffer)@.len(),
            len == columns * rows,
            groups == columns as int / LANES as int,
            row_start == y * columns,
            x_deltas@.len() == y_deltas@.len(),
            setup.unit == *unit,
            setup.scene == *scene,
            setup.camera == *camera,
            setup.columns == columns,
            setup.rows == rows,
            setup.width == width,
            setup.height == height,
            setup.x_deltas == x_deltas@,
            setup.y_deltas == y_deltas@,
            setup.depth == max_depth,
            forall|k: int| row_start <= k < len ==> #[trigger] buffer@[k] == old(buffer)@[k],
            forall|x: int, v: int|
                0 <= v < y && 0 <= x < groups ==> #[trigger] setup.paints(x, v, buffer@),
            forall|c: int, v: int|
                0 <= v < y && groups * LANES <= c < columns ==> #[trigger] buffer@[v * columns + c]
                    == old(buffer)@[v * columns + c],
        decreases rows - y,
    {
        proof {
            lemma_row_fits(y as int, rows as int, columns as int);
        }
        let ghost above = buffer@;
        let mut x: usize = 0;
        while x < groups
            invariant
                x <= groups,
                y < rows,
                len == buffer@.len(),
                len == old(buffer)@.len(),
                len == columns * rows,
                above.len() == len,
                groups == columns as int / LANES as int,
                row_start == y * columns,
                row_start + columns <= len,
                x_deltas@.len() == y_deltas@.len(),
                setup.unit == *unit,
                setup.scene == *scene,
                setup.camera == *camera,
                setup.columns == columns,
                setup.rows == rows,
                setup.width == width,
                setup.height == height,
                setup.x_deltas == x_deltas@,
                setup.y_deltas == y_deltas@,
                setup.depth == max_depth,
                forall|k: int| 0 <= k < row_start ==> #[trigger] buffer@[k] == above[k],
                forall|k: int|
                    row_start + x * LANES <= k < len ==> #[trigger] buffer@[k] == old(buffer)@[k],
                forall|u: int| 0 <= u < x ==> #[trigger] setup.paints(u, y as int, buffer@),
            decreases groups - x,
        {
            let ghost earlier = buffer@;
            let colors = batch_shades(
                unit,
                scene,
                camera.as_camera(),
                width,
                height,
                x_deltas,
                y_deltas,
                max_depth,
                x,
                y,
            );
            let group_start = row_start + x * LANES;
            let mut i: usize = 0;
            while i < LANES
                invariant
                    i <= LANES,
                    x < groups,
                    len == buffer@.len(),
                    len == old(buffer)@.len(),
                    earlier.len() == len,
                    groups == columns as int / LANES as int,
                    group_start == row_start + x * LANES,
                    row_start + columns <= len,
                    forall|k: int| 0 <= k < group_start ==> #[trigger] buffer@[k] == earlier[k],
                    forall|k: int|
                        group_start + i <= k < len ==> #[trigger] buffer@[k] == old(buffer)@[k],
                    forall|j: int|
                        0 <= j < i ==> is_lit(
                            unit,
                            #[trigger] colors.lane(j),
                            buffer@[group_start + j],
                        ),
                decreases LANES - i,
            {
                let pixel = [
                    full_byte(unit, colors.xs[i]),
                    full_byte(unit, colors.ys[i]),
                    full_byte(unit, colors.zs[i]),
                ];
                buffer[group_start + i] = pixel;
                proof {
                    assert(colors.lane(i as int).x == colors.xs[i as int]);
                    assert(is_lit(unit, colors.lane(i as int), buffer@[group_start + i]));
                }
                i += 1;
            }
            proof {
                assert forall|u: int| 0 <= u < x + 1 implies #[trigger] setup.paints(
                    u,
                    y as int,
                    buffer@,
                ) by {
                    if u < x {
                        assert(setup.paints(u, y as int, earlier));
                        let past = choose|past: Colors| #[trigger]
                            shades(
                                unit,
                                scene,
                                setup.camera.view(),
                                width,
                                height,
                                x_deltas@,
                                y_deltas@,
                                max_depth,
                                u,
                                y as int,
                                past,
                            ) && forall|i: int|
                                0 <= i < LANES ==> is_lit(
                                    unit,
                                    #[trigger] past.lane(i),
                                    earlier[y * columns + u * LANES + i],
                                );
                        assert forall|i: int| 0 <= i < LANES implies is_lit(
                            unit,
                            #[trigger] past.lane(i),
                            buffer@[y * columns + u * LANES + i],
                        ) by {
                            assert(buffer@[y * columns + u * LANES + i] == earlier[y * columns + u
                                * LANES + i]);
                        }
                    } else {
                        assert forall|i: int| 0 <= i < LANES implies is_lit(
                            unit,
                            #[trigger] colors.lane(i),
                            buffer@[y * columns + x * LANES + i],
                        ) by {
                            assert(is_lit(unit, colors.lane(i), buffer@[group_start + i]));
                        }
                    }
                }
            }
            x += 1;
        }
        proof {
            let next = y + 1;
            assert forall|u: int, v: int| 0 <= v < next && 0 <= u < groups implies #[trigger] setup.paints(
                u,
                v,
                buffer@,
            ) by {
                if v < y {
                    assert(setup.paints(u, v, above));
                    lemma_row_fits(v, y as int, columns as int);
                    let past = choose|past: Colors| #[trigger]
                        shades(
                            unit,
                            scene,
                            setup.camera.view(),
                            width,
                            height,
                            x_deltas@,
                            y_deltas@,
                            max_depth,
                            u,
                            v,
                            past,
                        ) && forall|i: int|
                            0 <= i < LANES ==> is_lit(
                                unit,
                                #[trigger] past.lane(i),
                                above[v * columns + u * LANES + i],
                            );
                    assert forall|i: int| 0 <= i < LANES implies is_lit(
                        unit,
                        #[trigger] past.lane(i),
                        buffer@[v * columns + u * LANES + i],
                    ) by {
                        assert(buffer@[v * columns + u * LANES + i] == above[v * columns + u
                            * LANES + i]);
                    }
                }
            }
            assert forall|c: int, v: int|
                0 <= v < next && groups * LANES <= c < columns implies #[trigger] buffer@[v
                * columns + c] == old(buffer)@[v * columns + c] by {
                if v < y {
                    lemma_row_fits(v, y as int, columns as int);
                    assert(buffer@[v * columns + c] == above[v * columns + c]);
                }
            }
            assert(row_start + columns == next * columns) by (nonlinear_arith)
                requires
                    row_start == y * columns,
                    next == y + 1,
            ;
        }
        row_start += columns as usize;
        y += 1;
    }
    proof {
        assert(setup.renders(old(buffer)@, buffer@));
    }
}

} // verus!
