//! How a batch of rays is tested against a wall.
//!
//! A wall stands across one axis, so a ray meets it where it has covered
//! the distance to the wall along that axis.  The walls are checkered: the
//! room is cut into cells, and a wall reflects where the ray meets a light
//! cell only.

use crate::lanes::{any, both, gt, lt, minus, over, plus_times, splat, truncate};
use crate::math::{
    update_reals_if, Axis, Color, Colors, Integers, Mask, Point, Points, Reals, Vector, Vectors,
    LANES,
};
use crate::render::tracer::{is_closer, nearer, Hit, RaysProjections, MIN_TOI_BITS};
use crate::scalar::{
    is_difference, is_multiply_add, is_product, is_quotient, is_sum, Arithmetic,
    Real, ZERO_BITS,
};
use vstd::prelude::*;

verus! {

/// The bits of 1000: what is added to a meeting point before its checker
/// cell is taken, so that no coordinate in the room is negative.
pub const CHECKER_SHIFT_BITS: u32 = 0x447a_0000;

/// The bits of 1.5: the number of checker cells per unit of length.
pub const CHECKER_SCALE_BITS: u32 = 0x3fc0_0000;

/// Whether the checker cell `(x, y, z)` is a dark one.
pub open spec fn is_dark(x: int, y: int, z: int) -> bool {
    (x + y + z) % 2 == 0
}

/// What a ray finds on a wall: a dark cell reflects nothing.
pub open spec fn wall_hit(
    toi: Real,
    dark: bool,
    normal: Vector,
    color: Color,
    reflectance: Real,
) -> Hit {
    Hit {
        toi,
        color,
        normal,
        reflectance: if dark {
            Real { bits: ZERO_BITS }
        } else {
            reflectance
        },
    }
}

/// The lanes whose checker cell is dark.
pub fn checker_mask(xs: Integers, ys: Integers, zs: Integers) -> (dark: Mask)
    ensures
        forall|i: int|
            0 <= i < LANES ==> #[trigger] dark[i] == is_dark(xs[i] as int, ys[i] as int, zs[i] as int),
{
    let mut dark: Mask = [false; LANES];
    let mut i: usize = 0;
    while i < LANES
        invariant
            i <= LANES,
            forall|j: int|
                0 <= j < i ==> #[trigger] dark[j] == is_dark(
                    xs[j] as int,
                    ys[j] as int,
                    zs[j] as int,
                ),
        decreases LANES - i,
    {
        let total: i64 = xs[i] as i64 + ys[i] as i64 + zs[i] as i64;
        dark[i] = total % 2 == 0;
        i += 1;
    }
    dark
}

impl RaysProjections {
    /// `after` is `self` once a wall has been tested that the rays meet at
    /// `toi`, in a dark cell where `dark` says so.
    pub open spec fn meets_wall(
        self,
        after: RaysProjections,
        toi: Reals,
        dark: Mask,
        normal: Vector,
        color: Color,
        reflectance: Real,
    ) -> bool {
        &&& after.same_course(self)
        &&& forall|i: int|
            0 <= i < LANES ==> #[trigger] after.winner(i) == nearer(
                self.winner(i),
                wall_hit(toi[i], dark[i], normal, color, reflectance),
                true,
            )
    }

    /// Takes a wall into account that the rays meet at `toi`, in a dark
    /// cell where `dark` says so.  In the lanes where that is closer, the
    /// four things kept of a meeting change together; the other lanes keep
    /// what they hold.
    pub fn record_wall(
        &mut self,
        toi: Reals,
        dark: Mask,
        normal: Vector,
        color: Color,
        reflectance: Real,
    )
        ensures
            old(self).meets_wall(*final(self), toi, dark, normal, color, reflectance),
    {
        let mask = both(gt(toi, splat(Real::from_bits(MIN_TOI_BITS))), lt(toi, self.min_toi));
        let checkered_mask = both(mask, dark);
        update_reals_if(&mut self.min_toi, mask, toi);
        self.obstacle_colors.update_if(mask, Colors::from_single(color));
        update_reals_if(&mut self.obstacle_reflectances, mask, splat(reflectance));
        update_reals_if(&mut self.obstacle_reflectances, checkered_mask, splat(Real::zero()));
        self.obstacle_normals.update_if(mask, Vectors::from_single(normal));
        proof {
            assert forall|i: int| 0 <= i < LANES implies #[trigger] self.winner(i) == nearer(
                old(self).winner(i),
                wall_hit(toi[i], dark[i], normal, color, reflectance),
                true,
            ) by {
                assert(mask[i] == is_closer(toi[i], old(self).min_toi[i]));
                assert(checkered_mask[i] == (mask[i] && dark[i]));
                assert(self.obstacle_colors.lane(i) == if mask[i] {
                    color
                } else {
                    old(self).obstacle_colors.lane(i)
                });
                assert(self.obstacle_normals.lane(i) == if mask[i] {
                    normal
                } else {
                    old(self).obstacle_normals.lane(i)
                });
            }
        }
    }
}

/// `toi` is what `unit` gave for `(offset - origin) / dir`: how far along
/// the ray the wall at `offset` lies, both taken along the wall's axis.
pub open spec fn is_wall_toi<A: Arithmetic>(
    unit: &A,
    offset: Real,
    origin: Real,
    dir: Real,
    toi: Real,
) -> bool {
    exists|gap: Real| #[trigger]
        is_difference(unit, offset, origin, gap) && is_quotient(unit, gap, dir, toi)
}

/// `cell` is what `unit` gave for `((origin + dir * toi) + 1000) * 1.5` cut
/// down to an integer: the checker cell of the meeting point, along one
/// axis.
pub open spec fn is_cell<A: Arithmetic>(
    unit: &A,
    origin: Real,
    dir: Real,
    toi: Real,
    cell: i32,
) -> bool {
    exists|poi: Real, shifted: Real, scaled: Real|
        #![trigger is_multiply_add(unit, origin, dir, toi, poi), is_sum(unit, poi, Real { bits: CHECKER_SHIFT_BITS }, shifted), is_product(unit, shifted, Real { bits: CHECKER_SCALE_BITS }, scaled)]
        is_multiply_add(unit, origin, dir, toi, poi) && is_sum(
            unit,
            poi,
            Real { bits: CHECKER_SHIFT_BITS },
            shifted,
        ) && is_product(unit, shifted, Real { bits: CHECKER_SCALE_BITS }, scaled) && cell
            == scaled.cut()
}

/// `dark` says whether the ray from `origin` along `dir` meets its wall, at
/// `toi`, in a dark cell.
pub open spec fn is_checkered<A: Arithmetic>(
    unit: &A,
    origin: Point,
    dir: Vector,
    toi: Real,
    dark: bool,
) -> bool {
    exists|x: i32, y: i32, z: i32|
        #![trigger is_cell(unit, origin.x, dir.x, toi, x), is_cell(unit, origin.y, dir.y, toi, y), is_cell(unit, origin.z, dir.z, toi, z)]
        is_cell(unit, origin.x, dir.x, toi, x) && is_cell(unit, origin.y, dir.y, toi, y) && is_cell(
            unit,
            origin.z,
            dir.z,
            toi,
            z,
        ) && dark == is_dark(x as int, y as int, z as int)
}

impl RaysProjections {
    /// `after` is `self` once the wall across `axis` at `offset` has been
    /// tested.
    pub open spec fn tests_wall<A: Arithmetic>(
        self,
        unit: &A,
        after: RaysProjections,
        axis: Axis,
        offset: Real,
        normal: Vector,
        color: Color,
        reflectance: Real,
    ) -> bool {
        exists|toi: Reals, dark: Mask|
            {
                &&& forall|i: int|
                    0 <= i < LANES ==> is_wall_toi(
                        unit,
                        offset,
                        self.rays.origins.along(axis)[i],
                        self.rays.dirs.along(axis)[i],
                        #[trigger] toi[i],
                    )
                &&& forall|i: int|
                    0 <= i < LANES && is_closer(#[trigger] toi[i], self.min_toi[i])
                        ==> is_checkered(
                        unit,
                        self.rays.origins.lane(i),
                        self.rays.dirs.lane(i),
                        toi[i],
                        dark[i],
                    )
                &&& #[trigger] self.meets_wall(after, toi, dark, normal, color, reflectance)
            }
    }

    /// Tests the batch against the wall that stands across `axis` at
    /// `offset_within_axis`.  A ray that runs along the wall divides by
    /// zero, and whatever `unit` gives for that (an infinity, or nothing
    /// that is a number) is no closer meeting.
    pub fn with_axis_aligned_plane<A: Arithmetic>(
        &mut self,
        unit: &A,
        axis: Axis,
        offset_within_axis: Real,
        normal: Vector,
        color: Color,
        reflectance: Real,
    )
        ensures
            old(self).tests_wall(
                unit,
                *final(self),
                axis,
                offset_within_axis,
                normal,
                color,
                reflectance,
            ),
    {
        let offsets = splat(offset_within_axis);
        let origins = *self.rays.origins.get_axis(axis);
        let dirs = *self.rays.dirs.get_axis(axis);
        let gaps = minus(unit, offsets, origins);
        let toi = over(unit, gaps, dirs);
        proof {
            assert forall|i: int| 0 <= i < LANES implies is_wall_toi(
                unit,
                offset_within_axis,
                self.rays.origins.along(axis)[i],
                self.rays.dirs.along(axis)[i],
                #[trigger] toi[i],
            ) by {
                assert(is_difference(unit, offsets[i], origins[i], gaps[i]));
                assert(is_quotient(unit, gaps[i], dirs[i], toi[i]));
            }
        }
        let mask = both(gt(toi, splat(Real::from_bits(MIN_TOI_BITS))), lt(toi, self.min_toi));
        if !any(mask) {
            proof {
                let dark = mask;
                assert forall|i: int| 0 <= i < LANES implies #[trigger] self.winner(i) == nearer(
                    self.winner(i),
                    wall_hit(toi[i], dark[i], normal, color, reflectance),
                    true,
                ) by {
                    assert(!mask[i]);
                }
                assert(self.meets_wall(*self, toi, dark, normal, color, reflectance));
            }
            return ;
        }
        let shift = Real::from_bits(CHECKER_SHIFT_BITS);
        let scale = Real::from_bits(CHECKER_SCALE_BITS);
        let pois = Points {
            xs: plus_times(unit, self.rays.origins.xs, self.rays.dirs.xs, toi),
            ys: plus_times(unit, self.rays.origins.ys, self.rays.dirs.ys, toi),
            zs: plus_times(unit, self.rays.origins.zs, self.rays.dirs.zs, toi),
        };
        let shifts = Points::splat(shift, shift, shift);
        let shifted = pois.add(unit, shifts);
        let scaled = shifted.scale_all(unit, scale);
        let cells_x = truncate(scaled.xs);
        let cells_y = truncate(scaled.ys);
        let cells_z = truncate(scaled.zs);
        let dark = checker_mask(cells_x, cells_y, cells_z);
        proof {
            assert forall|i: int| 0 <= i < LANES implies is_checkered(
                unit,
                self.rays.origins.lane(i),
                self.rays.dirs.lane(i),
                #[trigger] toi[i],
                dark[i],
            ) by {
                let o = self.rays.origins.lane(i);
                let d = self.rays.dirs.lane(i);
                assert(shifts.lane(i) == Point { x: shift, y: shift, z: shift });
                assert(is_multiply_add(unit, o.x, d.x, toi[i], pois.xs[i]));
                assert(is_sum(unit, pois.xs[i], shift, shifted.xs[i]));
                assert(is_product(unit, shifted.xs[i], scale, scaled.xs[i]));
                assert(is_cell(unit, o.x, d.x, toi[i], cells_x[i]));
                assert(is_multiply_add(unit, o.y, d.y, toi[i], pois.ys[i]));
                assert(is_sum(unit, pois.ys[i], shift, shifted.ys[i]));
                assert(is_product(unit, shifted.ys[i], scale, scaled.ys[i]));
                assert(is_cell(unit, o.y, d.y, toi[i], cells_y[i]));
                assert(is_multiply_add(unit, o.z, d.z, toi[i], pois.zs[i]));
                assert(is_sum(unit, pois.zs[i], shift, shifted.zs[i]));
                assert(is_product(unit, shifted.zs[i], scale, scaled.zs[i]));
                assert(is_cell(unit, o.z, d.z, toi[i], cells_z[i]));
            }
        }
        self.record_wall(toi, dark, normal, color, reflectance);
    }
}

} // verus!
